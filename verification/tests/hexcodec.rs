use paymaster::hexcodec::{decode, encode};

#[test]
fn decode_reads_pairs_of_digits() {
    assert_eq!(decode("0102030f10"), Some(vec![1, 2, 3, 15, 16]));
    assert_eq!(decode("F9b4Ca"), Some(vec![0xf9, 0xb4, 0xca]));
    assert_eq!(decode(""), Some(vec![]));
}

#[test]
fn decode_refuses_odd_length_and_foreign_characters() {
    assert_eq!(decode("abc"), None);
    assert_eq!(decode("zz"), None);
    assert_eq!(decode("0g"), None);
}

#[test]
fn encode_writes_lower_case_digits() {
    assert_eq!(encode(&[1, 2, 3, 15, 16]), "0102030f10");
    assert_eq!(encode(&[0xf9, 0xb4, 0xca]), "f9b4ca");
    assert_eq!(encode(&[]), "");
}
