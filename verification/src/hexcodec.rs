use vstd::prelude::*;

verus! {

/// What one hexadecimal digit stands for, if `c` is one: `0` to `9`, `a` to
/// `f` or `A` to `F`, in ASCII.
pub open spec fn digit_value(c: u8) -> Option<int> {
    if 48 <= c <= 57 {
        Some(c - 48)
    } else if 97 <= c <= 102 {
        Some(c - 87)
    } else if 65 <= c <= 70 {
        Some(c - 55)
    } else {
        None
    }
}

/// Whether `text` is a hexadecimal string: an even number of digits.
pub open spec fn is_hex(text: Seq<u8>) -> bool {
    &&& text.len() % 2 == 0
    &&& forall|i: int| 0 <= i < text.len() ==> (#[trigger] digit_value(text[i])) is Some
}

/// The bytes that the hexadecimal string `text` stands for: one for each
/// pair of digits, the first digit of a pair being the upper half.
pub open spec fn hex_value(text: Seq<u8>) -> Seq<u8> {
    Seq::new(
        text.len() / 2,
        |i: int| (digit_value(text[2 * i]).unwrap() * 16 + digit_value(text[2 * i + 1]).unwrap()) as u8,
    )
}

/// The lower-case digit for a value below sixteen.
pub open spec fn digit_char(v: int) -> char {
    if v < 10 {
        (v + 48) as u8 as char
    } else {
        (v + 87) as u8 as char
    }
}

/// The lower-case hexadecimal text of `data`: two digits for each byte.
pub open spec fn hex_text(data: Seq<u8>) -> Seq<char> {
    Seq::new(
        2 * data.len(),
        |i: int|
            if i % 2 == 0 {
                digit_char(data[i / 2] as int / 16)
            } else {
                digit_char(data[i / 2] as int % 16)
            },
    )
}

#[verifier::external_type_specification]
#[verifier::external_body]
pub struct ExFromHexError(hex::FromHexError);

/// `hex::decode`, on the bytes of a text. It succeeds exactly on an even
/// number of hexadecimal digits of either case, and then gives one byte for
/// each pair of digits.
#[verifier::external_body]
pub(crate) fn hex_decode(text: &[u8]) -> (r: Result<Vec<u8>, hex::FromHexError>)
    ensures
        r is Ok <==> is_hex(text@),
        r matches Ok(bytes) ==> bytes@ == hex_value(text@),
{
    hex::decode(text)
}

/// `hex::encode`: two lower-case hexadecimal digits for each byte of
/// `data`, in order.
#[verifier::external_body]
pub(crate) fn hex_encode(data: &[u8]) -> (r: String)
    ensures
        r@ == hex_text(data@),
{
    hex::encode(data)
}

/// The bytes in which a text is held: its UTF-8 encoding.
pub open spec fn text_bytes(text: Seq<char>) -> Seq<u8> {
    vstd::utf8::encode_utf8(text)
}

/// The bytes that a hexadecimal text stands for, or `None` where the text is
/// not an even number of hexadecimal digits.
pub fn decode(text: &str) -> (r: Option<Vec<u8>>)
    ensures
        r is Some <==> is_hex(text_bytes(text@)),
        r matches Some(bytes) ==> bytes@ == hex_value(text_bytes(text@)),
{
    match hex_decode(text.as_bytes()) {
        Ok(bytes) => Some(bytes),
        Err(_) => None,
    }
}

/// The lower-case hexadecimal text of `data`.
pub fn encode(data: &[u8]) -> (r: String)
    ensures
        r@ == hex_text(data@),
{
    hex_encode(data)
}

} // verus!
