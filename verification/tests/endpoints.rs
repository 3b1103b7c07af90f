use paymaster::coin::{Coin, Nonce, Nullifier, OwnedCoin, TokenType};
use paymaster::encoding::amount_text;
use paymaster::endpoints::{address, funds, show_nullifier};
use paymaster::sync::SyncStatus;
use paymaster::wallet::{PublicKeys, WalletState};

#[test]
fn amounts_are_written_in_decimal() {
    assert_eq!(amount_text(0), "0");
    assert_eq!(amount_text(7), "7");
    assert_eq!(amount_text(10), "10");
    assert_eq!(amount_text(40000), "40000");
    assert_eq!(amount_text(1234567890), "1234567890");
    assert_eq!(amount_text(u128::MAX), u128::MAX.to_string());
}

#[test]
fn nullifier_bytes_are_highest_first() {
    let n = Nullifier { hi: 0x0102_0000_0000_0000_0000_0000_0000_00ff, lo: 0x10 };
    let mut expected = vec![0u8; 32];
    expected[0] = 1;
    expected[1] = 2;
    expected[15] = 0xff;
    expected[31] = 0x10;
    assert_eq!(n.to_bytes(), expected);
    let all = Nullifier { hi: u128::MAX, lo: 0 };
    assert_eq!(all.to_hex(), format!("{}{}", "ff".repeat(16), "00".repeat(16)));
    let mut both = n.hi.to_be_bytes().to_vec();
    both.extend_from_slice(&n.lo.to_be_bytes());
    assert_eq!(n.to_bytes(), both);
}

fn ledger_hex(n: &Nullifier) -> String {
    let mut bytes = [0u8; 32];
    bytes[..16].copy_from_slice(&n.hi.to_be_bytes());
    bytes[16..].copy_from_slice(&n.lo.to_be_bytes());
    let key = midnight_coin_structure::coin::Nullifier(midnight_base_crypto::hash::HashOutput(bytes));
    let mut out = Vec::new();
    midnight_serialize::tagged_serialize(&key, &mut out).unwrap();
    hex::encode(out)
}

#[test]
fn funds_lists_coins_and_reservations() {
    let keys = PublicKeys { coin_public_key: vec![], enc_public_key: vec![] };
    let a = OwnedCoin {
        nullifier: Nullifier { hi: 0, lo: 0xab },
        coin: Coin { value: 250, token: TokenType::native(), nonce: Nonce { hi: 0, lo: 0 } },
    };
    let b = OwnedCoin {
        nullifier: Nullifier { hi: 1, lo: 0 },
        coin: Coin { value: 3, token: TokenType { hi: 5, lo: 5 }, nonce: Nonce { hi: 0, lo: 0 } },
    };
    let w = WalletState::from_parts(vec![a, b], vec![b.nullifier], keys).unwrap();
    let view = funds(&w, &SyncStatus::new()).unwrap();
    assert!(view.syncing);
    assert_eq!(
        view.coins,
        vec![
            (ledger_hex(&a.nullifier), "250".to_string()),
            (ledger_hex(&b.nullifier), "3".to_string()),
        ]
    );
    assert!(view.coins[0].0.ends_with(&format!("{}ab", "0".repeat(62))));
    assert_ne!(view.coins[0].0, a.nullifier.to_hex());
    assert_eq!(view.pending, vec![ledger_hex(&b.nullifier)]);
    assert_eq!(show_nullifier(&a.nullifier).unwrap(), ledger_hex(&a.nullifier));
    let view = funds(&w, &SyncStatus::UpToDate).unwrap();
    assert!(!view.syncing);
}

#[test]
fn address_joins_both_keys_without_the_leading_byte() {
    assert_eq!(address(&[0xaa, 0xbb], &[0x01, 0xcc, 0xdd]), "aabb|ccdd");
    assert_eq!(address(&[], &[0x01]), "|");
}
