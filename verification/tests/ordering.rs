use paymaster::coin::{Coin, Nonce, Nullifier, OwnedCoin, TokenType};
use paymaster::ordering::sort_by_value_descending;

fn coin(n: u128, value: u128) -> OwnedCoin {
    OwnedCoin {
        nullifier: Nullifier { hi: 0, lo: n },
        coin: Coin { value, token: TokenType::native(), nonce: Nonce { hi: 0, lo: 0 } },
    }
}

#[test]
fn sort_puts_the_largest_first() {
    let sorted = sort_by_value_descending(&vec![coin(1, 3), coin(2, 10), coin(3, 1), coin(4, 5)]);
    assert_eq!(sorted, vec![coin(2, 10), coin(4, 5), coin(1, 3), coin(3, 1)]);
}

#[test]
fn sort_keeps_equal_values_in_order() {
    let sorted = sort_by_value_descending(&vec![coin(1, 5), coin(2, 7), coin(3, 5), coin(4, 7)]);
    assert_eq!(sorted, vec![coin(2, 7), coin(4, 7), coin(1, 5), coin(3, 5)]);
}

#[test]
fn sort_of_nothing_is_nothing() {
    assert!(sort_by_value_descending(&vec![]).is_empty());
    assert_eq!(sort_by_value_descending(&vec![coin(1, 2)]), vec![coin(1, 2)]);
}

#[test]
fn token_type_knows_the_fee_token() {
    assert!(TokenType::native().is_native());
    assert!(TokenType { hi: 0, lo: 0 }.is_native());
    assert!(!TokenType { hi: 0, lo: 1 }.is_native());
    assert!(!TokenType { hi: 1, lo: 0 }.is_native());
}
