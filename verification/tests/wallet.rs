use paymaster::coin::{Coin, Nonce, Nullifier, OwnedCoin, TokenType};
use paymaster::error::Error;
use paymaster::wallet::{CoinDelta, PublicKeys, Selection, WalletState};

fn keys() -> PublicKeys {
    PublicKeys { coin_public_key: vec![1, 2, 3], enc_public_key: vec![0, 9, 8] }
}

fn id(n: u128) -> Nullifier {
    Nullifier { hi: 0, lo: n }
}

fn fee_coin(n: u128, value: u128) -> OwnedCoin {
    OwnedCoin {
        nullifier: id(n),
        coin: Coin { value, token: TokenType::native(), nonce: Nonce { hi: 7, lo: n } },
    }
}

fn other_coin(n: u128, value: u128) -> OwnedCoin {
    OwnedCoin {
        nullifier: id(n),
        coin: Coin { value, token: TokenType { hi: 1, lo: 2 }, nonce: Nonce { hi: 7, lo: n } },
    }
}

fn wallet_of(coins: Vec<OwnedCoin>, pending: Vec<Nullifier>) -> WalletState {
    WalletState::from_parts(coins, pending, keys()).expect("distinct nullifiers")
}

fn values(s: &Selection) -> Vec<u128> {
    s.coins.iter().map(|c| c.coin.value).collect()
}

fn no_funds(r: Result<Selection, Error>) -> bool {
    matches!(r, Err(Error::NotAvailable(m)) if m == "No funds available")
}

#[test]
fn largest_first_selection_takes_ten_and_five_for_twelve() {
    let w = wallet_of(
        vec![fee_coin(1, 10), fee_coin(2, 5), fee_coin(3, 3), fee_coin(4, 1)],
        vec![],
    );
    let s = w.select_for_fee(12).unwrap();
    assert_eq!(values(&s), vec![10, 5]);
    assert_eq!(s.change, 3);
}

#[test]
fn selection_orders_coins_whatever_the_wallet_order() {
    let w = wallet_of(
        vec![fee_coin(1, 1), fee_coin(2, 3), fee_coin(3, 10), fee_coin(4, 5)],
        vec![],
    );
    let s = w.select_for_fee(12).unwrap();
    assert_eq!(values(&s), vec![10, 5]);
    let s = w.select_for_fee(19).unwrap();
    assert_eq!(values(&s), vec![10, 5, 3, 1]);
    assert_eq!(s.change, 0);
    let s = w.select_for_fee(10).unwrap();
    assert_eq!(values(&s), vec![10]);
    assert_eq!(s.change, 0);
    let s = w.select_for_fee(11).unwrap();
    assert_eq!(values(&s), vec![10, 5]);
    assert_eq!(s.change, 4);
}

#[test]
fn selection_skips_other_tokens_and_reserved_coins() {
    let w = wallet_of(
        vec![other_coin(1, 1000), fee_coin(2, 8), fee_coin(3, 50), fee_coin(4, 6)],
        vec![id(3)],
    );
    let s = w.select_for_fee(10).unwrap();
    assert_eq!(values(&s), vec![8, 6]);
    assert_eq!(s.change, 4);
    assert!(no_funds(w.select_for_fee(15)));
}

#[test]
fn selection_reports_insufficient_funds() {
    let w = wallet_of(vec![fee_coin(1, 10), fee_coin(2, 5)], vec![]);
    assert!(no_funds(w.select_for_fee(16)));
    assert!(w.select_for_fee(15).is_ok());
    let empty = wallet_of(vec![], vec![]);
    assert!(no_funds(empty.select_for_fee(1)));
}

#[test]
fn selection_for_no_fee_takes_the_largest_coin_if_there_is_one() {
    let w = wallet_of(vec![fee_coin(1, 4), fee_coin(2, 9)], vec![]);
    let s = w.select_for_fee(0).unwrap();
    assert_eq!(values(&s), vec![9]);
    assert_eq!(s.change, 9);
    let empty = wallet_of(vec![], vec![]);
    let s = empty.select_for_fee(0).unwrap();
    assert!(s.coins.is_empty());
    assert_eq!(s.change, 0);
}

#[test]
fn selection_does_not_overflow_on_huge_coins() {
    let w = wallet_of(vec![fee_coin(1, u128::MAX), fee_coin(2, u128::MAX)], vec![]);
    let s = w.select_for_fee(u128::MAX).unwrap();
    assert_eq!(values(&s), vec![u128::MAX]);
    assert_eq!(s.change, 0);
    let s = w.select_for_fee(5).unwrap();
    assert_eq!(s.change, u128::MAX - 5);
}

#[test]
fn equal_values_keep_the_wallet_order() {
    let w = wallet_of(vec![fee_coin(1, 5), fee_coin(2, 5), fee_coin(3, 5)], vec![]);
    let s = w.select_for_fee(10).unwrap();
    assert_eq!(s.nullifiers(), vec![id(1), id(2)]);
}

#[test]
fn reservation_marks_the_chosen_coins_pending() {
    let mut w = wallet_of(vec![fee_coin(1, 10), fee_coin(2, 5), fee_coin(3, 3)], vec![]);
    let s = w.reserve_for_fee(12).unwrap();
    assert_eq!(s.nullifiers(), vec![id(1), id(2)]);
    assert_eq!(w.pending_spends(), &vec![id(1), id(2)]);
    assert_eq!(w.coins().len(), 3);
    assert!(w.is_pending(id(1)));
    assert!(!w.is_pending(id(3)));
}

#[test]
fn second_reservation_never_takes_reserved_coins() {
    let mut w = wallet_of(
        vec![fee_coin(1, 10), fee_coin(2, 5), fee_coin(3, 3), fee_coin(4, 1)],
        vec![],
    );
    let first = w.reserve_for_fee(12).unwrap();
    let second = w.reserve_for_fee(4).unwrap();
    assert_eq!(values(&first), vec![10, 5]);
    assert_eq!(values(&second), vec![3, 1]);
    for a in first.nullifiers() {
        assert!(!second.nullifiers().contains(&a));
    }
    assert!(no_funds(w.reserve_for_fee(1)));
}

#[test]
fn failed_reservation_changes_nothing() {
    let mut w = wallet_of(vec![fee_coin(1, 10), fee_coin(2, 5)], vec![id(2)]);
    assert!(no_funds(w.reserve_for_fee(11)));
    assert_eq!(w.pending_spends(), &vec![id(2)]);
    assert_eq!(w.coins(), &vec![fee_coin(1, 10), fee_coin(2, 5)]);
}

#[test]
fn rollback_leaves_the_coin_selectable_again() {
    let mut w = wallet_of(vec![fee_coin(1, 100)], vec![]);
    let s = w.reserve_for_fee(40).unwrap();
    assert_eq!(values(&s), vec![100]);
    assert_eq!(s.change, 60);
    assert!(no_funds(w.select_for_fee(40)));
    w.release(&s.nullifiers());
    assert!(w.pending_spends().is_empty());
    assert_eq!(w.coins(), &vec![fee_coin(1, 100)]);
    let again = w.reserve_for_fee(40).unwrap();
    assert_eq!(values(&again), vec![100]);
}

#[test]
fn release_frees_only_the_named_coins() {
    let mut w = wallet_of(vec![fee_coin(1, 10), fee_coin(2, 5)], vec![id(1), id(2), id(9)]);
    w.release(&vec![id(2), id(7)]);
    assert_eq!(w.pending_spends(), &vec![id(1), id(9)]);
}

#[test]
fn from_parts_refuses_repeated_nullifiers() {
    assert!(WalletState::from_parts(vec![fee_coin(1, 1), fee_coin(1, 2)], vec![], keys()).is_none());
    assert!(WalletState::from_parts(vec![fee_coin(1, 1)], vec![id(4), id(4)], keys()).is_none());
    assert!(WalletState::from_parts(vec![fee_coin(1, 1)], vec![id(4), id(5)], keys()).is_some());
}

#[test]
fn new_wallet_is_empty_and_keeps_its_keys() {
    let w = WalletState::new(keys());
    assert!(w.coins().is_empty());
    assert!(w.pending_spends().is_empty());
    assert_eq!(w.keys().coin_public_key, vec![1, 2, 3]);
    assert_eq!(w.keys().enc_public_key, vec![0, 9, 8]);
    assert!(!w.has_coin(id(1)));
}

#[test]
fn receive_adds_or_replaces_a_coin() {
    let mut w = wallet_of(vec![fee_coin(1, 10), fee_coin(2, 5)], vec![]);
    w.receive(fee_coin(3, 7));
    assert_eq!(w.coins(), &vec![fee_coin(1, 10), fee_coin(2, 5), fee_coin(3, 7)]);
    w.receive(fee_coin(1, 11));
    assert_eq!(w.coins(), &vec![fee_coin(2, 5), fee_coin(3, 7), fee_coin(1, 11)]);
    assert!(w.has_coin(id(1)));
}

#[test]
fn mark_spent_removes_coin_and_reservation() {
    let mut w = wallet_of(vec![fee_coin(1, 10), fee_coin(2, 5)], vec![id(1), id(2)]);
    w.mark_spent(id(1));
    assert_eq!(w.coins(), &vec![fee_coin(2, 5)]);
    assert_eq!(w.pending_spends(), &vec![id(2)]);
    w.mark_spent(id(8));
    assert_eq!(w.coins(), &vec![fee_coin(2, 5)]);
}

#[test]
fn apply_receives_then_spends() {
    let mut w = wallet_of(vec![fee_coin(1, 10), fee_coin(2, 5)], vec![id(1)]);
    let delta = CoinDelta { received: vec![fee_coin(3, 4), fee_coin(4, 6)], spent: vec![id(1), id(4)] };
    w.apply(&delta);
    assert_eq!(w.coins(), &vec![fee_coin(2, 5), fee_coin(3, 4)]);
    assert!(w.pending_spends().is_empty());
}

#[test]
fn replaying_a_delta_changes_nothing() {
    let mut once = wallet_of(vec![fee_coin(1, 10), fee_coin(2, 5)], vec![id(1), id(2)]);
    let delta = CoinDelta {
        received: vec![fee_coin(3, 4), fee_coin(2, 6), fee_coin(5, 1)],
        spent: vec![id(1), id(5)],
    };
    once.apply(&delta);
    let coins = once.coins().clone();
    let pending = once.pending_spends().clone();
    once.apply(&delta);
    assert_eq!(once.coins(), &coins);
    assert_eq!(once.pending_spends(), &pending);
    assert_eq!(coins, vec![fee_coin(3, 4), fee_coin(2, 6)]);
    assert_eq!(pending, vec![id(2)]);
}

#[test]
fn spendable_coins_are_in_wallet_order() {
    let w = wallet_of(
        vec![fee_coin(1, 1), other_coin(2, 3), fee_coin(3, 10), fee_coin(4, 5)],
        vec![id(3)],
    );
    assert_eq!(w.spendable_coins(), vec![fee_coin(1, 1), fee_coin(4, 5)]);
}

#[test]
fn requests_that_interleave_never_share_a_coin() {
    let mut w = wallet_of(
        vec![fee_coin(1, 10), fee_coin(2, 5), fee_coin(3, 3), fee_coin(4, 1)],
        vec![],
    );
    let a = w.reserve_for_fee(9).unwrap();
    let b = w.reserve_for_fee(7).unwrap();
    assert_eq!(values(&a), vec![10]);
    assert_eq!(values(&b), vec![5, 3]);
    // The first request fails: its coin is free again, the second keeps its coins.
    w.release(&a.nullifiers());
    assert_eq!(w.pending_spends(), &vec![id(2), id(3)]);
    let c = w.reserve_for_fee(11).unwrap();
    assert_eq!(values(&c), vec![10, 1]);
    for n in c.nullifiers() {
        assert!(!b.nullifiers().contains(&n));
    }
    assert_eq!(w.pending_spends(), &vec![id(2), id(3), id(1), id(4)]);
}
