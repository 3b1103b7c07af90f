use paymaster::coin::{Coin, Nonce, Nullifier, OwnedCoin, TokenType};
use paymaster::error::Error;
use paymaster::sync::{
    apply_update, check_is_wallet_in_sync, coins_match, subscription_query, StreamItem, SyncStatus,
    SyncStep, Synchronizer, WalletUpdate,
};
use paymaster::wallet::{CoinDelta, PublicKeys, WalletState};

fn coin(n: u128, value: u128) -> OwnedCoin {
    OwnedCoin {
        nullifier: Nullifier { hi: 0, lo: n },
        coin: Coin { value, token: TokenType::native(), nonce: Nonce { hi: 0, lo: n } },
    }
}

fn wallet_of(coins: Vec<OwnedCoin>, pending: Vec<Nullifier>) -> WalletState {
    let keys = PublicKeys { coin_public_key: vec![], enc_public_key: vec![] };
    WalletState::from_parts(coins, pending, keys).unwrap()
}

fn transaction(hash: &str, stage: &str, raw: &str) -> StreamItem {
    StreamItem::TransactionAdded {
        hash: hash.to_string(),
        apply_stage: stage.to_string(),
        raw: raw.to_string(),
    }
}

#[test]
fn status_starts_syncing_without_progress() {
    let s = SyncStatus::new();
    assert!(s.sync_in_progress());
    assert!(matches!(s, SyncStatus::Syncing { synced: 0, total: 0, ref waiters } if waiters.is_empty()));
}

#[test]
fn progress_below_total_keeps_syncing_and_wakes_nobody() {
    let mut s = SyncStatus::new();
    assert!(s.wait_for_sync(4));
    assert!(s.wait_for_sync(9));
    let wake = s.on_progress(3, 7);
    assert!(wake.is_empty());
    assert!(matches!(s, SyncStatus::Syncing { synced: 3, total: 7, ref waiters } if waiters == &vec![4, 9]));
}

#[test]
fn reaching_the_total_wakes_every_waiter() {
    let mut s = SyncStatus::new();
    assert!(s.wait_for_sync(4));
    s.on_progress(3, 7);
    assert!(s.wait_for_sync(9));
    let wake = s.on_progress(7, 7);
    assert_eq!(wake, vec![4, 9]);
    assert!(matches!(s, SyncStatus::UpToDate));
    assert!(!s.sync_in_progress());
    assert!(!s.wait_for_sync(11));
    assert!(s.on_progress(8, 8).is_empty());
    assert!(matches!(s, SyncStatus::UpToDate));
}

#[test]
fn falling_behind_again_starts_without_waiters() {
    let mut s = SyncStatus::UpToDate;
    let wake = s.on_progress(8, 9);
    assert!(wake.is_empty());
    assert!(matches!(s, SyncStatus::Syncing { synced: 8, total: 9, ref waiters } if waiters.is_empty()));
}

#[test]
fn requests_are_refused_while_syncing() {
    let mut s = SyncStatus::new();
    let r = check_is_wallet_in_sync(&s, "42.5");
    assert!(matches!(r, Err(Error::NotAvailable(m)) if m == "Wallet not in sync. Current progress: 42.5"));
    s.on_progress(2, 2);
    assert!(check_is_wallet_in_sync(&s, "100").is_ok());
}

#[test]
fn progress_items_update_the_status() {
    let mut sync = Synchronizer::start(true);
    let mut status = SyncStatus::new();
    status.wait_for_sync(1);
    let step = sync.on_item(&mut status, StreamItem::ProgressUpdate { synced: 1, total: 2 }).unwrap();
    assert!(matches!(step, SyncStep::Wake(w) if w.is_empty()));
    let step = sync.on_item(&mut status, StreamItem::ProgressUpdate { synced: 2, total: 2 }).unwrap();
    assert!(matches!(step, SyncStep::Wake(w) if w == vec![1]));
    assert!(!status.sync_in_progress());
    // A progress report does not use up the skip of a resumed feed.
    let step = sync.on_item(&mut status, transaction("aa", "SucceedEntirely", "00")).unwrap();
    assert!(matches!(step, SyncStep::Skip));
}

#[test]
fn resumed_feed_skips_its_first_transaction_only() {
    let mut sync = Synchronizer::start(true);
    let mut status = SyncStatus::new();
    let step = sync.on_item(&mut status, transaction("aa", "SucceedEntirely", "0102")).unwrap();
    assert!(matches!(step, SyncStep::Skip));
    let step = sync.on_item(&mut status, transaction("bb", "SucceedEntirely", "0102")).unwrap();
    assert!(matches!(step, SyncStep::Apply { hash, raw } if hash == "bb" && raw == vec![1, 2]));
}

#[test]
fn fresh_feed_applies_its_first_transaction() {
    let mut sync = Synchronizer::start(false);
    let mut status = SyncStatus::new();
    let step = sync.on_item(&mut status, transaction("cc", "FailFallible", "ff00")).unwrap();
    assert!(matches!(step, SyncStep::Apply { hash, raw } if hash == "cc" && raw == vec![255, 0]));
}

#[test]
fn entirely_failed_transactions_are_skipped() {
    let mut sync = Synchronizer::start(false);
    let mut status = SyncStatus::new();
    let step = sync.on_item(&mut status, transaction("cc", "FailEntirely", "zz")).unwrap();
    assert!(matches!(step, SyncStep::Skip));
}

#[test]
fn malformed_record_ends_the_synchronizer() {
    let mut sync = Synchronizer::start(false);
    let mut status = SyncStatus::new();
    let r = sync.on_item(&mut status, transaction("cc", "SucceedEntirely", "0g"));
    assert!(matches!(r, Err(Error::InternalError(m)) if m == "Transaction record is not valid hex"));
    let r = sync.on_item(&mut status, transaction("cc", "SucceedEntirely", "012"));
    assert!(r.is_err());
}

#[test]
fn standard_update_applies_guaranteed_then_fallible_to_both_wallets() {
    let mut confirmed = wallet_of(vec![coin(1, 10)], vec![]);
    let mut unconfirmed = wallet_of(vec![coin(1, 10)], vec![Nullifier { hi: 0, lo: 1 }]);
    let update = WalletUpdate::Standard {
        guaranteed: CoinDelta { received: vec![coin(2, 6)], spent: vec![Nullifier { hi: 0, lo: 1 }] },
        fallible: Some(CoinDelta { received: vec![coin(3, 1)], spent: vec![] }),
    };
    let persist = apply_update(&mut confirmed, &mut unconfirmed, &update);
    assert!(persist);
    assert_eq!(confirmed.coins(), &vec![coin(2, 6), coin(3, 1)]);
    assert_eq!(unconfirmed.coins(), &vec![coin(2, 6), coin(3, 1)]);
    assert!(unconfirmed.pending_spends().is_empty());
    // The same record once more: the coins stay, nothing is persisted.
    let persist = apply_update(&mut confirmed, &mut unconfirmed, &update);
    assert!(!persist);
    assert_eq!(confirmed.coins(), &vec![coin(2, 6), coin(3, 1)]);
}

#[test]
fn update_without_effect_is_not_persisted() {
    let mut confirmed = wallet_of(vec![coin(1, 10)], vec![]);
    let mut unconfirmed = wallet_of(vec![coin(1, 10)], vec![]);
    let update = WalletUpdate::Standard {
        guaranteed: CoinDelta { received: vec![], spent: vec![Nullifier { hi: 0, lo: 5 }] },
        fallible: None,
    };
    assert!(!apply_update(&mut confirmed, &mut unconfirmed, &update));
    let mint = WalletUpdate::ClaimMint { minted: CoinDelta { received: vec![coin(4, 2)], spent: vec![] } };
    assert!(apply_update(&mut confirmed, &mut unconfirmed, &mint));
    assert_eq!(confirmed.coins(), &vec![coin(1, 10), coin(4, 2)]);
}

#[test]
fn coin_sets_are_compared_without_order() {
    assert!(coins_match(&vec![coin(1, 1), coin(2, 2)], &vec![coin(2, 2), coin(1, 1)]));
    assert!(!coins_match(&vec![coin(1, 1), coin(2, 2)], &vec![coin(2, 2)]));
    assert!(!coins_match(&vec![coin(1, 1)], &vec![coin(1, 2)]));
    assert!(coins_match(&vec![], &vec![]));
}

#[test]
fn subscription_query_names_the_last_hash() {
    assert_eq!(
        subscription_query(None),
        "subscription{transactions {__typename ... on TransactionAdded { transaction { hash raw block { hash height } applyStage }} ... on ProgressUpdate {synced total} } }"
    );
    assert_eq!(
        subscription_query(Some("abc")),
        "subscription{ transactions(offset: {hash: \"abc\" }) {__typename ... on TransactionAdded { transaction { hash raw applyStage block { hash height } } } ... on ProgressUpdate {synced total} } }"
    );
}
