use paymaster::cache::{try_begin_refresh, Collected, ProofCache};
use paymaster::coin::{Coin, Nonce, Nullifier, OwnedCoin, TokenType};
use paymaster::sync::SyncStatus;
use paymaster::wallet::{PublicKeys, WalletState};

fn id(n: u128) -> Nullifier {
    Nullifier { hi: 0, lo: n }
}

fn coin(n: u128, value: u128) -> OwnedCoin {
    OwnedCoin {
        nullifier: id(n),
        coin: Coin { value, token: TokenType::native(), nonce: Nonce { hi: 0, lo: n } },
    }
}

fn foreign(n: u128, value: u128) -> OwnedCoin {
    OwnedCoin {
        nullifier: id(n),
        coin: Coin { value, token: TokenType { hi: 3, lo: 3 }, nonce: Nonce { hi: 0, lo: n } },
    }
}

fn wallet_of(coins: Vec<OwnedCoin>, pending: Vec<Nullifier>) -> WalletState {
    let keys = PublicKeys { coin_public_key: vec![], enc_public_key: vec![] };
    WalletState::from_parts(coins, pending, keys).unwrap()
}

fn proof_for(c: &OwnedCoin) -> Vec<u8> {
    vec![0xab, c.nullifier.lo as u8, c.coin.value as u8]
}

#[test]
fn lookup_of_unknown_coin_registers_the_waiter() {
    let mut cache = ProofCache::new();
    assert!(!cache.contains(id(1)));
    assert_eq!(cache.lookup(id(1), 7), None);
    assert!(cache.contains(id(1)));
    assert!(!cache.is_ready(id(1)));
    assert_eq!(cache.lookup(id(1), 8), None);
    let wake = cache.complete(id(1), vec![1, 2, 3]);
    assert_eq!(wake, vec![7, 8]);
    assert!(cache.is_ready(id(1)));
    assert_eq!(cache.lookup(id(1), 9), Some(vec![1, 2, 3]));
    assert_eq!(cache.complete(id(1), vec![4]), Vec::<u64>::new());
    assert_eq!(cache.lookup(id(1), 9), Some(vec![4]));
}

#[test]
fn mark_pending_makes_an_entry_once() {
    let mut cache = ProofCache::new();
    assert!(cache.mark_pending(id(2)));
    assert!(!cache.mark_pending(id(2)));
    assert!(cache.contains(id(2)));
    assert!(!cache.is_ready(id(2)));
    assert_eq!(cache.complete(id(2), vec![9]), Vec::<u64>::new());
    assert!(!cache.mark_pending(id(2)));
    assert!(cache.is_ready(id(2)));
}

#[test]
fn candidates_are_uncached_spendable_coins_largest_first() {
    let mut cache = ProofCache::new();
    cache.complete(id(3), vec![1]);
    cache.mark_pending(id(6));
    let w = wallet_of(
        vec![coin(1, 3), coin(2, 10), coin(3, 50), foreign(4, 99), coin(5, 7), coin(6, 8), coin(7, 1)],
        vec![id(7)],
    );
    assert_eq!(cache.candidates(&w), vec![coin(2, 10), coin(5, 7), coin(1, 3)]);
}

#[test]
fn eviction_drops_entries_of_missing_coins_and_wakes_their_waiters() {
    let mut cache = ProofCache::new();
    cache.complete(id(1), vec![1]);
    cache.complete(id(2), vec![2]);
    cache.lookup(id(3), 30);
    cache.lookup(id(3), 31);
    cache.lookup(id(4), 40);
    let w = wallet_of(vec![coin(1, 5), coin(4, 5)], vec![]);
    let mut wake = cache.evict_missing(&w);
    wake.sort();
    assert_eq!(wake, vec![30, 31]);
    assert!(cache.is_ready(id(1)));
    assert!(!cache.contains(id(2)));
    assert!(!cache.contains(id(3)));
    assert!(cache.contains(id(4)));
    assert_eq!(cache.complete(id(4), vec![4]), vec![40]);
}

#[test]
fn waiter_of_an_evicted_entry_asks_again_and_is_served() {
    let mut cache = ProofCache::new();
    assert_eq!(cache.lookup(id(1), 5), None);
    let gone = wallet_of(vec![], vec![]);
    assert_eq!(cache.evict_missing(&gone), vec![5]);
    // Woken, the task asks again: it waits on a fresh entry.
    assert_eq!(cache.lookup(id(1), 5), None);
    assert_eq!(cache.complete(id(1), vec![8]), vec![5]);
    assert_eq!(cache.lookup(id(1), 5), Some(vec![8]));
}

#[test]
fn full_pass_makes_every_spendable_coin_ready() {
    let mut cache = ProofCache::new();
    let w = wallet_of(vec![coin(1, 3), coin(2, 10), foreign(3, 4), coin(4, 6)], vec![id(4)]);
    let plan = cache.begin_refresh(&w);
    assert_eq!(plan.to_prove, vec![coin(2, 10), coin(1, 3)]);
    assert!(plan.wake.is_empty());
    for c in &plan.to_prove {
        assert!(cache.contains(c.nullifier));
        assert!(!cache.is_ready(c.nullifier));
    }
    for c in &plan.to_prove {
        cache.complete(c.nullifier, proof_for(c));
    }
    assert_eq!(cache.lookup(id(1), 0), Some(proof_for(&coin(1, 3))));
    assert_eq!(cache.lookup(id(2), 0), Some(proof_for(&coin(2, 10))));
    assert!(!cache.contains(id(3)));
    assert!(!cache.contains(id(4)));
    // The next pass has nothing to do.
    let plan = cache.begin_refresh(&w);
    assert!(plan.to_prove.is_empty());
}

#[test]
fn pass_leaves_out_a_coin_that_has_a_pending_entry() {
    let mut cache = ProofCache::new();
    let w = wallet_of(vec![coin(1, 3), coin(2, 4)], vec![]);
    assert_eq!(cache.lookup(id(1), 9), None);
    let plan = cache.begin_refresh(&w);
    assert_eq!(plan.to_prove, vec![coin(2, 4)]);
    assert!(plan.wake.is_empty());
    assert!(cache.contains(id(1)));
    assert!(!cache.is_ready(id(1)));
    // Whoever computes the proof wakes the task that asked.
    assert_eq!(cache.complete(id(1), proof_for(&coin(1, 3))), vec![9]);
    assert_eq!(cache.lookup(id(1), 9), Some(proof_for(&coin(1, 3))));
}

#[test]
fn collect_returns_fragments_in_the_order_asked() {
    let mut cache = ProofCache::new();
    cache.complete(id(1), vec![1]);
    cache.complete(id(2), vec![2]);
    let r = cache.collect(&vec![id(2), id(1)], 3);
    assert!(matches!(r, Collected::Ready(f) if f == vec![vec![2], vec![1]]));
    let r = cache.collect(&vec![], 3);
    assert!(matches!(r, Collected::Ready(f) if f.is_empty()));
}

#[test]
fn collect_waits_for_the_first_missing_proof() {
    let mut cache = ProofCache::new();
    cache.complete(id(1), vec![1]);
    let r = cache.collect(&vec![id(1), id(2), id(3)], 3);
    assert!(matches!(r, Collected::WaitFor(n) if n == id(2)));
    assert!(cache.contains(id(2)));
    assert!(!cache.contains(id(3)));
    assert_eq!(cache.complete(id(2), vec![2]), vec![3]);
    let r = cache.collect(&vec![id(1), id(2), id(3)], 3);
    assert!(matches!(r, Collected::WaitFor(n) if n == id(3)));
    assert_eq!(cache.complete(id(3), vec![3]), vec![3]);
    let r = cache.collect(&vec![id(1), id(2), id(3)], 3);
    assert!(matches!(r, Collected::Ready(f) if f == vec![vec![1], vec![2], vec![3]]));
}

#[test]
fn no_refresh_pass_while_syncing() {
    let mut cache = ProofCache::new();
    let mut status = SyncStatus::new();
    let w = wallet_of(vec![coin(1, 3)], vec![]);
    assert!(try_begin_refresh(&mut cache, &mut status, &w, 77).is_none());
    assert!(!cache.contains(id(1)));
    assert_eq!(status.on_progress(5, 5), vec![77]);
    let plan = try_begin_refresh(&mut cache, &mut status, &w, 77).unwrap();
    assert_eq!(plan.to_prove, vec![coin(1, 3)]);
    assert!(cache.contains(id(1)));
}
