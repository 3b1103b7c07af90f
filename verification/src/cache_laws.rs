use vstd::prelude::*;
use crate::cache::{
    kept_entries, marked_all, ready_in, waiters_at, waits_on_evicted, worth_proving, EntryModel,
};
use crate::coin::{distinct_nullifiers, Nullifier, OwnedCoin};
use crate::ordering::{lemma_rearranged_contains, lemma_rearranged_distinct, same_coins};
use crate::seqs::{lemma_filter_distinct_coins, lemma_filter_members};
use crate::wallet::WalletModel;

verus! {

/// Whether `coins` holds a coin under `n`.
pub open spec fn among(coins: Seq<OwnedCoin>, n: Nullifier) -> bool {
    exists|i: int| 0 <= i < coins.len() && (#[trigger] coins[i]).nullifier == n
}

/// The cache `m` once the proof of each coin of `order` has been stored:
/// `prover` says which fragment is computed for a coin.
pub open spec fn completed_all(
    m: Map<Nullifier, EntryModel>,
    order: Seq<OwnedCoin>,
    prover: spec_fn(OwnedCoin) -> Seq<u8>,
) -> Map<Nullifier, EntryModel>
    decreases order.len(),
{
    if order.len() == 0 {
        m
    } else {
        completed_all(m, order.drop_last(), prover).insert(
            order.last().nullifier,
            EntryModel::Ready(prover(order.last())),
        )
    }
}

/// The cache `m` after one full pass of the refresh loop over the wallet
/// `w`, in which the coins of `order` were proven.
pub open spec fn after_pass(
    m: Map<Nullifier, EntryModel>,
    w: WalletModel,
    order: Seq<OwnedCoin>,
    prover: spec_fn(OwnedCoin) -> Seq<u8>,
) -> Map<Nullifier, EntryModel> {
    completed_all(marked_all(kept_entries(m, w), order), order, prover)
}

/// Marking coins as pending adds entries for them and changes no entry
/// that was there.
proof fn lemma_marked_all(m: Map<Nullifier, EntryModel>, coins: Seq<OwnedCoin>, n: Nullifier)
    ensures
        marked_all(m, coins).contains_key(n) <==> m.contains_key(n) || among(coins, n),
        m.contains_key(n) ==> marked_all(m, coins)[n] == m[n],
    decreases coins.len(),
{
    if coins.len() > 0 {
        let shorter = coins.drop_last();
        lemma_marked_all(m, shorter, n);
        if among(coins, n) {
            let i = choose|i: int| 0 <= i < coins.len() && (#[trigger] coins[i]).nullifier == n;
            if i < shorter.len() {
                assert(shorter[i].nullifier == n);
            }
        }
        if among(shorter, n) {
            let i = choose|i: int| 0 <= i < shorter.len() && (#[trigger] shorter[i]).nullifier == n;
            assert(coins[i].nullifier == n);
        }
        if coins.last().nullifier == n {
            assert(coins[coins.len() - 1].nullifier == n);
        }
    }
}

/// Storing proofs adds entries for the proven coins and changes no other
/// entry.
proof fn lemma_completed_others(
    m: Map<Nullifier, EntryModel>,
    order: Seq<OwnedCoin>,
    prover: spec_fn(OwnedCoin) -> Seq<u8>,
    n: Nullifier,
)
    ensures
        completed_all(m, order, prover).contains_key(n) <==> m.contains_key(n) || among(order, n),
        !among(order, n) && m.contains_key(n) ==> completed_all(m, order, prover)[n] == m[n],
    decreases order.len(),
{
    if order.len() > 0 {
        let shorter = order.drop_last();
        lemma_completed_others(m, shorter, prover, n);
        if among(order, n) {
            let i = choose|i: int| 0 <= i < order.len() && (#[trigger] order[i]).nullifier == n;
            if i < shorter.len() {
                assert(shorter[i].nullifier == n);
            }
        }
        if among(shorter, n) {
            let i = choose|i: int| 0 <= i < shorter.len() && (#[trigger] shorter[i]).nullifier == n;
            assert(order[i].nullifier == n);
        }
        if order.last().nullifier == n {
            assert(order[order.len() - 1].nullifier == n);
        }
    }
}

/// After the proofs are stored, the entry of each proven coin is ready
/// with the fragment computed for that coin.
proof fn lemma_completed_proven(
    m: Map<Nullifier, EntryModel>,
    order: Seq<OwnedCoin>,
    prover: spec_fn(OwnedCoin) -> Seq<u8>,
    i: int,
)
    requires
        distinct_nullifiers(order),
        0 <= i < order.len(),
    ensures
        completed_all(m, order, prover).contains_key(order[i].nullifier),
        completed_all(m, order, prover)[order[i].nullifier] == EntryModel::Ready(prover(order[i])),
    decreases order.len(),
{
    let shorter = order.drop_last();
    if i < order.len() - 1 {
        assert forall|a: int, b: int| 0 <= a < b < shorter.len() implies (#[trigger] shorter[a]).nullifier
            != (#[trigger] shorter[b]).nullifier by {
            assert(order[a].nullifier != order[b].nullifier);
        }
        lemma_completed_proven(m, shorter, prover, i);
        assert(order[i].nullifier != order[order.len() - 1].nullifier);
        assert(shorter[i] == order[i]);
    }
}

/// After one full pass of the refresh loop, the proof of every coin that
/// can pay a fee is ready, where the cache held either nothing or a ready
/// proof for the coin before the pass. A proof that was ready is kept as it
/// was; for a coin without an entry the fragment is the one computed for
/// exactly that coin. A coin whose entry was pending before the pass is
/// left to whoever made that entry.
pub proof fn law_pass_makes_proofs_ready(
    m: Map<Nullifier, EntryModel>,
    w: WalletModel,
    order: Seq<OwnedCoin>,
    prover: spec_fn(OwnedCoin) -> Seq<u8>,
    c: OwnedCoin,
)
    requires
        w.wf(),
        same_coins(w.coins.filter(worth_proving(w.pending, kept_entries(m, w))), order),
        w.spendable(c),
        !m.contains_key(c.nullifier) || m[c.nullifier] is Ready,
    ensures
        ready_in(after_pass(m, w, order, prover), c.nullifier),
        m.contains_key(c.nullifier) ==> after_pass(m, w, order, prover)[c.nullifier]
            == m[c.nullifier],
        !m.contains_key(c.nullifier) ==> after_pass(m, w, order, prover)[c.nullifier]
            == EntryModel::Ready(prover(c)),
{
    let kept = kept_entries(m, w);
    let test = worth_proving(w.pending, kept);
    let wanted = w.coins.filter(test);
    let marked_map = marked_all(kept, order);
    let n = c.nullifier;
    lemma_filter_members(w.coins, test);
    lemma_filter_distinct_coins(w.coins, test);
    lemma_rearranged_distinct(wanted, order);
    let at = choose|i: int| 0 <= i < w.coins.len() && w.coins[i] == c;
    assert(w.has_coin(n)) by {
        assert(w.coins[at].nullifier == n);
    }
    lemma_marked_all(kept, order, n);
    lemma_completed_others(marked_map, order, prover, n);
    if m.contains_key(n) {
        assert(kept.contains_key(n));
        if among(order, n) {
            let i = choose|i: int| 0 <= i < order.len() && (#[trigger] order[i]).nullifier == n;
            assert(order.contains(order[i]));
            lemma_rearranged_contains(wanted, order, order[i]);
            let j = choose|j: int| 0 <= j < wanted.len() && wanted[j] == order[i];
            assert(test(wanted[j]));
        }
    } else {
        assert(test(w.coins[at]));
        assert(wanted.contains(c));
        lemma_rearranged_contains(wanted, order, c);
        let i = choose|i: int| 0 <= i < order.len() && order[i] == c;
        lemma_completed_proven(marked_map, order, prover, i);
    }
}

/// No task is left waiting on an entry that is gone: a task that waited
/// on some entry before an eviction either still waits on that entry or is
/// among those that the eviction wakes.
pub proof fn law_eviction_strands_no_waiter(
    m: Map<Nullifier, EntryModel>,
    w: WalletModel,
    n: Nullifier,
    id: u64,
)
    requires
        m.contains_key(n),
        m[n].waiters().contains(id),
    ensures
        waits_on_evicted(m, w, id) || (kept_entries(m, w).contains_key(n) && kept_entries(
            m,
            w,
        )[n].waiters().contains(id)),
{
}

/// A task that asks for a proof that is not ready waits on the entry that
/// the cache holds for the coin afterwards, whether that entry was there
/// before, was never made, or was evicted since the task last asked. So a
/// later completion or eviction of the entry wakes the task.
pub proof fn law_asking_registers_the_waiter(
    m: Map<Nullifier, EntryModel>,
    n: Nullifier,
    id: u64,
)
    requires
        !ready_in(m, n),
    ensures
        m.insert(
            n,
            EntryModel::Pending(waiters_at(m, n).push(id)),
        )[n].waiters().contains(id),
        forall|other: u64|
            waiters_at(m, n).contains(other) ==> m.insert(
                n,
                EntryModel::Pending(waiters_at(m, n).push(id)),
            )[n].waiters().contains(other),
{
    let before = waiters_at(m, n);
    let after = before.push(id);
    assert(after[before.len() as int] == id);
    assert forall|other: u64| before.contains(other) implies after.contains(other) by {
        let i = choose|i: int| 0 <= i < before.len() && before[i] == other;
        assert(after[i] == other);
    }
}

} // verus!
