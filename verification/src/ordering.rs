use vstd::prelude::*;
use crate::coin::{descending, distinct_nullifiers, lemma_total_insert, total_value, OwnedCoin};

verus! {

/// `b` holds the coins of `a`, each as often as `a` does, in some order.
pub open spec fn same_coins(a: Seq<OwnedCoin>, b: Seq<OwnedCoin>) -> bool {
    a.to_multiset() == b.to_multiset()
}

/// A rearrangement holds a coin exactly where the rearranged list does.
pub proof fn lemma_rearranged_contains(a: Seq<OwnedCoin>, b: Seq<OwnedCoin>, c: OwnedCoin)
    requires
        same_coins(a, b),
    ensures
        a.contains(c) <==> b.contains(c),
{
    vstd::seq_lib::to_multiset_contains(a, c);
    vstd::seq_lib::to_multiset_contains(b, c);
}

/// Rearranging coins that differ in their nullifiers leaves them so.
pub proof fn lemma_rearranged_distinct(a: Seq<OwnedCoin>, b: Seq<OwnedCoin>)
    requires
        same_coins(a, b),
        distinct_nullifiers(a),
    ensures
        distinct_nullifiers(b),
{
    assert(a.no_duplicates()) by {
        assert forall|i: int, j: int| 0 <= i < a.len() && 0 <= j < a.len() && i != j implies a[i]
            != a[j] by {
            if i < j {
                assert(a[i].nullifier != a[j].nullifier);
            } else {
                assert(a[j].nullifier != a[i].nullifier);
            }
        }
    }
    a.lemma_multiset_has_no_duplicates();
    b.lemma_multiset_has_no_duplicates_conv();
    assert forall|i: int, j: int| 0 <= i < j < b.len() implies (#[trigger] b[i]).nullifier != (
    #[trigger] b[j]).nullifier by {
        assert(b[i] != b[j]);
        lemma_rearranged_contains(a, b, b[i]);
        lemma_rearranged_contains(a, b, b[j]);
        assert(b.contains(b[i]));
        assert(b.contains(b[j]));
        let p = choose|p: int| 0 <= p < a.len() && a[p] == b[i];
        let q = choose|q: int| 0 <= q < a.len() && a[q] == b[j];
        if p < q {
            assert(a[p].nullifier != a[q].nullifier);
        } else if q < p {
            assert(a[q].nullifier != a[p].nullifier);
        }
    }
}

/// The first position of `sorted` whose coin is worth less than `value`,
/// or the length of `sorted` where there is none.
fn insertion_point(sorted: &Vec<OwnedCoin>, value: u128) -> (at: usize)
    requires
        descending(sorted@),
    ensures
        at <= sorted.len(),
        forall|k: int| 0 <= k < at ==> (#[trigger] sorted[k]).coin.value >= value,
        forall|k: int| at <= k < sorted.len() ==> (#[trigger] sorted[k]).coin.value < value,
{
    let mut at: usize = 0;
    while at < sorted.len() && sorted[at].coin.value >= value
        invariant
            at <= sorted.len(),
            forall|k: int| 0 <= k < at ==> (#[trigger] sorted[k]).coin.value >= value,
        decreases sorted.len() - at,
    {
        at += 1;
    }
    assert forall|k: int| at <= k < sorted.len() implies (#[trigger] sorted[k]).coin.value
        < value by {
        assert(sorted[at as int].coin.value >= sorted[k].coin.value);
    }
    at
}

/// The coins of `coins` ordered by value, largest first. Coins of equal
/// value keep the order in which `coins` holds them.
pub fn sort_by_value_descending(coins: &Vec<OwnedCoin>) -> (sorted: Vec<OwnedCoin>)
    ensures
        descending(sorted@),
        same_coins(coins@, sorted@),
        sorted.len() == coins.len(),
        total_value(sorted@) == total_value(coins@),
{
    let mut sorted: Vec<OwnedCoin> = Vec::new();
    let mut i: usize = 0;
    assert(coins@.take(0) =~= sorted@);
    while i < coins.len()
        invariant
            i <= coins.len(),
            descending(sorted@),
            same_coins(coins@.take(i as int), sorted@),
            sorted.len() == i,
            total_value(sorted@) == total_value(coins@.take(i as int)),
        decreases coins.len() - i,
    {
        let c = coins[i];
        let at = insertion_point(&sorted, c.coin.value);
        proof {
            let before = sorted@;
            let after = before.insert(at as int, c);
            vstd::seq_lib::to_multiset_insert(before, at as int, c);
            lemma_total_insert(before, at as int, c);
            let prefix = coins@.take(i as int);
            assert(coins@.take(i + 1) =~= prefix.push(c));
            vstd::seq_lib::to_multiset_build(prefix, c);
            crate::coin::lemma_total_push(prefix, c);
            assert forall|a: int, b: int| 0 <= a <= b < after.len() implies (#[trigger] after[a]).coin.value
                >= (#[trigger] after[b]).coin.value by {
                if a < at && b > at {
                    assert(before[a].coin.value >= c.coin.value);
                    assert(before[b - 1].coin.value < c.coin.value);
                } else if a < at && b < at {
                    assert(before[a].coin.value >= before[b].coin.value);
                } else if a > at {
                    assert(before[a - 1].coin.value >= before[b - 1].coin.value);
                } else if a == at && b > at {
                    assert(before[b - 1].coin.value < c.coin.value);
                } else if a < at && b == at {
                    assert(before[a].coin.value >= c.coin.value);
                }
            }
        }
        sorted.insert(at, c);
        i += 1;
    }
    proof {
        assert(coins@.take(coins.len() as int) =~= coins@);
    }
    sorted
}

/// A rearrangement is worth as much as the rearranged list, and is as long.
pub proof fn lemma_rearranged_total(a: Seq<OwnedCoin>, b: Seq<OwnedCoin>)
    requires
        same_coins(a, b),
    ensures
        total_value(a) == total_value(b),
        a.len() == b.len(),
    decreases a.len(),
{
    vstd::seq_lib::to_multiset_len(a);
    vstd::seq_lib::to_multiset_len(b);
    if a.len() > 0 {
        let x = a.last();
        assert(a.contains(x));
        lemma_rearranged_contains(a, b, x);
        let i = choose|i: int| 0 <= i < b.len() && b[i] == x;
        let shorter = a.drop_last();
        let rest = b.remove(i);
        assert(shorter =~= a.remove(a.len() - 1));
        vstd::seq_lib::to_multiset_remove(a, a.len() - 1);
        vstd::seq_lib::to_multiset_remove(b, i);
        lemma_rearranged_total(shorter, rest);
        assert(b =~= rest.insert(i, x));
        lemma_total_insert(rest, i, x);
    }
}

/// Two lists without repeated nullifiers that hold the same coins are
/// rearrangements of each other.
pub proof fn lemma_same_set_rearranged(a: Seq<OwnedCoin>, b: Seq<OwnedCoin>)
    requires
        distinct_nullifiers(a),
        distinct_nullifiers(b),
        a.to_set() == b.to_set(),
    ensures
        same_coins(a, b),
{
    assert(a.no_duplicates()) by {
        assert forall|i: int, j: int| 0 <= i < a.len() && 0 <= j < a.len() && i != j implies a[i]
            != a[j] by {
            if i < j {
                assert(a[i].nullifier != a[j].nullifier);
            } else {
                assert(a[j].nullifier != a[i].nullifier);
            }
        }
    }
    assert(b.no_duplicates()) by {
        assert forall|i: int, j: int| 0 <= i < b.len() && 0 <= j < b.len() && i != j implies b[i]
            != b[j] by {
            if i < j {
                assert(b[i].nullifier != b[j].nullifier);
            } else {
                assert(b[j].nullifier != b[i].nullifier);
            }
        }
    }
    a.lemma_multiset_has_no_duplicates();
    b.lemma_multiset_has_no_duplicates();
    assert forall|x: OwnedCoin| a.to_multiset().count(x) == b.to_multiset().count(x) by {
        vstd::seq_lib::to_multiset_contains(a, x);
        vstd::seq_lib::to_multiset_contains(b, x);
        assert(a.contains(x) <==> a.to_set().contains(x));
        assert(b.contains(x) <==> b.to_set().contains(x));
    }
    assert(a.to_multiset() =~= b.to_multiset());
}

} // verus!
