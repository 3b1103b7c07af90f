use vstd::prelude::*;
use crate::coin::{distinct, distinct_nullifiers, Nullifier, OwnedCoin};

verus! {

/// The test that every coin passes but the one known under `n`.
pub open spec fn other_than(n: Nullifier) -> spec_fn(OwnedCoin) -> bool {
    |c: OwnedCoin| c.nullifier != n
}

/// The test that a nullifier passes where `ids` does not hold it.
pub open spec fn not_in(ids: Seq<Nullifier>) -> spec_fn(Nullifier) -> bool {
    |n: Nullifier| !ids.contains(n)
}

/// Nothing is left of nothing.
pub proof fn lemma_filter_empty<A>(p: spec_fn(A) -> bool)
    ensures
        Seq::<A>::empty().filter(p) == Seq::<A>::empty(),
{
    reveal(Seq::filter);
}

/// What passes a test is there, passes it, and was there before; and what
/// was there and passes it is still there.
pub proof fn lemma_filter_members<A>(s: Seq<A>, p: spec_fn(A) -> bool)
    ensures
        forall|i: int| 0 <= i < s.filter(p).len() ==> p(#[trigger] s.filter(p)[i]),
        forall|i: int| 0 <= i < s.filter(p).len() ==> s.contains(#[trigger] s.filter(p)[i]),
        forall|i: int| 0 <= i < s.len() && p(s[i]) ==> s.filter(p).contains(#[trigger] s[i]),
        s.filter(p).len() <= s.len(),
{
    let f = s.filter(p);
    s.lemma_filter_len(p);
    assert forall|i: int| 0 <= i < f.len() implies p(#[trigger] f[i]) && s.contains(f[i]) by {
        s.lemma_filter_pred(p, i);
        assert(f.contains(f[i]));
        s.lemma_filter_contains_rev(p, f[i]);
    }
    assert forall|i: int| 0 <= i < s.len() && p(s[i]) implies f.contains(#[trigger] s[i]) by {
        s.lemma_filter_contains(p, i);
    }
}

/// Keeping some coins of a sequence without repeated nullifiers repeats
/// none.
pub proof fn lemma_filter_distinct_coins(s: Seq<OwnedCoin>, p: spec_fn(OwnedCoin) -> bool)
    requires
        distinct_nullifiers(s),
    ensures
        distinct_nullifiers(s.filter(p)),
    decreases s.len(),
{
    if s.len() == 0 {
        assert(s =~= Seq::empty());
        lemma_filter_empty(p);
    } else {
        let t = s.drop_last();
        let x = s.last();
        assert(s =~= t.push(x));
        t.lemma_filter_push(x, p);
        assert forall|i: int, j: int| 0 <= i < j < t.len() implies (#[trigger] t[i]).nullifier != (
        #[trigger] t[j]).nullifier by {
            assert(s[i].nullifier != s[j].nullifier);
        }
        lemma_filter_distinct_coins(t, p);
        lemma_filter_members(t, p);
        let f = t.filter(p);
        if p(x) {
            let g = f.push(x);
            assert forall|i: int, j: int| 0 <= i < j < g.len() implies (#[trigger] g[i]).nullifier
                != (#[trigger] g[j]).nullifier by {
                if j == f.len() {
                    assert(t.contains(f[i]));
                    let k = choose|k: int| 0 <= k < t.len() && t[k] == f[i];
                    assert(s[k].nullifier != s[s.len() - 1].nullifier);
                } else {
                    assert(f[i].nullifier != f[j].nullifier);
                }
            }
        }
    }
}

/// Keeping some values of a sequence without repetitions repeats none.
pub proof fn lemma_filter_distinct(s: Seq<Nullifier>, p: spec_fn(Nullifier) -> bool)
    requires
        distinct(s),
    ensures
        distinct(s.filter(p)),
    decreases s.len(),
{
    if s.len() == 0 {
        assert(s =~= Seq::empty());
        lemma_filter_empty(p);
    } else {
        let t = s.drop_last();
        let x = s.last();
        assert(s =~= t.push(x));
        t.lemma_filter_push(x, p);
        assert forall|i: int, j: int| 0 <= i < j < t.len() implies #[trigger] t[i] != #[trigger] t[j] by {
            assert(s[i] != s[j]);
        }
        lemma_filter_distinct(t, p);
        lemma_filter_members(t, p);
        let f = t.filter(p);
        if p(x) {
            let g = f.push(x);
            assert forall|i: int, j: int| 0 <= i < j < g.len() implies #[trigger] g[i] != #[trigger] g[j] by {
                if j == f.len() {
                    assert(t.contains(f[i]));
                    let k = choose|k: int| 0 <= k < t.len() && t[k] == f[i];
                    assert(s[k] != s[s.len() - 1]);
                } else {
                    assert(f[i] != f[j]);
                }
            }
        }
    }
}

/// A test that everything passes keeps everything.
pub proof fn lemma_filter_all<A>(s: Seq<A>, p: spec_fn(A) -> bool)
    requires
        forall|i: int| 0 <= i < s.len() ==> p(#[trigger] s[i]),
    ensures
        s.filter(p) == s,
    decreases s.len(),
{
    if s.len() == 0 {
        assert(s =~= Seq::empty());
        lemma_filter_empty(p);
    } else {
        let t = s.drop_last();
        assert(s =~= t.push(s.last()));
        t.lemma_filter_push(s.last(), p);
        assert forall|i: int| 0 <= i < t.len() implies p(#[trigger] t[i]) by {
            assert(p(s[i]));
        }
        lemma_filter_all(t, p);
    }
}

/// A test that nothing passes keeps nothing.
pub proof fn lemma_filter_none<A>(s: Seq<A>, p: spec_fn(A) -> bool)
    requires
        forall|i: int| 0 <= i < s.len() ==> !p(#[trigger] s[i]),
    ensures
        s.filter(p) == Seq::<A>::empty(),
    decreases s.len(),
{
    if s.len() == 0 {
        assert(s =~= Seq::empty());
        lemma_filter_empty(p);
    } else {
        let t = s.drop_last();
        assert(s =~= t.push(s.last()));
        t.lemma_filter_push(s.last(), p);
        assert forall|i: int| 0 <= i < t.len() implies !p(#[trigger] t[i]) by {
            assert(!p(s[i]));
        }
        lemma_filter_none(t, p);
    }
}

/// Whether `ids` holds `n`.
pub fn holds(ids: &Vec<Nullifier>, n: Nullifier) -> (r: bool)
    ensures
        r == ids@.contains(n),
{
    let mut i: usize = 0;
    while i < ids.len()
        invariant
            i <= ids.len(),
            forall|k: int| 0 <= k < i ==> ids[k] != n,
        decreases ids.len() - i,
    {
        if ids[i] == n {
            return true;
        }
        i += 1;
    }
    false
}

/// Whether no value occurs twice in `ids`.
pub fn all_distinct(ids: &Vec<Nullifier>) -> (r: bool)
    ensures
        r == distinct(ids@),
{
    let mut j: usize = 0;
    while j < ids.len()
        invariant
            j <= ids.len(),
            forall|a: int, b: int| 0 <= a < b < j ==> #[trigger] ids[a] != #[trigger] ids[b],
        decreases ids.len() - j,
    {
        let mut i: usize = 0;
        while i < j
            invariant
                i <= j < ids.len(),
                forall|a: int| 0 <= a < i ==> #[trigger] ids[a] != ids[j as int],
            decreases j - i,
        {
            if ids[i] == ids[j] {
                return false;
            }
            i += 1;
        }
        j += 1;
    }
    true
}

/// The values of `ids` that `gone` does not hold, in order.
pub fn without_ids(ids: &Vec<Nullifier>, gone: &Vec<Nullifier>) -> (kept: Vec<Nullifier>)
    ensures
        kept@ == ids@.filter(not_in(gone@)),
{
    let mut kept: Vec<Nullifier> = Vec::new();
    let mut i: usize = 0;
    proof {
        assert(ids@.take(0) =~= Seq::empty());
        lemma_filter_empty(not_in(gone@));
    }
    while i < ids.len()
        invariant
            i <= ids.len(),
            kept@ == ids@.take(i as int).filter(not_in(gone@)),
        decreases ids.len() - i,
    {
        let n = ids[i];
        proof {
            assert(ids@.take(i + 1) =~= ids@.take(i as int).push(n));
            ids@.take(i as int).lemma_filter_push(n, not_in(gone@));
        }
        if !holds(gone, n) {
            kept.push(n);
        }
        i += 1;
    }
    proof {
        assert(ids@.take(ids.len() as int) =~= ids@);
    }
    kept
}

/// The coins of `coins` that are not known under `n`, in order.
pub fn without_coin(coins: &Vec<OwnedCoin>, n: Nullifier) -> (kept: Vec<OwnedCoin>)
    ensures
        kept@ == coins@.filter(other_than(n)),
{
    let mut kept: Vec<OwnedCoin> = Vec::new();
    let mut i: usize = 0;
    proof {
        assert(coins@.take(0) =~= Seq::empty());
        lemma_filter_empty(other_than(n));
    }
    while i < coins.len()
        invariant
            i <= coins.len(),
            kept@ == coins@.take(i as int).filter(other_than(n)),
        decreases coins.len() - i,
    {
        let c = coins[i];
        proof {
            assert(coins@.take(i + 1) =~= coins@.take(i as int).push(c));
            coins@.take(i as int).lemma_filter_push(c, other_than(n));
        }
        if c.nullifier != n {
            kept.push(c);
        }
        i += 1;
    }
    proof {
        assert(coins@.take(coins.len() as int) =~= coins@);
    }
    kept
}

} // verus!

verus! {

/// Testing twice is testing once for both.
pub proof fn lemma_filter_twice<A>(
    s: Seq<A>,
    p: spec_fn(A) -> bool,
    q: spec_fn(A) -> bool,
    both: spec_fn(A) -> bool,
)
    requires
        forall|x: A| #[trigger] both(x) == (p(x) && q(x)),
    ensures
        s.filter(p).filter(q) == s.filter(both),
    decreases s.len(),
{
    if s.len() == 0 {
        assert(s =~= Seq::empty());
        lemma_filter_empty(p);
        lemma_filter_empty(q);
        lemma_filter_empty(both);
    } else {
        let t = s.drop_last();
        let x = s.last();
        assert(s =~= t.push(x));
        t.lemma_filter_push(x, p);
        t.lemma_filter_push(x, both);
        lemma_filter_twice(t, p, q, both);
        if p(x) {
            t.filter(p).lemma_filter_push(x, q);
        }
    }
}

/// What passed a test passes it again.
pub proof fn lemma_filter_again<A>(s: Seq<A>, p: spec_fn(A) -> bool)
    ensures
        s.filter(p).filter(p) == s.filter(p),
{
    lemma_filter_members(s, p);
    lemma_filter_all(s.filter(p), p);
}

/// The order of two tests does not matter.
pub proof fn lemma_filter_swap<A>(s: Seq<A>, p: spec_fn(A) -> bool, q: spec_fn(A) -> bool)
    ensures
        s.filter(p).filter(q) == s.filter(q).filter(p),
{
    let both = |x: A| p(x) && q(x);
    lemma_filter_twice(s, p, q, both);
    lemma_filter_twice(s, q, p, both);
}

/// The bytes of `bytes`, once more.
pub fn copy_bytes(bytes: &Vec<u8>) -> (r: Vec<u8>)
    ensures
        r@ == bytes@,
{
    let mut r: Vec<u8> = Vec::new();
    let mut i: usize = 0;
    while i < bytes.len()
        invariant
            i <= bytes.len(),
            r@ == bytes@.take(i as int),
        decreases bytes.len() - i,
    {
        r.push(bytes[i]);
        assert(r@ =~= bytes@.take(i + 1));
        i += 1;
    }
    assert(bytes@.take(bytes.len() as int) =~= bytes@);
    r
}

/// What passed a test is what was there and passes it.
pub proof fn lemma_filter_holds<A>(s: Seq<A>, p: spec_fn(A) -> bool, x: A)
    ensures
        s.filter(p).contains(x) <==> s.contains(x) && p(x),
{
    lemma_filter_members(s, p);
    let f = s.filter(p);
    if f.contains(x) {
        let i = choose|i: int| 0 <= i < f.len() && f[i] == x;
        assert(p(f[i]) && s.contains(f[i]));
    }
    if s.contains(x) && p(x) {
        let i = choose|i: int| 0 <= i < s.len() && s[i] == x;
        assert(f.contains(s[i]));
    }
}

/// What two lists hold together is what one of them holds.
pub proof fn lemma_joined_holds<A>(a: Seq<A>, b: Seq<A>, x: A)
    ensures
        (a + b).contains(x) <==> a.contains(x) || b.contains(x),
{
    let both = a + b;
    if both.contains(x) {
        let i = choose|i: int| 0 <= i < both.len() && both[i] == x;
        if i < a.len() {
            assert(a[i] == x);
        } else {
            assert(b[i - a.len()] == x);
        }
    }
    if a.contains(x) {
        let i = choose|i: int| 0 <= i < a.len() && a[i] == x;
        assert(both[i] == x);
    }
    if b.contains(x) {
        let i = choose|i: int| 0 <= i < b.len() && b[i] == x;
        assert(both[a.len() + i] == x);
    }
}

} // verus!
