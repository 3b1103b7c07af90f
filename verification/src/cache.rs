use vstd::prelude::*;
use crate::coin::{descending, Nullifier, OwnedCoin};
use crate::ordering::{same_coins, sort_by_value_descending};
use crate::seqs::{copy_bytes, lemma_filter_empty};
use crate::sync::SyncStatus;
use crate::wallet::{free_to_spend, WalletModel, WalletState};

verus! {

/// What the cache holds for a coin, as mathematics.
pub enum EntryModel {
    /// The proof is being computed; these tasks wait for it.
    Pending(Seq<u64>),
    /// The proven fragment that spends the coin.
    Ready(Seq<u8>),
}

/// What the cache holds for a coin.
#[derive(Debug)]
pub enum CacheEntry {
    /// The proof is being computed; these tasks wait for it.
    Pending(Vec<u64>),
    /// The proven fragment that spends the coin, and nothing else.
    Ready(Vec<u8>),
}

impl View for CacheEntry {
    type V = EntryModel;

    open spec fn view(&self) -> EntryModel {
        match self {
            CacheEntry::Pending(waiters) => EntryModel::Pending(waiters@),
            CacheEntry::Ready(fragment) => EntryModel::Ready(fragment@),
        }
    }
}

impl EntryModel {
    /// The tasks that wait on the entry.
    pub open spec fn waiters(self) -> Seq<u64> {
        match self {
            EntryModel::Pending(w) => w,
            EntryModel::Ready(_) => Seq::empty(),
        }
    }
}

/// The tasks that wait on what `m` holds under `n`.
pub open spec fn waiters_at(m: Map<Nullifier, EntryModel>, n: Nullifier) -> Seq<u64> {
    if m.contains_key(n) {
        m[n].waiters()
    } else {
        Seq::empty()
    }
}

/// A coin and what the cache holds for it.
#[derive(Debug)]
struct Slot {
    nullifier: Nullifier,
    entry: CacheEntry,
}

/// No two slots are for the same coin.
spec fn distinct_slots(slots: Seq<Slot>) -> bool {
    forall|i: int, j: int|
        0 <= i < j < slots.len() ==> (#[trigger] slots[i]).nullifier != (#[trigger] slots[j]).nullifier
}

/// The index of the slot for `n`.
spec fn slot_of(slots: Seq<Slot>, n: Nullifier) -> int {
    choose|i: int| 0 <= i < slots.len() && (#[trigger] slots[i]).nullifier == n
}

/// Whether there is a slot for `n`.
spec fn has_slot(slots: Seq<Slot>, n: Nullifier) -> bool {
    exists|i: int| 0 <= i < slots.len() && (#[trigger] slots[i]).nullifier == n
}

/// The slots as a map from coins to entries.
spec fn slots_map(slots: Seq<Slot>) -> Map<Nullifier, EntryModel> {
    Map::new(|n: Nullifier| has_slot(slots, n), |n: Nullifier| slots[slot_of(slots, n)].entry@)
}

/// Each slot is what the map holds for its coin.
proof fn lemma_slot_in_map(slots: Seq<Slot>, i: int)
    requires
        distinct_slots(slots),
        0 <= i < slots.len(),
    ensures
        slots_map(slots).contains_key(slots[i].nullifier),
        slots_map(slots)[slots[i].nullifier] == slots[i].entry@,
{
    let n = slots[i].nullifier;
    let j = slot_of(slots, n);
    if j < i {
        assert(slots[j].nullifier != slots[i].nullifier);
    } else if i < j {
        assert(slots[i].nullifier != slots[j].nullifier);
    }
}

/// The cache of spend proofs: for each coin at most one entry, which is
/// either pending, with the tasks that wait for it, or ready, with the
/// proven fragment that spends the coin.
#[derive(Debug)]
pub struct ProofCache {
    slots: Vec<Slot>,
}

impl View for ProofCache {
    type V = Map<Nullifier, EntryModel>;

    closed spec fn view(&self) -> Map<Nullifier, EntryModel> {
        slots_map(self.slots@)
    }
}

/// Whether the proof for `n` is ready in `m`.
pub open spec fn ready_in(m: Map<Nullifier, EntryModel>, n: Nullifier) -> bool {
    m.contains_key(n) && m[n] is Ready
}

/// The test that a coin passes where it can pay a fee now and the cache
/// `m` holds nothing for it, neither a ready proof nor a pending entry.
pub open spec fn worth_proving(pending: Seq<Nullifier>, m: Map<Nullifier, EntryModel>) -> spec_fn(
    OwnedCoin,
) -> bool {
    |c: OwnedCoin| free_to_spend(pending)(c) && !m.contains_key(c.nullifier)
}

impl ProofCache {
    /// No coin has two entries.
    pub closed spec fn wf(&self) -> bool {
        distinct_slots(self.slots@)
    }

    /// A cache without entries.
    pub fn new() -> (c: ProofCache)
        ensures
            c.wf(),
            c@ == Map::<Nullifier, EntryModel>::empty(),
    {
        let c = ProofCache { slots: Vec::new() };
        assert(c@ =~= Map::<Nullifier, EntryModel>::empty());
        c
    }

    /// The index of the slot for `n`, if there is one.
    fn find(&self, n: Nullifier) -> (r: Option<usize>)
        requires
            self.wf(),
        ensures
            r is Some <==> self@.contains_key(n),
            r matches Some(i) ==> i < self.slots.len() && self.slots[i as int].nullifier == n
                && self.slots[i as int].entry@ == self@[n],
    {
        let mut i: usize = 0;
        while i < self.slots.len()
            invariant
                i <= self.slots.len(),
                self.wf(),
                forall|k: int| 0 <= k < i ==> (#[trigger] self.slots[k]).nullifier != n,
            decreases self.slots.len() - i,
        {
            if self.slots[i].nullifier == n {
                proof {
                    lemma_slot_in_map(self.slots@, i as int);
                }
                return Some(i);
            }
            i += 1;
        }
        None
    }

    /// Whether the cache holds anything for `n`.
    pub fn contains(&self, n: Nullifier) -> (r: bool)
        requires
            self.wf(),
        ensures
            r == self@.contains_key(n),
    {
        self.find(n).is_some()
    }

    /// Whether the proof for `n` is ready.
    pub fn is_ready(&self, n: Nullifier) -> (r: bool)
        requires
            self.wf(),
        ensures
            r == ready_in(self@, n),
    {
        match self.find(n) {
            Some(i) => match &self.slots[i].entry {
                CacheEntry::Ready(_) => true,
                CacheEntry::Pending(_) => false,
            },
            None => false,
        }
    }

    /// Puts `entry` in the place of whatever the cache holds for `n`.
    fn put(&mut self, n: Nullifier, entry: CacheEntry) -> (previous: Option<CacheEntry>)
        requires
            old(self).wf(),
        ensures
            final(self).wf(),
            final(self)@ == old(self)@.insert(n, entry@),
            previous is Some <==> old(self)@.contains_key(n),
            previous matches Some(e) ==> e@ == old(self)@[n],
    {
        let found = self.find(n);
        let ghost before = self.slots@;
        let previous = match found {
            Some(i) => {
                let slot = self.slots.remove(i);
                Some(slot.entry)
            },
            None => None,
        };
        let ghost middle = self.slots@;
        self.slots.push(Slot { nullifier: n, entry });
        proof {
            let after = self.slots@;
            assert forall|k: int| 0 <= k < middle.len() implies (#[trigger] middle[k]).nullifier
                != n && exists|j: int| 0 <= j < before.len() && before[j] == middle[k] by {
                match found {
                    Some(i) => {
                        if k < i {
                            assert(before[k] == middle[k]);
                            assert(before[k].nullifier != before[i as int].nullifier);
                        } else {
                            assert(before[k + 1] == middle[k]);
                            assert(before[i as int].nullifier != before[k + 1].nullifier);
                        }
                    },
                    None => {
                        assert(before[k] == middle[k]);
                        if middle[k].nullifier == n {
                            assert(has_slot(before, n));
                        }
                    },
                }
            }
            assert(distinct_slots(middle)) by {
                assert forall|a: int, b: int| 0 <= a < b < middle.len() implies (
                #[trigger] middle[a]).nullifier != (#[trigger] middle[b]).nullifier by {
                    match found {
                        Some(i) => {
                            let a0 = if a < i { a } else { a + 1 };
                            let b0 = if b < i { b } else { b + 1 };
                            assert(before[a0].nullifier != before[b0].nullifier);
                        },
                        None => {
                            assert(before[a].nullifier != before[b].nullifier);
                        },
                    }
                }
            }
            assert(distinct_slots(after)) by {
                assert forall|a: int, b: int| 0 <= a < b < after.len() implies (
                #[trigger] after[a]).nullifier != (#[trigger] after[b]).nullifier by {
                    if b < middle.len() {
                        assert(middle[a].nullifier != middle[b].nullifier);
                    } else {
                        assert(middle[a].nullifier != n);
                    }
                }
            }
            assert(slots_map(after) =~= slots_map(before).insert(n, entry@)) by {
                assert forall|k: Nullifier| #[trigger]
                    slots_map(after).contains_key(k) <==> (k == n || slots_map(
                        before,
                    ).contains_key(k)) by {
                    if has_slot(after, k) {
                        let a = slot_of(after, k);
                        if a < middle.len() {
                            let j = choose|j: int| 0 <= j < before.len() && before[j] == middle[a];
                            assert(before[j].nullifier == k);
                        }
                    }
                    if k == n {
                        assert(after[middle.len() as int].nullifier == n);
                    } else if has_slot(before, k) {
                        let j = slot_of(before, k);
                        match found {
                            Some(i) => {
                                if j < i {
                                    assert(after[j].nullifier == k);
                                } else {
                                    assert(after[j - 1].nullifier == k);
                                }
                            },
                            None => {
                                assert(after[j].nullifier == k);
                            },
                        }
                    }
                }
                assert forall|k: Nullifier| slots_map(after).contains_key(k) implies #[trigger] slots_map(
                    after,
                )[k] == slots_map(before).insert(n, entry@)[k] by {
                    let a = slot_of(after, k);
                    lemma_slot_in_map(after, a);
                    if a < middle.len() {
                        let j = choose|j: int| 0 <= j < before.len() && before[j] == middle[a];
                        lemma_slot_in_map(before, j);
                    }
                }
            }
        }
        previous
    }

    /// Asks for the proof that spends the coin `n`, on behalf of the task
    /// `waiter`. Where the proof is ready, the result is the fragment, and
    /// the cache stays as it is. Otherwise the result is `None`: the task
    /// has to wait, and is registered with the pending entry of the coin,
    /// which is made where the cache held nothing for it. A task that is
    /// woken asks again: the entry it waited on may be gone.
    pub fn lookup(&mut self, n: Nullifier, waiter: u64) -> (r: Option<Vec<u8>>)
        requires
            old(self).wf(),
        ensures
            final(self).wf(),
            r is Some <==> old(self)@.contains_key(n) && old(self)@[n] is Ready,
            r matches Some(fragment) ==> EntryModel::Ready(fragment@) == old(self)@[n] && final(self)@ == old(self)@,
            r is None ==> final(self)@ == old(self)@.insert(
                n,
                EntryModel::Pending(waiters_at(old(self)@, n).push(waiter)),
            ),
    {
        match self.find(n) {
            Some(i) => {
                match &self.slots[i].entry {
                    CacheEntry::Ready(fragment) => {
                        return Some(copy_bytes(fragment));
                    },
                    CacheEntry::Pending(_) => {},
                }
                let slot = self.slots.remove(i);
                let ghost before = old(self).slots@;
                let ghost middle = self.slots@;
                let mut waiters: Vec<u64> = match slot.entry {
                    CacheEntry::Pending(w) => w,
                    CacheEntry::Ready(_) => Vec::new(),
                };
                waiters.push(waiter);
                self.slots.insert(i, Slot { nullifier: n, entry: CacheEntry::Pending(waiters) });
                proof {
                    let after = self.slots@;
                    assert(after =~= before.update(
                        i as int,
                        Slot { nullifier: n, entry: CacheEntry::Pending(waiters) },
                    ));
                    assert forall|a: int, b: int| 0 <= a < b < after.len() implies (
                    #[trigger] after[a]).nullifier != (#[trigger] after[b]).nullifier by {
                        assert(before[a].nullifier != before[b].nullifier);
                    }
                    assert(slots_map(after) =~= slots_map(before).insert(
                        n,
                        EntryModel::Pending(waiters@),
                    )) by {
                        assert forall|k: Nullifier| #[trigger]
                            slots_map(after).contains_key(k) <==> (k == n || slots_map(
                                before,
                            ).contains_key(k)) by {
                            if has_slot(after, k) {
                                let a = slot_of(after, k);
                                assert(before[a].nullifier == k);
                            }
                            if has_slot(before, k) {
                                let a = slot_of(before, k);
                                assert(after[a].nullifier == k);
                            }
                            if k == n {
                                assert(after[i as int].nullifier == n);
                            }
                        }
                        assert forall|k: Nullifier| slots_map(after).contains_key(k) implies #[trigger] slots_map(
                            after,
                        )[k] == slots_map(before).insert(n, EntryModel::Pending(waiters@))[k] by {
                            let a = slot_of(after, k);
                            lemma_slot_in_map(after, a);
                            lemma_slot_in_map(before, a);
                        }
                    }
                }
                None
            },
            None => {
                let mut waiters: Vec<u64> = Vec::new();
                waiters.push(waiter);
                assert(waiters@ =~= Seq::<u64>::empty().push(waiter));
                self.put(n, CacheEntry::Pending(waiters));
                None
            },
        }
    }

    /// Stores the proven fragment that spends the coin `n`. The result holds
    /// the tasks that waited for it: all of them have to be woken.
    pub fn complete(&mut self, n: Nullifier, fragment: Vec<u8>) -> (wake: Vec<u64>)
        requires
            old(self).wf(),
        ensures
            final(self).wf(),
            final(self)@ == old(self)@.insert(n, EntryModel::Ready(fragment@)),
            wake@ == waiters_at(old(self)@, n),
    {
        match self.put(n, CacheEntry::Ready(fragment)) {
            Some(CacheEntry::Pending(waiters)) => waiters,
            _ => Vec::new(),
        }
    }

    /// Makes a pending entry for the coin `n`, where the cache holds
    /// nothing for it; and says whether it did.
    pub fn mark_pending(&mut self, n: Nullifier) -> (made: bool)
        requires
            old(self).wf(),
        ensures
            final(self).wf(),
            made == !old(self)@.contains_key(n),
            made ==> final(self)@ == old(self)@.insert(n, EntryModel::Pending(Seq::empty())),
            !made ==> final(self)@ == old(self)@,
    {
        if self.contains(n) {
            false
        } else {
            self.put(n, CacheEntry::Pending(Vec::new()));
            true
        }
    }

    /// The coins for which a proof has to be computed: those that can pay
    /// a fee now and for which the cache holds nothing, the largest first.
    /// A coin with an entry is left out, whether its proof is ready or
    /// pending.
    pub fn candidates(&self, wallet: &WalletState) -> (r: Vec<OwnedCoin>)
        requires
            self.wf(),
        ensures
            descending(r@),
            same_coins(wallet@.coins.filter(worth_proving(wallet@.pending, self@)), r@),
    {
        let spendable = wallet.spendable_coins();
        let ghost first = free_to_spend(wallet@.pending);
        let ghost both = worth_proving(wallet@.pending, self@);
        let ghost second = |c: OwnedCoin| !self@.contains_key(c.nullifier);
        let mut kept: Vec<OwnedCoin> = Vec::new();
        let mut i: usize = 0;
        proof {
            assert(spendable@.take(0) =~= Seq::empty());
            lemma_filter_empty(second);
        }
        while i < spendable.len()
            invariant
                i <= spendable.len(),
                self.wf(),
                second == |c: OwnedCoin| !self@.contains_key(c.nullifier),
                kept@ == spendable@.take(i as int).filter(second),
            decreases spendable.len() - i,
        {
            let c = spendable[i];
            proof {
                assert(spendable@.take(i + 1) =~= spendable@.take(i as int).push(c));
                spendable@.take(i as int).lemma_filter_push(c, second);
            }
            if !self.contains(c.nullifier) {
                kept.push(c);
            }
            i += 1;
        }
        proof {
            assert(spendable@.take(spendable.len() as int) =~= spendable@);
            crate::seqs::lemma_filter_twice(wallet@.coins, first, second, both);
        }
        sort_by_value_descending(&kept)
    }
}

/// What is left of the cache `m` once the entries of coins that the wallet
/// `w` no longer holds are gone.
pub open spec fn kept_entries(m: Map<Nullifier, EntryModel>, w: WalletModel) -> Map<
    Nullifier,
    EntryModel,
> {
    Map::new(|n: Nullifier| m.contains_key(n) && w.has_coin(n), |n: Nullifier| m[n])
}

/// Whether the task `id` waits on an entry of `m` for a coin that the
/// wallet `w` no longer holds.
pub open spec fn waits_on_evicted(m: Map<Nullifier, EntryModel>, w: WalletModel, id: u64) -> bool {
    exists|n: Nullifier|
        #![trigger m[n]]
        m.contains_key(n) && !w.has_coin(n) && m[n].waiters().contains(id)
}

/// The cache `m` with a pending entry for the coin `n`, where it held
/// nothing for it.
pub open spec fn marked(m: Map<Nullifier, EntryModel>, n: Nullifier) -> Map<Nullifier, EntryModel> {
    if m.contains_key(n) {
        m
    } else {
        m.insert(n, EntryModel::Pending(Seq::empty()))
    }
}

/// The cache `m` with a pending entry for each coin of `coins` for which it
/// held nothing.
pub open spec fn marked_all(m: Map<Nullifier, EntryModel>, coins: Seq<OwnedCoin>) -> Map<
    Nullifier,
    EntryModel,
>
    decreases coins.len(),
{
    if coins.len() == 0 {
        m
    } else {
        marked(marked_all(m, coins.drop_last()), coins.last().nullifier)
    }
}

/// What one pass of the refresh loop starts with.
#[derive(Debug)]
pub struct RefreshPlan {
    /// The coins for which a proof has to be computed, the largest first.
    pub to_prove: Vec<OwnedCoin>,
    /// The tasks that waited on an entry that is gone: all of them have to
    /// be woken, so that they ask again.
    pub wake: Vec<u64>,
}

/// What the lookup service found for a request.
#[derive(Debug)]
pub enum Collected {
    /// The fragments for the coins asked for, in their order.
    Ready(Vec<Vec<u8>>),
    /// The proof for this coin is not ready: the task waits on its entry
    /// and asks again when it is woken.
    WaitFor(Nullifier),
}

/// Whether `s` is one of the slots of `all` from `from` on.
spec fn came_from(all: Seq<Slot>, from: int, s: Slot) -> bool {
    exists|j: int| from <= j < all.len() && #[trigger] all[j] == s
}

/// Whether `kept` holds the slot `s`.
spec fn is_kept(kept: Seq<Slot>, s: Slot) -> bool {
    exists|k: int| 0 <= k < kept.len() && #[trigger] kept[k] == s
}

/// Whether the task `id` waits on a slot of `all`, from `from` on, for a
/// coin that the wallet `w` no longer holds.
spec fn waits_on_dropped(all: Seq<Slot>, from: int, w: WalletModel, id: u64) -> bool {
    exists|j: int|
        from <= j < all.len() && !w.has_coin((#[trigger] all[j]).nullifier)
            && all[j].entry@.waiters().contains(id)
}

impl ProofCache {
    /// Drops the entries of coins that the wallet no longer holds: they
    /// were spent, or the ledger took them back. The result holds the tasks
    /// that waited on a dropped entry: all of them have to be woken, so
    /// that they ask again and none waits on an entry that is gone.
    pub fn evict_missing(&mut self, wallet: &WalletState) -> (wake: Vec<u64>)
        requires
            old(self).wf(),
        ensures
            final(self).wf(),
            final(self)@ == kept_entries(old(self)@, wallet@),
            forall|id: u64| wake@.contains(id) <==> waits_on_evicted(old(self)@, wallet@, id),
    {
        let ghost all = self.slots@;
        let ghost w = wallet@;
        let mut rest: Vec<Slot> = Vec::new();
        core::mem::swap(&mut self.slots, &mut rest);
        let mut kept: Vec<Slot> = Vec::new();
        let mut wake: Vec<u64> = Vec::new();
        while rest.len() > 0
            invariant
                w == wallet@,
                distinct_slots(all),
                rest.len() <= all.len(),
                rest@ == all.take(rest.len() as int),
                distinct_slots(kept@),
                forall|k: int|
                    0 <= k < kept.len() ==> w.has_coin((#[trigger] kept[k]).nullifier) && came_from(
                        all,
                        rest.len() as int,
                        kept[k],
                    ),
                forall|j: int|
                    rest.len() <= j < all.len() && w.has_coin((#[trigger] all[j]).nullifier)
                        ==> is_kept(kept@, all[j]),
                forall|id: u64|
                    wake@.contains(id) <==> waits_on_dropped(all, rest.len() as int, w, id),
            decreases rest.len(),
        {
            let ghost at = rest.len() - 1;
            let ghost kept_before = kept@;
            let ghost wake_before = wake@;
            let slot = rest.pop().unwrap();
            assert(slot == all[at]);
            if wallet.has_coin(slot.nullifier) {
                kept.push(slot);
                proof {
                    assert forall|a: int, b: int| 0 <= a < b < kept.len() implies (
                    #[trigger] kept[a]).nullifier != (#[trigger] kept[b]).nullifier by {
                        if b < kept_before.len() {
                            assert(kept_before[a].nullifier != kept_before[b].nullifier);
                        } else {
                            assert(came_from(all, at + 1, kept_before[a]));
                            let j = choose|j: int|
                                at + 1 <= j < all.len() && #[trigger] all[j] == kept_before[a];
                            assert(all[at].nullifier != all[j].nullifier);
                        }
                    }
                    assert forall|k: int| 0 <= k < kept.len() implies w.has_coin(
                        (#[trigger] kept[k]).nullifier,
                    ) && came_from(all, at, kept[k]) by {
                        if k < kept_before.len() {
                            assert(came_from(all, at + 1, kept_before[k]));
                            let j = choose|j: int|
                                at + 1 <= j < all.len() && #[trigger] all[j] == kept_before[k];
                            assert(all[j] == kept[k]);
                        } else {
                            assert(all[at] == kept[k]);
                        }
                    }
                    assert forall|j: int|
                        at <= j < all.len() && w.has_coin(
                            (#[trigger] all[j]).nullifier,
                        ) implies is_kept(kept@, all[j]) by {
                        if j == at {
                            assert(kept[kept_before.len() as int] == all[j]);
                        } else {
                            assert(is_kept(kept_before, all[j]));
                            let k = choose|k: int|
                                0 <= k < kept_before.len() && #[trigger] kept_before[k] == all[j];
                            assert(kept[k] == all[j]);
                        }
                    }
                    assert forall|id: u64|
                        wake@.contains(id) <==> waits_on_dropped(all, at, w, id) by {
                        if waits_on_dropped(all, at, w, id) {
                            let j = choose|j: int|
                                at <= j < all.len() && !w.has_coin((#[trigger] all[j]).nullifier)
                                    && all[j].entry@.waiters().contains(id);
                            assert(waits_on_dropped(all, at + 1, w, id));
                        }
                        if waits_on_dropped(all, at + 1, w, id) {
                            let j = choose|j: int|
                                at + 1 <= j < all.len() && !w.has_coin(
                                    (#[trigger] all[j]).nullifier,
                                ) && all[j].entry@.waiters().contains(id);
                            assert(waits_on_dropped(all, at, w, id));
                        }
                    }
                }
            } else {
                let ghost gone = slot.entry@.waiters();
                match slot.entry {
                    CacheEntry::Pending(mut waiters) => {
                        wake.append(&mut waiters);
                    },
                    CacheEntry::Ready(_) => {
                        assert(wake@ =~= wake_before + gone);
                    },
                }
                proof {
                    assert(wake@ == wake_before + gone);
                    assert forall|k: int| 0 <= k < kept.len() implies w.has_coin(
                        (#[trigger] kept[k]).nullifier,
                    ) && came_from(all, at, kept[k]) by {
                        assert(came_from(all, at + 1, kept[k]));
                        let j = choose|j: int|
                            at + 1 <= j < all.len() && #[trigger] all[j] == kept[k];
                        assert(all[j] == kept[k]);
                    }
                    assert forall|id: u64|
                        wake@.contains(id) <==> waits_on_dropped(all, at, w, id) by {
                        if wake@.contains(id) {
                            let i = choose|i: int| 0 <= i < wake@.len() && wake@[i] == id;
                            if i < wake_before.len() {
                                assert(wake_before[i] == id);
                                assert(wake_before.contains(id));
                                assert(waits_on_dropped(all, at + 1, w, id));
                                let j = choose|j: int|
                                    at + 1 <= j < all.len() && !w.has_coin(
                                        (#[trigger] all[j]).nullifier,
                                    ) && all[j].entry@.waiters().contains(id);
                                assert(waits_on_dropped(all, at, w, id));
                            } else {
                                assert(gone[i - wake_before.len()] == id);
                                assert(gone.contains(id));
                                assert(all[at].entry@.waiters().contains(id));
                                assert(waits_on_dropped(all, at, w, id));
                            }
                        }
                        if waits_on_dropped(all, at, w, id) {
                            let j = choose|j: int|
                                at <= j < all.len() && !w.has_coin((#[trigger] all[j]).nullifier)
                                    && all[j].entry@.waiters().contains(id);
                            if j == at {
                                let i = choose|i: int| 0 <= i < gone.len() && gone[i] == id;
                                assert(wake@[wake_before.len() + i] == id);
                            } else {
                                assert(waits_on_dropped(all, at + 1, w, id));
                                assert(wake_before.contains(id));
                                let i = choose|i: int|
                                    0 <= i < wake_before.len() && wake_before[i] == id;
                                assert(wake@[i] == id);
                            }
                        }
                    }
                }
            }
        }
        self.slots = kept;
        proof {
            let after = self.slots@;
            let m = slots_map(all);
            assert(slots_map(after) =~= kept_entries(m, w)) by {
                assert forall|n: Nullifier| #[trigger]
                    slots_map(after).contains_key(n) <==> (m.contains_key(n) && w.has_coin(
                        n,
                    )) by {
                    if has_slot(after, n) {
                        let k = slot_of(after, n);
                        assert(came_from(all, 0, after[k]));
                        let j = choose|j: int| 0 <= j < all.len() && #[trigger] all[j] == after[k];
                        assert(all[j].nullifier == n);
                    }
                    if has_slot(all, n) && w.has_coin(n) {
                        let j = slot_of(all, n);
                        assert(is_kept(after, all[j]));
                        let k = choose|k: int| 0 <= k < after.len() && #[trigger] after[k] == all[j];
                        assert(after[k].nullifier == n);
                    }
                }
                assert forall|n: Nullifier| slots_map(after).contains_key(n) implies #[trigger] slots_map(
                    after,
                )[n] == kept_entries(m, w)[n] by {
                    let k = slot_of(after, n);
                    lemma_slot_in_map(after, k);
                    assert(came_from(all, 0, after[k]));
                    let j = choose|j: int| 0 <= j < all.len() && #[trigger] all[j] == after[k];
                    lemma_slot_in_map(all, j);
                }
            }
            assert forall|id: u64| wake@.contains(id) <==> waits_on_evicted(m, w, id) by {
                if waits_on_dropped(all, 0, w, id) {
                    let j = choose|j: int|
                        0 <= j < all.len() && !w.has_coin((#[trigger] all[j]).nullifier)
                            && all[j].entry@.waiters().contains(id);
                    lemma_slot_in_map(all, j);
                    assert(m[all[j].nullifier].waiters().contains(id));
                }
                if waits_on_evicted(m, w, id) {
                    let n = choose|n: Nullifier|
                        #![trigger m[n]]
                        m.contains_key(n) && !w.has_coin(n) && m[n].waiters().contains(id);
                    let j = slot_of(all, n);
                    lemma_slot_in_map(all, j);
                    assert(waits_on_dropped(all, 0, w, id));
                }
            }
        }
        wake
    }

    /// Starts a pass of the refresh loop over a snapshot of the wallet:
    /// drops the entries of coins that are gone, finds the coins for which
    /// a proof has to be computed, and makes a pending entry for each of
    /// them.
    pub fn begin_refresh(&mut self, wallet: &WalletState) -> (plan: RefreshPlan)
        requires
            old(self).wf(),
        ensures
            final(self).wf(),
            descending(plan.to_prove@),
            same_coins(
                wallet@.coins.filter(
                    worth_proving(wallet@.pending, kept_entries(old(self)@, wallet@)),
                ),
                plan.to_prove@,
            ),
            final(self)@ == marked_all(kept_entries(old(self)@, wallet@), plan.to_prove@),
            forall|id: u64| plan.wake@.contains(id) <==> waits_on_evicted(old(self)@, wallet@, id),
    {
        let wake = self.evict_missing(wallet);
        let to_prove = self.candidates(wallet);
        let ghost kept = self@;
        let mut i: usize = 0;
        assert(to_prove@.take(0) =~= Seq::empty());
        while i < to_prove.len()
            invariant
                i <= to_prove.len(),
                self.wf(),
                self@ == marked_all(kept, to_prove@.take(i as int)),
            decreases to_prove.len() - i,
        {
            assert(to_prove@.take(i + 1).drop_last() =~= to_prove@.take(i as int));
            self.mark_pending(to_prove[i].nullifier);
            i += 1;
        }
        assert(to_prove@.take(to_prove.len() as int) =~= to_prove@);
        RefreshPlan { to_prove, wake }
    }

    /// Serves a request for the proofs of the coins `wanted`, on behalf of
    /// the task `waiter`. Where all of them are ready, the result holds the
    /// fragments in the order of `wanted`, and the cache stays as it is.
    /// Otherwise the result names the first coin whose proof is not ready:
    /// the task is registered with its pending entry, which is made where
    /// there was none, and asks again once it is woken.
    pub fn collect(&mut self, wanted: &Vec<Nullifier>, waiter: u64) -> (r: Collected)
        requires
            old(self).wf(),
        ensures
            final(self).wf(),
            match r {
                Collected::Ready(fragments) => {
                    &&& final(self)@ == old(self)@
                    &&& fragments.len() == wanted.len()
                    &&& forall|i: int|
                        0 <= i < wanted.len() ==> ready_in(old(self)@, #[trigger] wanted[i])
                            && old(self)@[wanted[i]] == EntryModel::Ready(fragments[i]@)
                },
                Collected::WaitFor(n) => {
                    &&& !ready_in(old(self)@, n)
                    &&& exists|i: int|
                        0 <= i < wanted.len() && #[trigger] wanted[i] == n && forall|j: int|
                            0 <= j < i ==> ready_in(old(self)@, #[trigger] wanted[j])
                    &&& final(self)@ == old(self)@.insert(
                        n,
                        EntryModel::Pending(waiters_at(old(self)@, n).push(waiter)),
                    )
                },
            },
    {
        let mut fragments: Vec<Vec<u8>> = Vec::new();
        let mut i: usize = 0;
        while i < wanted.len()
            invariant
                i <= wanted.len(),
                self.wf(),
                self@ == old(self)@,
                fragments.len() == i,
                forall|k: int|
                    0 <= k < i ==> ready_in(old(self)@, #[trigger] wanted[k]) && old(self)@[wanted[k]] == EntryModel::Ready(fragments[k]@),
            decreases wanted.len() - i,
        {
            match self.lookup(wanted[i], waiter) {
                Some(fragment) => {
                    fragments.push(fragment);
                },
                None => {
                    assert(wanted[i as int] == wanted[i as int]);
                    return Collected::WaitFor(wanted[i]);
                },
            }
            i += 1;
        }
        Collected::Ready(fragments)
    }
}

/// Starts a pass of the refresh loop, once the wallet is up to date. While
/// the wallet is still syncing no pass starts and the cache stays as it is:
/// the task `waiter` is registered to be woken when the wallet is up to
/// date, and the result is `None`.
pub fn try_begin_refresh(
    cache: &mut ProofCache,
    status: &mut SyncStatus,
    wallet: &WalletState,
    waiter: u64,
) -> (r: Option<RefreshPlan>)
    requires
        old(cache).wf(),
    ensures
        final(cache).wf(),
        r is None <==> old(status).is_syncing(),
        final(status).is_syncing() == old(status).is_syncing(),
        forall|s: u64, t: u64| old(status).is_at(s, t) == final(status).is_at(s, t),
        r is None ==> final(cache)@ == old(cache)@ && final(status).waiting() == old(status).waiting().push(waiter),
        r matches Some(plan) ==> {
            &&& final(status).waiting() == old(status).waiting()
            &&& descending(plan.to_prove@)
            &&& same_coins(
                wallet@.coins.filter(
                    worth_proving(wallet@.pending, kept_entries(old(cache)@, wallet@)),
                ),
                plan.to_prove@,
            )
            &&& final(cache)@ == marked_all(kept_entries(old(cache)@, wallet@), plan.to_prove@)
            &&& forall|id: u64|
                plan.wake@.contains(id) <==> waits_on_evicted(old(cache)@, wallet@, id)
        },
{
    if status.wait_for_sync(waiter) {
        None
    } else {
        Some(cache.begin_refresh(wallet))
    }
}

} // verus!
