use vstd::prelude::*;
use crate::coin::{nullifiers_of, Nullifier, OwnedCoin};
use crate::seqs::{
    lemma_filter_again, lemma_filter_all, lemma_filter_empty, lemma_filter_holds,
    lemma_filter_members, lemma_filter_none, lemma_filter_swap, lemma_filter_twice,
    lemma_joined_holds, not_in, other_than,
};
use crate::wallet::WalletModel;

verus! {

/// A coin that one request has reserved is never chosen for another: what
/// is selected after a reservation shares no coin with it.
pub proof fn law_reservations_are_disjoint(
    w: WalletModel,
    first: Seq<OwnedCoin>,
    first_fee: nat,
    second: Seq<OwnedCoin>,
    second_fee: nat,
)
    requires
        w.wf(),
        w.is_fee_selection(first, first_fee),
        w.reserve(nullifiers_of(first)).is_fee_selection(second, second_fee),
    ensures
        forall|i: int, j: int|
            0 <= i < first.len() && 0 <= j < second.len() ==> (#[trigger] first[i]).nullifier != (
            #[trigger] second[j]).nullifier,
{
    let reserved = w.reserve(nullifiers_of(first));
    assert forall|i: int, j: int| 0 <= i < first.len() && 0 <= j < second.len() implies (
    #[trigger] first[i]).nullifier != (#[trigger] second[j]).nullifier by {
        assert(reserved.spendable(second[j]));
        let at = w.pending.len() + i;
        assert(reserved.pending[at] == first[i].nullifier);
        assert(reserved.pending.contains(first[i].nullifier));
    }
}

/// A reservation never takes a coin that is reserved already, and after it
/// every chosen coin is reserved.
pub proof fn law_reservation_marks_coins(w: WalletModel, picked: Seq<OwnedCoin>, fee: nat)
    requires
        w.is_fee_selection(picked, fee),
    ensures
        forall|k: int|
            0 <= k < picked.len() ==> !w.is_pending((#[trigger] picked[k]).nullifier)
                && w.reserve(nullifiers_of(picked)).is_pending(picked[k].nullifier),
        forall|c: OwnedCoin|
            #![trigger w.reserve(nullifiers_of(picked)).spendable(c)]
            picked.contains(c) ==> !w.reserve(nullifiers_of(picked)).spendable(c),
{
    let reserved = w.reserve(nullifiers_of(picked));
    assert forall|k: int| 0 <= k < picked.len() implies !w.is_pending(
        (#[trigger] picked[k]).nullifier,
    ) && reserved.is_pending(picked[k].nullifier) by {
        assert(w.spendable(picked[k]));
        assert(reserved.pending[w.pending.len() + k] == picked[k].nullifier);
    }
    assert forall|c: OwnedCoin| picked.contains(c) implies !reserved.spendable(c) by {
        let k = choose|k: int| 0 <= k < picked.len() && picked[k] == c;
        assert(reserved.is_pending(picked[k].nullifier));
    }
}

/// After coins are handed back, none of them is reserved, whatever else
/// the wallet has reserved.
pub proof fn law_released_coins_are_free(w: WalletModel, ids: Seq<Nullifier>)
    ensures
        forall|k: int| 0 <= k < ids.len() ==> !w.release(ids).is_pending(#[trigger] ids[k]),
        forall|n: Nullifier|
            !ids.contains(n) ==> (w.release(ids).is_pending(n) <==> w.is_pending(n)),
        w.release(ids).coins == w.coins,
{
    let after = w.release(ids).pending;
    lemma_filter_members(w.pending, not_in(ids));
    assert forall|k: int| 0 <= k < ids.len() implies !after.contains(#[trigger] ids[k]) by {
        if after.contains(ids[k]) {
            let i = choose|i: int| 0 <= i < after.len() && after[i] == ids[k];
            assert(not_in(ids)(after[i]));
            assert(ids.contains(ids[k]));
        }
    }
    assert forall|n: Nullifier| !ids.contains(n) implies (after.contains(n) <==> w.pending.contains(
        n,
    )) by {
        if after.contains(n) {
            let i = choose|i: int| 0 <= i < after.len() && after[i] == n;
            assert(w.pending.contains(after[i]));
        }
        if w.pending.contains(n) {
            let i = choose|i: int| 0 <= i < w.pending.len() && w.pending[i] == n;
            assert(not_in(ids)(w.pending[i]));
            assert(after.contains(w.pending[i]));
        }
    }
}

/// A request that fails leaves nothing behind: reserving coins for a fee
/// and handing them back gives the wallet as it was, and each of the coins
/// can be chosen again.
pub proof fn law_release_undoes_reservation(w: WalletModel, picked: Seq<OwnedCoin>, fee: nat)
    requires
        w.is_fee_selection(picked, fee),
    ensures
        w.reserve(nullifiers_of(picked)).release(nullifiers_of(picked)) == w,
        forall|k: int|
            0 <= k < picked.len() ==> w.reserve(nullifiers_of(picked)).release(
                nullifiers_of(picked),
            ).spendable(#[trigger] picked[k]),
{
    let ids = nullifiers_of(picked);
    let p = not_in(ids);
    assert forall|i: int| 0 <= i < w.pending.len() implies p(#[trigger] w.pending[i]) by {
        if ids.contains(w.pending[i]) {
            let k = choose|k: int| 0 <= k < ids.len() && ids[k] == w.pending[i];
            assert(w.spendable(picked[k]));
            assert(w.pending.contains(w.pending[i]));
        }
    }
    assert forall|i: int| 0 <= i < ids.len() implies !p(#[trigger] ids[i]) by {
        assert(ids.contains(ids[i]));
    }
    lemma_filter_all(w.pending, p);
    lemma_filter_none(ids, p);
    Seq::filter_distributes_over_add(w.pending, ids, p);
    assert(w.pending + Seq::<Nullifier>::empty() =~= w.pending);
    assert(w.reserve(ids).release(ids).pending == w.pending);
}

/// The test that a coin passes where `received` holds no coin under its
/// nullifier.
pub open spec fn not_among(received: Seq<OwnedCoin>) -> spec_fn(OwnedCoin) -> bool {
    |c: OwnedCoin| !nullifiers_of(received).contains(c.nullifier)
}

/// The test that a coin passes where `spent` does not hold its nullifier.
pub open spec fn unspent(spent: Seq<Nullifier>) -> spec_fn(OwnedCoin) -> bool {
    |c: OwnedCoin| !spent.contains(c.nullifier)
}

/// What a wallet without coins holds after it received `received`.
pub open spec fn latest(received: Seq<OwnedCoin>) -> Seq<OwnedCoin>
    decreases received.len(),
{
    if received.len() == 0 {
        Seq::empty()
    } else {
        latest(received.drop_last()).filter(other_than(received.last().nullifier)).push(
            received.last(),
        )
    }
}

/// Every coin of `latest(received)` is known under a nullifier of
/// `received`.
proof fn lemma_latest_members(received: Seq<OwnedCoin>)
    ensures
        forall|i: int|
            0 <= i < latest(received).len() ==> nullifiers_of(received).contains(
                (#[trigger] latest(received)[i]).nullifier,
            ),
    decreases received.len(),
{
    if received.len() > 0 {
        let shorter = received.drop_last();
        let c = received.last();
        lemma_latest_members(shorter);
        let kept = latest(shorter).filter(other_than(c.nullifier));
        lemma_filter_members(latest(shorter), other_than(c.nullifier));
        assert forall|i: int| 0 <= i < latest(received).len() implies nullifiers_of(
            received,
        ).contains((#[trigger] latest(received)[i]).nullifier) by {
            if i < kept.len() {
                assert(latest(shorter).contains(kept[i]));
                let j = choose|j: int| 0 <= j < latest(shorter).len() && latest(shorter)[j]
                    == kept[i];
                let k = choose|k: int|
                    0 <= k < nullifiers_of(shorter).len() && nullifiers_of(shorter)[k] == latest(
                        shorter,
                    )[j].nullifier;
                assert(nullifiers_of(received)[k] == kept[i].nullifier);
            } else {
                assert(nullifiers_of(received)[received.len() - 1] == c.nullifier);
            }
        }
    }
}

/// Receiving coins drops the coins known under their nullifiers and adds
/// the latest coin under each.
proof fn lemma_receive_all(w: WalletModel, received: Seq<OwnedCoin>)
    ensures
        w.receive_all(received).coins == w.coins.filter(not_among(received)) + latest(received),
        w.receive_all(received).pending == w.pending,
        w.receive_all(received).coin_public_key == w.coin_public_key,
        w.receive_all(received).enc_public_key == w.enc_public_key,
    decreases received.len(),
{
    if received.len() == 0 {
        assert forall|i: int| 0 <= i < w.coins.len() implies not_among(received)(
            #[trigger] w.coins[i],
        ) by {}
        lemma_filter_all(w.coins, not_among(received));
        assert(w.coins + Seq::<OwnedCoin>::empty() =~= w.coins);
    } else {
        let shorter = received.drop_last();
        let c = received.last();
        let q = other_than(c.nullifier);
        lemma_receive_all(w, shorter);
        let old_part = w.coins.filter(not_among(shorter));
        Seq::filter_distributes_over_add(old_part, latest(shorter), q);
        assert forall|x: OwnedCoin| #[trigger]
            not_among(received)(x) == (not_among(shorter)(x) && q(x)) by {
            let a = nullifiers_of(shorter);
            let b = nullifiers_of(received);
            if b.contains(x.nullifier) {
                let k = choose|k: int| 0 <= k < b.len() && b[k] == x.nullifier;
                if k < a.len() {
                    assert(a[k] == x.nullifier);
                }
            }
            if a.contains(x.nullifier) {
                let k = choose|k: int| 0 <= k < a.len() && a[k] == x.nullifier;
                assert(b[k] == x.nullifier);
            }
            if x.nullifier == c.nullifier {
                assert(b[received.len() - 1] == x.nullifier);
            }
        }
        lemma_filter_twice(w.coins, not_among(shorter), q, not_among(received));
        assert(w.receive_all(received).coins =~= w.coins.filter(not_among(received)) + latest(
            received,
        ));
    }
}

/// Spending coins drops the coins known under the spent nullifiers, and
/// their reservations.
proof fn lemma_spend_all(w: WalletModel, spent: Seq<Nullifier>)
    ensures
        w.spend_all(spent).coins == w.coins.filter(unspent(spent)),
        w.spend_all(spent).pending == w.pending.filter(not_in(spent)),
        w.spend_all(spent).coin_public_key == w.coin_public_key,
        w.spend_all(spent).enc_public_key == w.enc_public_key,
    decreases spent.len(),
{
    if spent.len() == 0 {
        assert forall|i: int| 0 <= i < w.coins.len() implies unspent(spent)(#[trigger] w.coins[i]) by {}
        assert forall|i: int| 0 <= i < w.pending.len() implies not_in(spent)(
            #[trigger] w.pending[i],
        ) by {}
        lemma_filter_all(w.coins, unspent(spent));
        lemma_filter_all(w.pending, not_in(spent));
    } else {
        let shorter = spent.drop_last();
        let n = spent.last();
        lemma_spend_all(w, shorter);
        assert forall|x: OwnedCoin| #[trigger]
            unspent(spent)(x) == (unspent(shorter)(x) && other_than(n)(x)) by {
            if spent.contains(x.nullifier) {
                let k = choose|k: int| 0 <= k < spent.len() && spent[k] == x.nullifier;
                if k < shorter.len() {
                    assert(shorter[k] == x.nullifier);
                }
            }
            if shorter.contains(x.nullifier) {
                let k = choose|k: int| 0 <= k < shorter.len() && shorter[k] == x.nullifier;
                assert(spent[k] == x.nullifier);
            }
            if x.nullifier == n {
                assert(spent[spent.len() - 1] == n);
            }
        }
        lemma_filter_twice(w.coins, unspent(shorter), other_than(n), unspent(spent));
        assert forall|x: Nullifier| #[trigger]
            not_in(spent)(x) == (not_in(shorter)(x) && not_in(seq![n])(x)) by {
            if spent.contains(x) {
                let k = choose|k: int| 0 <= k < spent.len() && spent[k] == x;
                if k < shorter.len() {
                    assert(shorter[k] == x);
                } else {
                    assert(seq![n][0] == x);
                }
            }
            if shorter.contains(x) {
                let k = choose|k: int| 0 <= k < shorter.len() && shorter[k] == x;
                assert(spent[k] == x);
            }
            if seq![n].contains(x) {
                assert(spent[spent.len() - 1] == x);
            }
        }
        lemma_filter_twice(w.pending, not_in(shorter), not_in(seq![n]), not_in(spent));
    }
}

/// What a ledger delta leaves of a wallet, said at once: the coins that were
/// neither replaced nor spent, then the unspent among the coins received;
/// and the reservations of unspent coins.
pub proof fn law_apply_in_one_step(w: WalletModel, received: Seq<OwnedCoin>, spent: Seq<Nullifier>)
    ensures
        w.apply(received, spent).coins == w.coins.filter(not_among(received)).filter(
            unspent(spent),
        ) + latest(received).filter(unspent(spent)),
        w.apply(received, spent).pending == w.pending.filter(not_in(spent)),
        w.apply(received, spent).coin_public_key == w.coin_public_key,
        w.apply(received, spent).enc_public_key == w.enc_public_key,
{
    lemma_receive_all(w, received);
    lemma_spend_all(w.receive_all(received), spent);
    Seq::filter_distributes_over_add(
        w.coins.filter(not_among(received)),
        latest(received),
        unspent(spent),
    );
}

/// Replaying a transaction changes nothing: a wallet that has taken in a
/// ledger delta is the same after it takes in that delta once more.
pub proof fn law_replay_is_idempotent(
    w: WalletModel,
    received: Seq<OwnedCoin>,
    spent: Seq<Nullifier>,
)
    ensures
        w.apply(received, spent).apply(received, spent) == w.apply(received, spent),
{
    let once = w.apply(received, spent);
    let twice = once.apply(received, spent);
    let fresh = not_among(received);
    let alive = unspent(spent);
    law_apply_in_one_step(w, received, spent);
    law_apply_in_one_step(once, received, spent);
    let kept = w.coins.filter(fresh).filter(alive);
    let gained = latest(received).filter(alive);
    // The coins kept from before pass both tests again.
    lemma_filter_swap(w.coins.filter(fresh), alive, fresh);
    lemma_filter_swap(w.coins, fresh, alive);
    lemma_filter_again(w.coins.filter(alive), fresh);
    assert(kept.filter(fresh) == kept);
    lemma_filter_again(w.coins.filter(fresh), alive);
    assert(kept.filter(alive) == kept);
    // No coin received passes the test of not being among them.
    lemma_latest_members(received);
    lemma_filter_members(latest(received), alive);
    assert forall|i: int| 0 <= i < gained.len() implies !fresh(#[trigger] gained[i]) by {
        assert(latest(received).contains(gained[i]));
        let j = choose|j: int| 0 <= j < latest(received).len() && latest(received)[j] == gained[i];
        assert(nullifiers_of(received).contains(latest(received)[j].nullifier));
    }
    lemma_filter_none(gained, fresh);
    Seq::filter_distributes_over_add(kept, gained, fresh);
    assert(once.coins.filter(fresh) =~= kept);
    assert(twice.coins == kept + gained);
    lemma_filter_again(w.pending, not_in(spent));
    lemma_filter_empty(fresh);
}

/// Which coins a wallet holds after a ledger delta: those that it held and
/// that were neither replaced nor spent, and the unspent among the latest
/// coins received.
pub proof fn lemma_apply_holds(
    w: WalletModel,
    received: Seq<OwnedCoin>,
    spent: Seq<Nullifier>,
    c: OwnedCoin,
)
    ensures
        w.apply(received, spent).coins.contains(c) <==> !spent.contains(c.nullifier) && (latest(
            received,
        ).contains(c) || (w.coins.contains(c) && !nullifiers_of(received).contains(c.nullifier))),
        latest(received).contains(c) ==> nullifiers_of(received).contains(c.nullifier),
{
    let fresh = not_among(received);
    let alive = unspent(spent);
    law_apply_in_one_step(w, received, spent);
    let kept = w.coins.filter(fresh).filter(alive);
    let gained = latest(received).filter(alive);
    lemma_joined_holds(kept, gained, c);
    lemma_filter_holds(w.coins.filter(fresh), alive, c);
    lemma_filter_holds(w.coins, fresh, c);
    lemma_filter_holds(latest(received), alive, c);
    lemma_latest_members(received);
    if latest(received).contains(c) {
        let i = choose|i: int| 0 <= i < latest(received).len() && latest(received)[i] == c;
        assert(nullifiers_of(received).contains(latest(received)[i].nullifier));
    }
}

/// Replaying a record with two deltas changes nothing: a wallet that has
/// taken in the guaranteed delta of a transaction and then its fallible
/// delta holds the same coins, and has the same coins reserved, after it
/// takes in both once more.
pub proof fn law_replay_of_two_deltas(
    w: WalletModel,
    guaranteed_received: Seq<OwnedCoin>,
    guaranteed_spent: Seq<Nullifier>,
    fallible_received: Seq<OwnedCoin>,
    fallible_spent: Seq<Nullifier>,
)
    ensures
        w.apply(guaranteed_received, guaranteed_spent).apply(
            fallible_received,
            fallible_spent,
        ).apply(guaranteed_received, guaranteed_spent).apply(
            fallible_received,
            fallible_spent,
        ).coins.to_set() == w.apply(guaranteed_received, guaranteed_spent).apply(
            fallible_received,
            fallible_spent,
        ).coins.to_set(),
        w.apply(guaranteed_received, guaranteed_spent).apply(
            fallible_received,
            fallible_spent,
        ).apply(guaranteed_received, guaranteed_spent).apply(
            fallible_received,
            fallible_spent,
        ).pending == w.apply(guaranteed_received, guaranteed_spent).apply(
            fallible_received,
            fallible_spent,
        ).pending,
{
    let first = w.apply(guaranteed_received, guaranteed_spent);
    let once = first.apply(fallible_received, fallible_spent);
    let third = once.apply(guaranteed_received, guaranteed_spent);
    let twice = third.apply(fallible_received, fallible_spent);
    assert forall|c: OwnedCoin| twice.coins.to_set().contains(c) <==> once.coins.to_set().contains(
        c,
    ) by {
        lemma_apply_holds(w, guaranteed_received, guaranteed_spent, c);
        lemma_apply_holds(first, fallible_received, fallible_spent, c);
        lemma_apply_holds(once, guaranteed_received, guaranteed_spent, c);
        lemma_apply_holds(third, fallible_received, fallible_spent, c);
    }
    assert(twice.coins.to_set() =~= once.coins.to_set());
    let a = not_in(guaranteed_spent);
    let b = not_in(fallible_spent);
    law_apply_in_one_step(w, guaranteed_received, guaranteed_spent);
    law_apply_in_one_step(first, fallible_received, fallible_spent);
    law_apply_in_one_step(once, guaranteed_received, guaranteed_spent);
    law_apply_in_one_step(third, fallible_received, fallible_spent);
    lemma_filter_members(w.pending, a);
    lemma_filter_members(w.pending.filter(a), b);
    assert forall|i: int| 0 <= i < once.pending.len() implies a(#[trigger] once.pending[i]) by {
        assert(w.pending.filter(a).contains(once.pending[i]));
        let j = choose|j: int|
            0 <= j < w.pending.filter(a).len() && w.pending.filter(a)[j] == once.pending[i];
        assert(a(w.pending.filter(a)[j]));
    }
    lemma_filter_all(once.pending, a);
    lemma_filter_again(w.pending.filter(a), b);
}

/// What a balancing request does to the wallet, seen from the wallet: it
/// reserves the coins it chose, all at once, or, having failed, it hands
/// its coins back.
pub enum Event {
    /// A request chose `picked` for the fee `fee` and reserved them.
    Reserve { picked: Seq<OwnedCoin>, fee: nat },
    /// The request that holds the reservation at `held` failed.
    Fail { held: int },
}

/// The wallet together with the reservations of the requests that have not
/// failed, oldest first.
pub struct Reservations {
    pub wallet: WalletModel,
    pub held: Seq<Seq<Nullifier>>,
}

impl Reservations {
    /// No coin is held by two requests or twice by one, and every coin that
    /// a request holds is reserved in the wallet.
    pub open spec fn apart(self) -> bool {
        &&& forall|r: int, k: int|
            0 <= r < self.held.len() && 0 <= k < self.held[r].len() ==> self.wallet.is_pending(
                #[trigger] self.held[r][k],
            )
        &&& forall|r: int, k: int, s: int, l: int|
            0 <= r < self.held.len() && 0 <= k < self.held[r].len() && 0 <= s < self.held.len()
                && 0 <= l < self.held[s].len() && (r != s || k != l) ==> #[trigger] self.held[r][k]
                != #[trigger] self.held[s][l]
    }

    /// Whether the event can happen now: a request reserves what largest-
    /// first selection gives it in the wallet as it is; a request fails
    /// that holds a reservation.
    pub open spec fn admits(self, e: Event) -> bool {
        match e {
            Event::Reserve { picked, fee } => self.wallet.is_fee_selection(picked, fee),
            Event::Fail { held } => 0 <= held < self.held.len(),
        }
    }

    /// The wallet and the reservations after the event.
    pub open spec fn after(self, e: Event) -> Reservations {
        match e {
            Event::Reserve { picked, fee } => Reservations {
                wallet: self.wallet.reserve(nullifiers_of(picked)),
                held: self.held.push(nullifiers_of(picked)),
            },
            Event::Fail { held } => Reservations {
                wallet: self.wallet.release(self.held[held]),
                held: self.held.remove(held),
            },
        }
    }

    /// Whether the events can happen one after the other, in this order.
    pub open spec fn admits_all(self, events: Seq<Event>) -> bool
        decreases events.len(),
    {
        events.len() > 0 ==> self.admits_all(events.drop_last()) && self.after_all(
            events.drop_last(),
        ).admits(events.last())
    }

    /// The wallet and the reservations after the events, in this order.
    pub open spec fn after_all(self, events: Seq<Event>) -> Reservations
        decreases events.len(),
    {
        if events.len() == 0 {
            self
        } else {
            self.after_all(events.drop_last()).after(events.last())
        }
    }
}

/// A reservation keeps the requests apart: the coins it takes are held by
/// no other request.
pub proof fn law_reserving_keeps_requests_apart(
    state: Reservations,
    picked: Seq<OwnedCoin>,
    fee: nat,
)
    requires
        state.apart(),
        state.wallet.is_fee_selection(picked, fee),
    ensures
        state.after(Event::Reserve { picked, fee }).apart(),
{
    let next = state.after(Event::Reserve { picked, fee });
    let ids = nullifiers_of(picked);
    let last = state.held.len() as int;
    assert forall|r: int, k: int|
        0 <= r < next.held.len() && 0 <= k < next.held[r].len() implies next.wallet.is_pending(
        #[trigger] next.held[r][k],
    ) by {
        if r < last {
            assert(state.wallet.is_pending(state.held[r][k]));
            let i = choose|i: int|
                0 <= i < state.wallet.pending.len() && state.wallet.pending[i] == state.held[r][k];
            assert(next.wallet.pending[i] == state.held[r][k]);
        } else {
            assert(next.wallet.pending[state.wallet.pending.len() + k] == ids[k]);
        }
    }
    assert forall|r: int, k: int, s: int, l: int|
        0 <= r < next.held.len() && 0 <= k < next.held[r].len() && 0 <= s < next.held.len() && 0
            <= l < next.held[s].len() && (r != s || k != l) implies #[trigger] next.held[r][k]
        != #[trigger] next.held[s][l] by {
        if r < last && s < last {
            assert(state.held[r][k] != state.held[s][l]);
        } else if r == last && s == last {
            if k < l {
                assert(picked[k].nullifier != picked[l].nullifier);
            } else {
                assert(picked[l].nullifier != picked[k].nullifier);
            }
        } else if r == last {
            assert(state.wallet.spendable(picked[k]));
            assert(state.wallet.is_pending(state.held[s][l]));
        } else {
            assert(state.wallet.spendable(picked[l]));
            assert(state.wallet.is_pending(state.held[r][k]));
        }
    }
}

/// A request that fails frees its own coins and no others: afterwards none
/// of its coins is reserved, and the other requests hold what they held.
pub proof fn law_failing_frees_own_coins_only(state: Reservations, held: int)
    requires
        state.apart(),
        0 <= held < state.held.len(),
    ensures
        state.after(Event::Fail { held }).apart(),
        forall|k: int|
            0 <= k < state.held[held].len() ==> !state.after(
                Event::Fail { held },
            ).wallet.is_pending(#[trigger] state.held[held][k]),
        state.after(Event::Fail { held }).wallet.coins == state.wallet.coins,
{
    let next = state.after(Event::Fail { held });
    let gone = state.held[held];
    law_released_coins_are_free(state.wallet, gone);
    assert forall|r: int, k: int|
        0 <= r < next.held.len() && 0 <= k < next.held[r].len() implies next.wallet.is_pending(
        #[trigger] next.held[r][k],
    ) by {
        let r0 = if r < held { r } else { r + 1 };
        assert(next.held[r] == state.held[r0]);
        let n = state.held[r0][k];
        assert(state.wallet.is_pending(n));
        if gone.contains(n) {
            let l = choose|l: int| 0 <= l < gone.len() && gone[l] == n;
            assert(state.held[r0][k] != state.held[held][l]);
        }
    }
    assert forall|r: int, k: int, s: int, l: int|
        0 <= r < next.held.len() && 0 <= k < next.held[r].len() && 0 <= s < next.held.len() && 0
            <= l < next.held[s].len() && (r != s || k != l) implies #[trigger] next.held[r][k]
        != #[trigger] next.held[s][l] by {
        let r0 = if r < held { r } else { r + 1 };
        let s0 = if s < held { s } else { s + 1 };
        assert(next.held[r] == state.held[r0]);
        assert(next.held[s] == state.held[s0]);
        assert(state.held[r0][k] != state.held[s0][l]);
    }
}

/// No coin is spent twice, however the requests interleave: whatever
/// requests reserve and fail, in whatever order, no coin is held by two of
/// the requests that have not failed, nor twice by one.
pub proof fn law_no_double_spend(state: Reservations, events: Seq<Event>)
    requires
        state.apart(),
        state.admits_all(events),
    ensures
        state.after_all(events).apart(),
    decreases events.len(),
{
    if events.len() > 0 {
        let earlier = events.drop_last();
        law_no_double_spend(state, earlier);
        let before = state.after_all(earlier);
        match events.last() {
            Event::Reserve { picked, fee } => {
                law_reserving_keeps_requests_apart(before, picked, fee);
            },
            Event::Fail { held } => {
                law_failing_frees_own_coins_only(before, held);
            },
        }
    }
}

/// A wallet in which no request holds a reservation is a start from which
/// requests stay apart.
pub proof fn law_requests_start_apart(w: WalletModel)
    ensures
        (Reservations { wallet: w, held: Seq::empty() }).apart(),
{
}

} // verus!
