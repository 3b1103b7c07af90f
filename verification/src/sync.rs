use vstd::prelude::*;
use crate::coin::{Nullifier, OwnedCoin};
use crate::error::Error;
use crate::hexcodec::{decode, hex_value, is_hex, text_bytes};
use crate::wallet::{CoinDelta, WalletModel, WalletState};

verus! {

/// How far the wallet has followed the ledger. While it is `Syncing`, the
/// wallet may lack coins or still hold spent ones, so nothing may move
/// funds; `waiters` are the tasks to wake once it is `UpToDate`. Progress is
/// `synced` out of `total`; before the first report both are 0.
#[derive(Debug)]
pub enum SyncStatus {
    Syncing { synced: u64, total: u64, waiters: Vec<u64> },
    UpToDate,
}

impl SyncStatus {
    /// The tasks that wait for the wallet to be up to date.
    pub open spec fn waiting(&self) -> Seq<u64> {
        match self {
            SyncStatus::Syncing { waiters, .. } => waiters@,
            SyncStatus::UpToDate => Seq::empty(),
        }
    }

    /// Whether the wallet is still behind the ledger.
    pub open spec fn is_syncing(&self) -> bool {
        self is Syncing
    }

    /// Whether the status is syncing at `synced` out of `total`.
    pub open spec fn is_at(&self, synced: u64, total: u64) -> bool {
        match self {
            SyncStatus::Syncing { synced: s, total: t, .. } => *s == synced && *t == total,
            SyncStatus::UpToDate => false,
        }
    }

    /// Whether a progress report of `synced` out of `total` turns this
    /// status into `after` and wakes `wake`. Where `synced` has reached
    /// `total`, the wallet is up to date and every waiter is woken.
    /// Otherwise the wallet is syncing at the reported progress, with the
    /// same waiters, and nobody is woken.
    pub open spec fn progressed(
        &self,
        synced: u64,
        total: u64,
        after: SyncStatus,
        wake: Seq<u64>,
    ) -> bool {
        if synced == total {
            after is UpToDate && wake == self.waiting()
        } else {
            after.is_at(synced, total) && after.waiting() == self.waiting() && wake.len() == 0
        }
    }

    /// The status at start: syncing, without progress and without waiters.
    pub fn new() -> (s: SyncStatus)
        ensures
            s.is_at(0, 0),
            s.waiting().len() == 0,
    {
        SyncStatus::Syncing { synced: 0, total: 0, waiters: Vec::new() }
    }

    /// Whether the wallet is still behind the ledger, so that requests that
    /// move funds have to be refused.
    pub fn sync_in_progress(&self) -> (r: bool)
        ensures
            r == self.is_syncing(),
    {
        match self {
            SyncStatus::Syncing { .. } => true,
            SyncStatus::UpToDate => false,
        }
    }

    /// Registers `waiter` to be woken when the wallet is up to date, and
    /// says whether it has to wait at all: it has while the wallet is
    /// syncing. Nothing is registered once the wallet is up to date.
    pub fn wait_for_sync(&mut self, waiter: u64) -> (must_wait: bool)
        ensures
            must_wait == old(self).is_syncing(),
            final(self).is_syncing() == old(self).is_syncing(),
            must_wait ==> final(self).waiting() == old(self).waiting().push(waiter),
            !must_wait ==> final(self).waiting() == old(self).waiting(),
            forall|s: u64, t: u64| old(self).is_at(s, t) == final(self).is_at(s, t),
    {
        match self {
            SyncStatus::Syncing { waiters, .. } => {
                waiters.push(waiter);
                true
            },
            SyncStatus::UpToDate => false,
        }
    }

    /// Takes in a progress report of the ledger feed. Where `synced` has
    /// reached `total` the wallet is up to date, and the result holds every
    /// waiter registered so far: all of them have to be woken. Otherwise
    /// the wallet is syncing with the reported progress, the waiters stay
    /// registered, and nobody is woken.
    pub fn on_progress(&mut self, synced: u64, total: u64) -> (wake: Vec<u64>)
        ensures
            old(self).progressed(synced, total, *final(self), wake@),
    {
        let mut current: Vec<u64> = Vec::new();
        match self {
            SyncStatus::Syncing { waiters, .. } => {
                core::mem::swap(waiters, &mut current);
            },
            SyncStatus::UpToDate => {},
        }
        if synced == total {
            *self = SyncStatus::UpToDate;
            current
        } else {
            *self = SyncStatus::Syncing { synced, total, waiters: current };
            Vec::new()
        }
    }
}

/// A report that the feed has caught up makes the wallet up to date and
/// wakes every task that waited, and no other report does: after any other
/// report the wallet is syncing, nobody is woken, and those who waited still
/// wait.
pub proof fn law_progress_decides_sync(
    before: SyncStatus,
    synced: u64,
    total: u64,
    after: SyncStatus,
    wake: Seq<u64>,
)
    requires
        before.progressed(synced, total, after, wake),
    ensures
        after.is_syncing() <==> synced != total,
        !after.is_syncing() ==> wake == before.waiting(),
        after.is_syncing() ==> wake.len() == 0 && after.waiting() == before.waiting(),
{
}

/// Refuses a request that moves funds while the wallet is still syncing.
/// `progress` is the progress as it is shown to the caller.
pub fn check_is_wallet_in_sync(status: &SyncStatus, progress: &str) -> (r: Result<(), Error>)
    ensures
        r is Ok <==> !status.is_syncing(),
        r matches Err(e) ==> e.is_not_available(
            "Wallet not in sync. Current progress: "@ + progress@,
        ),
{
    match status {
        SyncStatus::Syncing { .. } => {
            let message = String::from_str("Wallet not in sync. Current progress: ").concat(
                progress,
            );
            Err(Error::NotAvailable(message))
        },
        SyncStatus::UpToDate => Ok(()),
    }
}

/// One item of the ledger's transaction feed.
#[derive(Debug)]
pub enum StreamItem {
    /// How far the feed has come: `synced` out of `total`.
    ProgressUpdate { synced: u64, total: u64 },
    /// A transaction of the ledger: its hash, the stage up to which the
    /// ledger applied it, and its encoding in hexadecimal.
    TransactionAdded { hash: String, apply_stage: String, raw: String },
}

/// What the synchronizer has to do for an item of the feed.
#[derive(Debug)]
pub enum SyncStep {
    /// The sync status changed; these waiters have to be woken.
    Wake(Vec<u64>),
    /// The item changes nothing: it repeats the transaction from which the
    /// feed was resumed, or the ledger dropped the transaction entirely.
    Skip,
    /// The transaction with this hash and encoding has to be folded into
    /// the wallet.
    Apply { hash: String, raw: Vec<u8> },
}

/// The stage of a transaction that the ledger did not apply at all.
pub open spec fn failed_entirely() -> Seq<char> {
    "FailEntirely"@
}

/// The part of the synchronizer that outlives an item of the feed: whether
/// the next transaction of the feed is the one that the persisted wallet
/// has seen last.
#[derive(Debug)]
pub struct Synchronizer {
    skip_first: bool,
}

impl Synchronizer {
    /// Whether the next transaction of the feed repeats one that the wallet
    /// holds already.
    pub closed spec fn skips_next(&self) -> bool {
        self.skip_first
    }

    /// The synchronizer at start. Where the wallet was restored from a
    /// snapshot, the feed starts at the last transaction seen, which is in
    /// the snapshot already and has to be skipped.
    pub fn start(resumed: bool) -> (s: Synchronizer)
        ensures
            s.skips_next() == resumed,
    {
        Synchronizer { skip_first: resumed }
    }

    /// Decides what an item of the feed asks for. A progress report updates
    /// `status`. Of the transactions, the first one of a resumed feed is
    /// skipped, and so is one that the ledger did not apply at all; every
    /// other one has to be applied. A transaction whose encoding is not
    /// hexadecimal ends the synchronizer: that is the error.
    pub fn on_item(&mut self, status: &mut SyncStatus, item: StreamItem) -> (r: Result<
        SyncStep,
        Error,
    >)
        ensures
            match item {
                StreamItem::ProgressUpdate { synced, total } => {
                    &&& final(self).skips_next() == old(self).skips_next()
                    &&& r is Ok
                    &&& r->Ok_0 is Wake
                    &&& old(status).progressed(synced, total, *final(status), r->Ok_0->Wake_0@)
                },
                StreamItem::TransactionAdded { hash, apply_stage, raw } => {
                    &&& *final(status) == *old(status)
                    &&& !final(self).skips_next()
                    &&& if old(self).skips_next() || apply_stage@ == failed_entirely() {
                        r is Ok && r->Ok_0 is Skip
                    } else if is_hex(text_bytes(raw@)) {
                        &&& r is Ok
                        &&& r->Ok_0 is Apply
                        &&& r->Ok_0->hash@ == hash@
                        &&& r->Ok_0->raw@ == hex_value(text_bytes(raw@))
                    } else {
                        r is Err && r->Err_0.is_internal("Transaction record is not valid hex"@)
                    }
                },
            },
    {
        match item {
            StreamItem::ProgressUpdate { synced, total } => Ok(
                SyncStep::Wake(status.on_progress(synced, total)),
            ),
            StreamItem::TransactionAdded { hash, apply_stage, raw } => {
                if self.skip_first {
                    self.skip_first = false;
                    return Ok(SyncStep::Skip);
                }
                if apply_stage == String::from_str("FailEntirely") {
                    return Ok(SyncStep::Skip);
                }
                match decode(raw.as_str()) {
                    Some(bytes) => Ok(SyncStep::Apply { hash, raw: bytes }),
                    None => Err(Error::internal("Transaction record is not valid hex")),
                }
            },
        }
    }
}

/// What a ledger transaction means to the wallet.
#[derive(Debug)]
pub enum WalletUpdate {
    /// A standard transaction: the delta that holds in any case, and the
    /// delta of its fallible part, where it has one.
    Standard { guaranteed: CoinDelta, fallible: Option<CoinDelta> },
    /// A claim of minted coins.
    ClaimMint { minted: CoinDelta },
}

impl WalletUpdate {
    /// The wallet `w` after the transaction: the guaranteed delta, then the
    /// fallible one where there is one; or the minted coins.
    pub open spec fn fold(&self, w: WalletModel) -> WalletModel {
        match self {
            WalletUpdate::Standard { guaranteed, fallible } => {
                let first = w.apply(guaranteed.received@, guaranteed.spent@);
                match fallible {
                    Some(delta) => first.apply(delta.received@, delta.spent@),
                    None => first,
                }
            },
            WalletUpdate::ClaimMint { minted } => w.apply(minted.received@, minted.spent@),
        }
    }
}

/// Whether two wallets hold the same coins, in whatever order.
pub open spec fn same_coin_set(a: Seq<OwnedCoin>, b: Seq<OwnedCoin>) -> bool {
    a.to_set() == b.to_set()
}

/// Replaying a record changes nothing: a wallet into which a transaction
/// was folded holds the same coins, and has the same coins reserved, after
/// the same transaction is folded into it once more, whether the transaction
/// has a fallible delta or not. So the replay is not persisted.
pub proof fn law_replayed_record_changes_nothing(update: WalletUpdate, w: WalletModel)
    ensures
        same_coin_set(update.fold(update.fold(w)).coins, update.fold(w).coins),
        update.fold(update.fold(w)).pending == update.fold(w).pending,
{
    match update {
        WalletUpdate::Standard { guaranteed, fallible } => {
            match fallible {
                Some(delta) => {
                    crate::wallet_laws::law_replay_of_two_deltas(
                        w,
                        guaranteed.received@,
                        guaranteed.spent@,
                        delta.received@,
                        delta.spent@,
                    );
                },
                None => {
                    crate::wallet_laws::law_replay_is_idempotent(
                        w,
                        guaranteed.received@,
                        guaranteed.spent@,
                    );
                },
            }
        },
        WalletUpdate::ClaimMint { minted } => {
            crate::wallet_laws::law_replay_is_idempotent(w, minted.received@, minted.spent@);
        },
    }
}

/// Whether `within` holds every coin of `coins`.
fn all_within(coins: &Vec<OwnedCoin>, within: &Vec<OwnedCoin>) -> (r: bool)
    ensures
        r == forall|i: int| 0 <= i < coins.len() ==> within@.contains(#[trigger] coins[i]),
{
    let mut i: usize = 0;
    while i < coins.len()
        invariant
            i <= coins.len(),
            forall|k: int| 0 <= k < i ==> within@.contains(#[trigger] coins[k]),
        decreases coins.len() - i,
    {
        let c = coins[i];
        let mut j: usize = 0;
        let mut found: bool = false;
        while j < within.len() && !found
            invariant
                j <= within.len(),
                c == coins[i as int],
                found ==> within@.contains(c),
                !found ==> forall|k: int| 0 <= k < j ==> within[k] != c,
            decreases within.len() - j, if found { 0int } else { 1int },
        {
            if within[j] == c {
                found = true;
            }
            j += 1;
        }
        if !found {
            return false;
        }
        i += 1;
    }
    true
}

/// Whether two lists hold the same coins, in whatever order.
pub fn coins_match(a: &Vec<OwnedCoin>, b: &Vec<OwnedCoin>) -> (r: bool)
    ensures
        r == same_coin_set(a@, b@),
{
    let r = all_within(a, b) && all_within(b, a);
    proof {
        if r {
            assert(a@.to_set() =~= b@.to_set()) by {
                assert forall|c: OwnedCoin| a@.contains(c) <==> b@.contains(c) by {
                    if a@.contains(c) {
                        let i = choose|i: int| 0 <= i < a.len() && a[i] == c;
                        assert(b@.contains(a[i]));
                    }
                    if b@.contains(c) {
                        let i = choose|i: int| 0 <= i < b.len() && b[i] == c;
                        assert(a@.contains(b[i]));
                    }
                }
            }
        } else {
            if a@.to_set() == b@.to_set() {
                assert forall|i: int| 0 <= i < a.len() implies b@.contains(#[trigger] a[i]) by {
                    assert(a@.contains(a[i]));
                    assert(a@.to_set().contains(a[i]));
                }
                assert forall|i: int| 0 <= i < b.len() implies a@.contains(#[trigger] b[i]) by {
                    assert(b@.contains(b[i]));
                    assert(b@.to_set().contains(b[i]));
                }
            }
        }
    }
    r
}

/// The coins of `coins`, once more.
fn copy_of(coins: &Vec<OwnedCoin>) -> (r: Vec<OwnedCoin>)
    ensures
        r@ == coins@,
{
    let mut r: Vec<OwnedCoin> = Vec::new();
    let mut i: usize = 0;
    while i < coins.len()
        invariant
            i <= coins.len(),
            r@ == coins@.take(i as int),
        decreases coins.len() - i,
    {
        r.push(coins[i]);
        assert(r@ =~= coins@.take(i + 1));
        i += 1;
    }
    assert(coins@.take(coins.len() as int) =~= coins@);
    r
}

/// Folds a ledger transaction into both copies of the wallet: the
/// confirmed one, which follows the ledger alone, and the unconfirmed one,
/// which also holds what the relay has reserved. The result says whether
/// the confirmed wallet has to be persisted: it has where its set of coins
/// changed.
pub fn apply_update(
    confirmed: &mut WalletState,
    unconfirmed: &mut WalletState,
    update: &WalletUpdate,
) -> (persist: bool)
    requires
        old(confirmed).wf(),
        old(unconfirmed).wf(),
    ensures
        final(confirmed).wf(),
        final(unconfirmed).wf(),
        final(confirmed)@ == update.fold(old(confirmed)@),
        final(unconfirmed)@ == update.fold(old(unconfirmed)@),
        persist == !same_coin_set(old(confirmed)@.coins, final(confirmed)@.coins),
{
    let before = copy_of(confirmed.coins());
    match update {
        WalletUpdate::Standard { guaranteed, fallible } => {
            confirmed.apply(guaranteed);
            unconfirmed.apply(guaranteed);
            match fallible {
                Some(delta) => {
                    confirmed.apply(delta);
                    unconfirmed.apply(delta);
                },
                None => {},
            }
        },
        WalletUpdate::ClaimMint { minted } => {
            confirmed.apply(minted);
            unconfirmed.apply(minted);
        },
    }
    !coins_match(&before, confirmed.coins())
}

/// The query that subscribes to the whole feed.
pub open spec fn whole_feed_query() -> Seq<char> {
    "subscription{transactions {__typename ... on TransactionAdded { transaction { hash raw block { hash height } applyStage }} ... on ProgressUpdate {synced total} } }"@
}

/// What stands before the hash in the query that resumes the feed.
pub open spec fn resumed_query_head() -> Seq<char> {
    "subscription{ transactions(offset: {hash: \""@
}

/// What stands after the hash in the query that resumes the feed.
pub open spec fn resumed_query_tail() -> Seq<char> {
    "\" }) {__typename ... on TransactionAdded { transaction { hash raw applyStage block { hash height } } } ... on ProgressUpdate {synced total} } }"@
}

/// The query with which the synchronizer subscribes to the feed: from the
/// transaction with the hash `last_seen` on, where the wallet was restored
/// from a snapshot, and else from the beginning.
pub fn subscription_query(last_seen: Option<&str>) -> (r: String)
    ensures
        r@ == match last_seen {
            Some(hash) => resumed_query_head() + hash@ + resumed_query_tail(),
            None => whole_feed_query(),
        },
{
    match last_seen {
        Some(hash) => String::from_str("subscription{ transactions(offset: {hash: \"").concat(
            hash,
        ).concat(
            "\" }) {__typename ... on TransactionAdded { transaction { hash raw applyStage block { hash height } } } ... on ProgressUpdate {synced total} } }",
        ),
        None => String::from_str(
            "subscription{transactions {__typename ... on TransactionAdded { transaction { hash raw block { hash height } applyStage }} ... on ProgressUpdate {synced total} } }",
        ),
    }
}

} // verus!
