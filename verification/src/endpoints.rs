use vstd::prelude::*;
use crate::coin::{Nullifier, OwnedCoin};
use crate::encoding::{amount_text, decimal};
use crate::error::Error;
use crate::hexcodec::{encode, hex_text};
use crate::ledger::{encode_nullifier, nullifier_encoding};
use crate::sync::SyncStatus;
use crate::wallet::WalletState;

verus! {

/// What the relay shows of its funds.
#[derive(Debug)]
pub struct FundsView {
    /// Each coin: its nullifier in hexadecimal and its value in decimal.
    pub coins: Vec<(String, String)>,
    /// The nullifier of each reserved coin, in hexadecimal.
    pub pending: Vec<String>,
    /// Whether the wallet is still behind the ledger.
    pub syncing: bool,
}

/// Whether `r` shows the nullifier `n`: the hexadecimal text of the
/// encoding that the ledger has for it, or an internal error with the
/// ledger's reason where it has none.
pub open spec fn shows(n: Nullifier, r: Result<String, Error>) -> bool {
    match nullifier_encoding(n) {
        Ok(bytes) => r is Ok && r->Ok_0@ == hex_text(bytes),
        Err(reason) => r is Err && r->Err_0.is_internal(reason),
    }
}

/// A nullifier as it is shown: the hexadecimal text of its encoding.
pub fn show_nullifier(n: &Nullifier) -> (r: Result<String, Error>)
    ensures
        shows(*n, r),
{
    match encode_nullifier(n) {
        Ok(bytes) => Ok(encode(bytes.as_slice())),
        Err(reason) => Err(Error::InternalError(reason)),
    }
}

/// Whether the ledger has an encoding for each nullifier of `coins` and of
/// `pending`.
pub open spec fn all_encoded(coins: Seq<OwnedCoin>, pending: Seq<Nullifier>) -> bool {
    &&& forall|i: int| 0 <= i < coins.len() ==> nullifier_encoding((#[trigger] coins[i]).nullifier) is Ok
    &&& forall|i: int| 0 <= i < pending.len() ==> nullifier_encoding(#[trigger] pending[i]) is Ok
}

/// The coins, the reserved coins and the sync status of the wallet, as
/// they are shown: the coins and the reservations in the wallet's order,
/// each nullifier as the hexadecimal text of its encoding, each value in
/// decimal. A nullifier that the ledger cannot encode is an internal error.
pub fn funds(wallet: &WalletState, status: &SyncStatus) -> (r: Result<FundsView, Error>)
    ensures
        r is Ok <==> all_encoded(wallet@.coins, wallet@.pending),
        r matches Err(e) ==> e is InternalError,
        r matches Ok(view) ==> {
            &&& view.syncing == status.is_syncing()
            &&& view.coins.len() == wallet@.coins.len()
            &&& forall|i: int|
                0 <= i < view.coins.len() ==> shows(
                    wallet@.coins[i].nullifier,
                    Ok((#[trigger] view.coins[i]).0),
                ) && view.coins[i].1@ == decimal(wallet@.coins[i].coin.value as nat)
            &&& view.pending.len() == wallet@.pending.len()
            &&& forall|i: int|
                0 <= i < view.pending.len() ==> shows(
                    wallet@.pending[i],
                    Ok(#[trigger] view.pending[i]),
                )
        },
{
    let coins = wallet.coins();
    let mut lines: Vec<(String, String)> = Vec::new();
    let mut i: usize = 0;
    while i < coins.len()
        invariant
            i <= coins.len(),
            coins@ == wallet@.coins,
            lines.len() == i,
            forall|k: int|
                0 <= k < i ==> shows(coins[k].nullifier, Ok((#[trigger] lines[k]).0))
                    && lines[k].1@ == decimal(coins[k].coin.value as nat),
            forall|k: int| 0 <= k < i ==> nullifier_encoding((#[trigger] coins[k]).nullifier) is Ok,
        decreases coins.len() - i,
    {
        let c = coins[i];
        let shown = match show_nullifier(&c.nullifier) {
            Ok(shown) => shown,
            Err(e) => {
                assert(nullifier_encoding(coins[i as int].nullifier) is Err);
                return Err(e);
            },
        };
        lines.push((shown, amount_text(c.coin.value)));
        i += 1;
    }
    let reserved = wallet.pending_spends();
    let mut pending: Vec<String> = Vec::new();
    let mut j: usize = 0;
    while j < reserved.len()
        invariant
            j <= reserved.len(),
            reserved@ == wallet@.pending,
            pending.len() == j,
            forall|k: int| 0 <= k < j ==> shows(reserved[k], Ok(#[trigger] pending[k])),
            forall|k: int| 0 <= k < j ==> nullifier_encoding(#[trigger] reserved[k]) is Ok,
        decreases reserved.len() - j,
    {
        let shown = match show_nullifier(&reserved[j]) {
            Ok(shown) => shown,
            Err(e) => {
                assert(nullifier_encoding(reserved[j as int]) is Err);
                return Err(e);
            },
        };
        pending.push(shown);
        j += 1;
    }
    Ok(FundsView { coins: lines, pending, syncing: status.sync_in_progress() })
}

/// The address under which the relay receives coins: its coin public key
/// in hexadecimal, a bar, and its encryption public key in hexadecimal.
/// `enc_public_key` is the key as the ledger encodes it, whose first byte
/// is not part of the address.
pub fn address(coin_public_key: &[u8], enc_public_key: &[u8]) -> (r: String)
    requires
        enc_public_key.len() >= 1,
    ensures
        r@ == hex_text(coin_public_key@) + "|"@ + hex_text(
            enc_public_key@.subrange(1, enc_public_key.len() as int),
        ),
{
    let mut tail: Vec<u8> = Vec::new();
    let mut i: usize = 1;
    while i < enc_public_key.len()
        invariant
            1 <= i <= enc_public_key.len(),
            tail@ == enc_public_key@.subrange(1, i as int),
        decreases enc_public_key.len() - i,
    {
        tail.push(enc_public_key[i]);
        assert(tail@ =~= enc_public_key@.subrange(1, i + 1));
        i += 1;
    }
    let second = encode(tail.as_slice());
    encode(coin_public_key).concat("|").concat(second.as_str())
}

} // verus!
