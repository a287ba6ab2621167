//! Why two-way peg data cannot be connected or disconnected.

use crate::output::{BlockHash, M6id, OutPoint};
use vstd::prelude::*;

verus! {

/// An output that was to be spent is not unspent.
#[derive(Clone, Copy, Debug, PartialEq, Eq)]
pub struct NoUtxo {
    pub outpoint: OutPoint,
}

/// The pending withdrawal bundle is not known.
#[derive(Clone, Copy, Debug, PartialEq, Eq)]
pub struct PendingWithdrawalBundleUnknown(pub M6id);

/// A sum of amounts does not fit.
#[derive(Clone, Copy, Debug, PartialEq, Eq)]
pub struct AmountOverflowError;

/// Why a submission of a withdrawal bundle cannot be connected.
#[derive(Clone, Copy, Debug, PartialEq, Eq)]
pub enum ConnectWithdrawalBundleSubmitted {
    PendingWithdrawalBundleUnknown(PendingWithdrawalBundleUnknown),
    NoUtxo(NoUtxo),
    /// A confirmed bundle was submitted again.
    ConfirmedResubmitted { event_block_hash: BlockHash, m6id: M6id },
    /// A submitted bundle was submitted again.
    Resubmitted { event_block_hash: BlockHash, m6id: M6id, submitted_block_height: u32 },
    /// A bundle is recorded as dropped but was never known.
    UnknownDropped { m6id: M6id, dropped_block_height: u32 },
    /// A bundle is recorded as pending but is not the pending one.
    DroppedPending(M6id),
    /// A bundle is recorded as pending but was never known.
    UnknownPending { m6id: M6id, pending_block_height: u32 },
    /// A bundle that was confirmed unknown is recorded as failed.
    UnknownConfirmedFailed { m6id: M6id, failed_block_height: u32 },
}

/// Why two-way peg data cannot be connected or disconnected.
#[derive(Clone, Copy, Debug, PartialEq, Eq)]
pub enum Error {
    AmountOverflow(AmountOverflowError),
    BundleTooHeavy { weight: u64, max_weight: u64 },
    ConnectWithdrawalBundleSubmitted(ConnectWithdrawalBundleSubmitted),
    NoDepositBlock,
    NoStxo { outpoint: OutPoint },
    NoTip,
    NoUtxo(NoUtxo),
    NoWithdrawalBundleEventBlock,
    PendingWithdrawalBundleUnknown(PendingWithdrawalBundleUnknown),
    /// A bundle that was dropped or failed is confirmed, but spends an output that is not unspent.
    UnexpectedWithdrawalBundleInsolvency {
        event_block_hash: BlockHash,
        m6id: M6id,
        outpoint: OutPoint,
    },
    UnknownWithdrawalBundle { m6id: M6id },
    UnknownWithdrawalBundleConfirmed { event_block_hash: BlockHash, m6id: M6id },
    UnknownWithdrawalBundleReconfirmed { event_block_hash: BlockHash, m6id: M6id },
}

} // verus!
