//! What submitting a bundle comes to, and what undoing that comes to.

use crate::connect::{submission_consistent, submitted};
use crate::disconnect::{unsubmission_consistent, unsubmitted};
use crate::error::{
    ConnectWithdrawalBundleSubmitted, Error, NoUtxo, PendingWithdrawalBundleUnknown,
};
use crate::order::before;
use crate::output::{BlockHash, InPoint, M6id, OutPoint, SpentView};
use crate::rollback::HeightStamped;
use crate::state::{
    first_absent, keys_after, keys_before, last_absent, lemma_first_absent_exists,
    lemma_last_absent_exists, StateView, WithdrawalBundleStatus,
};
use vstd::prelude::*;

verus! {

/// Submitting a bundle touches nothing but the unspent and the spent outputs, the pending bundle
/// and the record of the bundle.
pub proof fn law_submission_touches(
    s: StateView,
    block_height: u32,
    event_block_hash: BlockHash,
    m6id: M6id,
)
    ensures
        ({
            let after = submitted(s, block_height, event_block_hash, m6id).0;
            &&& after.height == s.height
            &&& after.latest_failed_withdrawal_bundle == s.latest_failed_withdrawal_bundle
            &&& after.withdrawal_bundle_event_blocks == s.withdrawal_bundle_event_blocks
            &&& after.deposit_blocks == s.deposit_blocks
            &&& after.withdrawal_bundles.remove(m6id) == s.withdrawal_bundles.remove(m6id)
        }),
{
    let after = submitted(s, block_height, event_block_hash, m6id).0;
    assert(after.withdrawal_bundles.remove(m6id) =~= s.withdrawal_bundles.remove(m6id));
}

/// The submission of a bundle without a record, which is not the pending one, is always connected.
/// It is recorded as unknown and submitted, and nothing else changes.
pub proof fn law_unrecorded_submission(
    s: StateView,
    block_height: u32,
    event_block_hash: BlockHash,
    m6id: M6id,
)
    requires
        s.pending_withdrawal_bundle != Some(m6id),
        !s.withdrawal_bundles.contains_key(m6id),
    ensures
        ({
            let (after, r) = submitted(s, block_height, event_block_hash, m6id);
            let first = HeightStamped {
                value: WithdrawalBundleStatus::Submitted,
                height: block_height,
            };
            &&& submission_consistent(s, block_height, event_block_hash, m6id)
            &&& r is Ok
            &&& after.withdrawal_bundles.contains_key(m6id)
            &&& after.withdrawal_bundles[m6id].0 is Unknown
            &&& after.withdrawal_bundles[m6id].1 == seq![first]
            &&& after.utxos == s.utxos
            &&& after.stxos == s.stxos
            &&& after.pending_withdrawal_bundle == s.pending_withdrawal_bundle
        }),
{
    let after = submitted(s, block_height, event_block_hash, m6id).0;
    assert(after.withdrawal_bundles[m6id].1 =~= seq![
        HeightStamped { value: WithdrawalBundleStatus::Submitted, height: block_height },
    ]);
}

/// A bundle with a record, which is not the pending one, can be submitted exactly if it is known
/// and was dropped, or has failed and was not confirmed unknown. Whatever its earlier statuses are,
/// it then gets the status that it was submitted unexpectedly, and nothing else changes: its
/// outputs are not spent. Its record may not be from a later height then.
pub proof fn law_unexpected_submission(
    s: StateView,
    block_height: u32,
    event_block_hash: BlockHash,
    m6id: M6id,
)
    requires
        s.pending_withdrawal_bundle != Some(m6id),
        s.withdrawal_bundles.contains_key(m6id),
    ensures
        ({
            let (after, r) = submitted(s, block_height, event_block_hash, m6id);
            let (info, statuses) = s.withdrawal_bundles[m6id];
            let latest = statuses.last();
            let dropped = info is Known && latest.value == WithdrawalBundleStatus::Dropped;
            let failed_before = info !is UnknownConfirmed && latest.value
                == WithdrawalBundleStatus::Failed;
            &&& r is Ok <==> dropped || failed_before
            &&& r is Ok ==> after.withdrawal_bundles.contains_key(m6id)
                && after.withdrawal_bundles[m6id] == (
                info,
                statuses.push(
                    HeightStamped {
                        value: WithdrawalBundleStatus::SubmittedUnexpected,
                        height: block_height,
                    },
                ),
            )
            &&& r is Err ==> after == s
            &&& after.utxos == s.utxos
            &&& after.stxos == s.stxos
            &&& after.pending_withdrawal_bundle == s.pending_withdrawal_bundle
            &&& submission_consistent(s, block_height, event_block_hash, m6id) <==> (dropped
                || failed_before ==> latest.height <= block_height)
        }),
{
}

/// Why a bundle with a record, which is not the pending one, cannot be submitted.
pub proof fn law_refused_submission(
    s: StateView,
    block_height: u32,
    event_block_hash: BlockHash,
    m6id: M6id,
)
    requires
        s.pending_withdrawal_bundle != Some(m6id),
        s.withdrawal_bundles.contains_key(m6id),
    ensures
        ({
            let r = submitted(s, block_height, event_block_hash, m6id).1;
            let (info, statuses) = s.withdrawal_bundles[m6id];
            let status = statuses.last().value;
            let height = statuses.last().height;
            &&& status == WithdrawalBundleStatus::Confirmed ==> r == Err::<(), _>(
                ConnectWithdrawalBundleSubmitted::ConfirmedResubmitted { event_block_hash, m6id },
            )
            &&& status == WithdrawalBundleStatus::Submitted || status
                == WithdrawalBundleStatus::SubmittedUnexpected ==> r == Err::<(), _>(
                ConnectWithdrawalBundleSubmitted::Resubmitted {
                    event_block_hash,
                    m6id,
                    submitted_block_height: height,
                },
            )
            &&& status == WithdrawalBundleStatus::Dropped && info !is Known ==> r == Err::<(), _>(
                ConnectWithdrawalBundleSubmitted::UnknownDropped {
                    m6id,
                    dropped_block_height: height,
                },
            )
            &&& status == WithdrawalBundleStatus::Pending && info is Known ==> r == Err::<(), _>(
                ConnectWithdrawalBundleSubmitted::DroppedPending(m6id),
            )
            &&& status == WithdrawalBundleStatus::Pending && info !is Known ==> r == Err::<(), _>(
                ConnectWithdrawalBundleSubmitted::UnknownPending {
                    m6id,
                    pending_block_height: height,
                },
            )
            &&& status == WithdrawalBundleStatus::Failed && info is UnknownConfirmed ==> r
                == Err::<(), _>(
                ConnectWithdrawalBundleSubmitted::UnknownConfirmedFailed {
                    m6id,
                    failed_block_height: height,
                },
            )
        }),
{
}

/// The pending bundle has to be recorded as known.
pub proof fn law_unknown_pending_submission(
    s: StateView,
    block_height: u32,
    event_block_hash: BlockHash,
    m6id: M6id,
)
    requires
        s.pending_withdrawal_bundle == Some(m6id),
        !s.withdrawal_bundles.contains_key(m6id) || s.withdrawal_bundles[m6id].0 !is Known,
    ensures
        submission_consistent(s, block_height, event_block_hash, m6id),
        submitted(s, block_height, event_block_hash, m6id) == (
            s,
            Err::<(), _>(
                ConnectWithdrawalBundleSubmitted::PendingWithdrawalBundleUnknown(
                    PendingWithdrawalBundleUnknown(m6id),
                ),
            ),
        ),
{
}

/// The pending bundle can be submitted if all outputs that it lists are unspent. It is then
/// submitted and no bundle is pending. Each output that it lists is spent by it and no longer
/// unspent, and every other output stays as it is. It has to have been recorded as pending, and not
/// at a later height.
pub proof fn law_pending_submission(
    s: StateView,
    block_height: u32,
    event_block_hash: BlockHash,
    m6id: M6id,
)
    requires
        s.pending_withdrawal_bundle == Some(m6id),
        s.withdrawal_bundles.contains_key(m6id),
        s.withdrawal_bundles[m6id].0 is Known,
        forall|o: OutPoint| #[trigger]
            s.withdrawal_bundles[m6id].0->Known_0.spend_utxos.contains_key(o)
                ==> s.utxos.contains_key(o),
    ensures
        ({
            let (after, r) = submitted(s, block_height, event_block_hash, m6id);
            let (info, statuses) = s.withdrawal_bundles[m6id];
            let listed = info->Known_0.spend_utxos;
            &&& submission_consistent(s, block_height, event_block_hash, m6id) <==> (
            statuses.last().value == WithdrawalBundleStatus::Pending && statuses.last().height
                <= block_height)
            &&& r is Ok
            &&& after.pending_withdrawal_bundle is None
            &&& after.withdrawal_bundles.contains_key(m6id)
            &&& after.withdrawal_bundles[m6id] == (
                info,
                statuses.push(
                    HeightStamped {
                        value: WithdrawalBundleStatus::Submitted,
                        height: block_height,
                    },
                ),
            )
            &&& forall|o: OutPoint| #[trigger]
                listed.contains_key(o) ==> !after.utxos.contains_key(o)
                    && after.stxos.contains_key(o) && after.stxos[o] == (SpentView {
                    output: listed[o],
                    inpoint: InPoint::Withdrawal { m6id },
                })
            &&& forall|o: OutPoint|
                !#[trigger] listed.contains_key(o) ==> {
                    &&& after.utxos.contains_key(o) == s.utxos.contains_key(o)
                    &&& s.utxos.contains_key(o) ==> after.utxos[o] == s.utxos[o]
                    &&& after.stxos.contains_key(o) == s.stxos.contains_key(o)
                    &&& s.stxos.contains_key(o) ==> after.stxos[o] == s.stxos[o]
                }
        }),
{
    let listed = s.withdrawal_bundles[m6id].0->Known_0.spend_utxos;
    assert forall|o: OutPoint| listed.dom().contains(o) implies s.utxos.dom().contains(o) by {
        assert(listed.contains_key(o));
    }
    assert(listed.dom().subset_of(s.utxos.dom()));
}

/// If an output that the pending bundle lists is not unspent, its submission is refused with the
/// first such output. The outputs before that are spent, and the record and the pending bundle
/// stay.
pub proof fn law_pending_submission_short(
    s: StateView,
    block_height: u32,
    event_block_hash: BlockHash,
    m6id: M6id,
    missing: OutPoint,
)
    requires
        s.pending_withdrawal_bundle == Some(m6id),
        s.withdrawal_bundles.contains_key(m6id),
        s.withdrawal_bundles[m6id].0 is Known,
        s.withdrawal_bundles[m6id].0->Known_0.spend_utxos.dom().finite(),
        s.withdrawal_bundles[m6id].0->Known_0.spend_utxos.contains_key(missing),
        !s.utxos.contains_key(missing),
    ensures
        ({
            let (after, r) = submitted(s, block_height, event_block_hash, m6id);
            let listed = s.withdrawal_bundles[m6id].0->Known_0.spend_utxos;
            &&& submission_consistent(s, block_height, event_block_hash, m6id)
            &&& after.pending_withdrawal_bundle == s.pending_withdrawal_bundle
            &&& after.withdrawal_bundles == s.withdrawal_bundles
            &&& r matches Err(ConnectWithdrawalBundleSubmitted::NoUtxo(NoUtxo { outpoint })) && {
                &&& listed.contains_key(outpoint)
                &&& !s.utxos.contains_key(outpoint)
                &&& outpoint == missing || !before::<OutPoint>(missing, outpoint)
                &&& forall|o: OutPoint|
                    #![trigger listed.contains_key(o)]
                    listed.contains_key(o) && before::<OutPoint>(o, outpoint) ==> {
                        &&& s.utxos.contains_key(o)
                        &&& !after.utxos.contains_key(o)
                        &&& after.stxos.contains_key(o)
                        &&& after.stxos[o] == (SpentView {
                            output: listed[o],
                            inpoint: InPoint::Withdrawal { m6id },
                        })
                    }
                &&& forall|o: OutPoint|
                    !(#[trigger] listed.contains_key(o) && before::<OutPoint>(o, outpoint)) ==> {
                        &&& after.utxos.contains_key(o) == s.utxos.contains_key(o)
                        &&& s.utxos.contains_key(o) ==> after.utxos[o] == s.utxos[o]
                        &&& after.stxos.contains_key(o) == s.stxos.contains_key(o)
                        &&& s.stxos.contains_key(o) ==> after.stxos[o] == s.stxos[o]
                    }
            }
        }),
{
    let listed = s.withdrawal_bundles[m6id].0->Known_0.spend_utxos;
    assert(listed.dom().contains(missing) && !s.utxos.dom().contains(missing));
    lemma_first_absent_exists(listed.dom(), s.utxos.dom());
    let first = first_absent(listed.dom(), s.utxos.dom());
    if before::<OutPoint>(missing, first) {
        assert(keys_before(listed.dom(), first).contains(missing));
    }
    assert forall|o: OutPoint| #[trigger]
        listed.contains_key(o) && before::<OutPoint>(o, first) implies s.utxos.contains_key(o) by {
        assert(keys_before(listed.dom(), first).contains(o));
    }
}

/// Undoing a submission touches nothing but the unspent and the spent outputs, the pending bundle
/// and the record of the bundle.
pub proof fn law_undone_submission_touches(s: StateView, m6id: M6id)
    ensures
        ({
            let after = unsubmitted(s, m6id).0;
            &&& after.height == s.height
            &&& after.latest_failed_withdrawal_bundle == s.latest_failed_withdrawal_bundle
            &&& after.withdrawal_bundle_event_blocks == s.withdrawal_bundle_event_blocks
            &&& after.deposit_blocks == s.deposit_blocks
            &&& after.withdrawal_bundles.remove(m6id) == s.withdrawal_bundles.remove(m6id)
        }),
{
    let after = unsubmitted(s, m6id).0;
    assert(after.withdrawal_bundles.remove(m6id) =~= s.withdrawal_bundles.remove(m6id));
}

/// Without a record, undoing a submission changes nothing, and is refused unless the bundle is the
/// pending one. With one, the bundle must have been submitted last, at this height.
pub proof fn law_unrecorded_submission_undone(s: StateView, block_height: u32, m6id: M6id)
    ensures
        !s.withdrawal_bundles.contains_key(m6id) ==> {
            &&& unsubmission_consistent(s, block_height, m6id)
            &&& unsubmitted(s, m6id).0 == s
            &&& s.pending_withdrawal_bundle == Some(m6id) ==> unsubmitted(s, m6id).1 is Ok
            &&& s.pending_withdrawal_bundle != Some(m6id) ==> unsubmitted(s, m6id).1 == Err::<
                (),
                Error,
            >(Error::UnknownWithdrawalBundle { m6id })
        },
        s.withdrawal_bundles.contains_key(m6id) ==> {
            let latest = s.withdrawal_bundles[m6id].1.last();
            unsubmission_consistent(s, block_height, m6id) <==> latest.height == block_height && (
            latest.value == WithdrawalBundleStatus::Submitted || latest.value
                == WithdrawalBundleStatus::SubmittedUnexpected)
        },
{
}

/// Undoing the submission of a bundle that was not pending before it, or is not known, takes back
/// its last status, and its record with the only one. Nothing else changes.
pub proof fn law_unexpected_submission_undone(s: StateView, m6id: M6id)
    requires
        s.withdrawal_bundles.contains_key(m6id),
        s.withdrawal_bundles[m6id].1.len() > 0,
        s.withdrawal_bundles[m6id].0 !is Known || s.withdrawal_bundles[m6id].1.len() == 1
            || s.withdrawal_bundles[m6id].1[s.withdrawal_bundles[m6id].1.len() - 2].value
            != WithdrawalBundleStatus::Pending,
    ensures
        ({
            let (after, r) = unsubmitted(s, m6id);
            let (info, statuses) = s.withdrawal_bundles[m6id];
            &&& r is Ok
            &&& after.utxos == s.utxos
            &&& after.stxos == s.stxos
            &&& after.pending_withdrawal_bundle == s.pending_withdrawal_bundle
            &&& statuses.len() == 1 ==> !after.withdrawal_bundles.contains_key(m6id)
            &&& statuses.len() > 1 ==> after.withdrawal_bundles.contains_key(m6id)
                && after.withdrawal_bundles[m6id] == (info, statuses.drop_last())
        }),
{
}

/// Undoing the submission of a known bundle that was pending before it makes it pending again. All
/// outputs that it lists must be spent; each is then unspent and no longer spent, and every other
/// output stays as it is.
pub proof fn law_pending_submission_undone(s: StateView, m6id: M6id)
    requires
        s.withdrawal_bundles.contains_key(m6id),
        s.withdrawal_bundles[m6id].0 is Known,
        s.withdrawal_bundles[m6id].1.len() > 1,
        s.withdrawal_bundles[m6id].1[s.withdrawal_bundles[m6id].1.len() - 2].value
            == WithdrawalBundleStatus::Pending,
        forall|o: OutPoint| #[trigger]
            s.withdrawal_bundles[m6id].0->Known_0.spend_utxos.contains_key(o)
                ==> s.stxos.contains_key(o),
    ensures
        ({
            let (after, r) = unsubmitted(s, m6id);
            let (info, statuses) = s.withdrawal_bundles[m6id];
            let listed = info->Known_0.spend_utxos;
            &&& r is Ok
            &&& after.pending_withdrawal_bundle == Some(m6id)
            &&& after.withdrawal_bundles.contains_key(m6id)
            &&& after.withdrawal_bundles[m6id] == (info, statuses.drop_last())
            &&& forall|o: OutPoint| #[trigger]
                listed.contains_key(o) ==> after.utxos.contains_key(o) && after.utxos[o]
                    == listed[o] && !after.stxos.contains_key(o)
            &&& forall|o: OutPoint|
                !#[trigger] listed.contains_key(o) ==> {
                    &&& after.utxos.contains_key(o) == s.utxos.contains_key(o)
                    &&& s.utxos.contains_key(o) ==> after.utxos[o] == s.utxos[o]
                    &&& after.stxos.contains_key(o) == s.stxos.contains_key(o)
                    &&& s.stxos.contains_key(o) ==> after.stxos[o] == s.stxos[o]
                }
        }),
{
    let listed = s.withdrawal_bundles[m6id].0->Known_0.spend_utxos;
    assert forall|o: OutPoint| listed.dom().contains(o) implies s.stxos.dom().contains(o) by {
        assert(listed.contains_key(o));
    }
    assert(listed.dom().subset_of(s.stxos.dom()));
}

/// If an output that such a bundle lists is not spent, undoing its submission is refused with the
/// last such output. The outputs after that are unspent, and the record and the pending bundle
/// stay.
pub proof fn law_pending_submission_not_undone(s: StateView, m6id: M6id, missing: OutPoint)
    requires
        s.withdrawal_bundles.contains_key(m6id),
        s.withdrawal_bundles[m6id].0 is Known,
        s.withdrawal_bundles[m6id].0->Known_0.spend_utxos.dom().finite(),
        s.withdrawal_bundles[m6id].1.len() > 1,
        s.withdrawal_bundles[m6id].1[s.withdrawal_bundles[m6id].1.len() - 2].value
            == WithdrawalBundleStatus::Pending,
        s.withdrawal_bundles[m6id].0->Known_0.spend_utxos.contains_key(missing),
        !s.stxos.contains_key(missing),
    ensures
        ({
            let (after, r) = unsubmitted(s, m6id);
            let listed = s.withdrawal_bundles[m6id].0->Known_0.spend_utxos;
            &&& after.pending_withdrawal_bundle == s.pending_withdrawal_bundle
            &&& after.withdrawal_bundles == s.withdrawal_bundles
            &&& r matches Err(Error::NoStxo { outpoint }) && {
                &&& listed.contains_key(outpoint)
                &&& !s.stxos.contains_key(outpoint)
                &&& outpoint == missing || !before::<OutPoint>(outpoint, missing)
                &&& forall|o: OutPoint|
                    #![trigger listed.contains_key(o)]
                    listed.contains_key(o) && before::<OutPoint>(outpoint, o) ==> {
                        &&& after.utxos.contains_key(o)
                        &&& after.utxos[o] == listed[o]
                        &&& !after.stxos.contains_key(o)
                    }
                &&& forall|o: OutPoint|
                    !(#[trigger] listed.contains_key(o) && before::<OutPoint>(outpoint, o)) ==> {
                        &&& after.utxos.contains_key(o) == s.utxos.contains_key(o)
                        &&& s.utxos.contains_key(o) ==> after.utxos[o] == s.utxos[o]
                        &&& after.stxos.contains_key(o) == s.stxos.contains_key(o)
                        &&& s.stxos.contains_key(o) ==> after.stxos[o] == s.stxos[o]
                    }
            }
        }),
{
    let listed = s.withdrawal_bundles[m6id].0->Known_0.spend_utxos;
    assert(listed.dom().contains(missing) && !s.stxos.dom().contains(missing));
    lemma_last_absent_exists(listed.dom(), s.stxos.dom());
    let last = last_absent(listed.dom(), s.stxos.dom());
    if before::<OutPoint>(last, missing) {
        assert(keys_after(listed.dom(), last).contains(missing));
    }
}

} // verus!
