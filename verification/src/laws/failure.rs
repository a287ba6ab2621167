//! What the failure of a bundle comes to, and what undoing that comes to.

use crate::connect::{failed, failure_consistent};
use crate::disconnect::{unfailed, unfailure_consistent};
use crate::error::{Error, NoUtxo};
use crate::order::before;
use crate::output::{InPoint, M6id, OutPoint, SpentView};
use crate::rollback::HeightStamped;
use crate::state::{
    keys_after, last_present, lemma_last_absent_exists, StateView, WithdrawalBundleStatus,
};
use vstd::prelude::*;

verus! {

/// The failure of a bundle touches nothing but the unspent and the spent outputs, the list of
/// failures and the record of the bundle. It changes nothing, and is refused, where there is no
/// record, and changes nothing where the bundle has failed. Else it is never refused, and gets one
/// more status.
pub proof fn law_failure_touches(s: StateView, block_height: u32, m6id: M6id)
    ensures
        ({
            let (after, r) = failed(s, block_height, m6id);
            let (info, statuses) = s.withdrawal_bundles[m6id];
            let latest = statuses.last().value;
            &&& after.height == s.height
            &&& after.pending_withdrawal_bundle == s.pending_withdrawal_bundle
            &&& after.withdrawal_bundle_event_blocks == s.withdrawal_bundle_event_blocks
            &&& after.deposit_blocks == s.deposit_blocks
            &&& after.withdrawal_bundles.remove(m6id) == s.withdrawal_bundles.remove(m6id)
            &&& r is Ok <==> s.withdrawal_bundles.contains_key(m6id)
            &&& !s.withdrawal_bundles.contains_key(m6id) ==> {
                &&& failure_consistent(s, block_height, m6id)
                &&& after == s
                &&& r == Err::<(), Error>(Error::UnknownWithdrawalBundle { m6id })
            }
            &&& s.withdrawal_bundles.contains_key(m6id) && latest == WithdrawalBundleStatus::Failed
                ==> failure_consistent(s, block_height, m6id) && after == s
            &&& s.withdrawal_bundles.contains_key(m6id) && latest != WithdrawalBundleStatus::Failed
                ==> after.withdrawal_bundles.contains_key(m6id) && after.withdrawal_bundles[m6id]
                == (
                info,
                statuses.push(
                    HeightStamped { value: WithdrawalBundleStatus::Failed, height: block_height },
                ),
            )
            &&& s.withdrawal_bundles.contains_key(m6id) && latest != WithdrawalBundleStatus::Failed
                && latest != WithdrawalBundleStatus::Submitted && latest
                != WithdrawalBundleStatus::SubmittedUnexpected ==> !failure_consistent(
                s,
                block_height,
                m6id,
            )
        }),
{
    let after = failed(s, block_height, m6id).0;
    assert(after.withdrawal_bundles.remove(m6id) =~= s.withdrawal_bundles.remove(m6id));
}

/// The failure of a bundle that is not known, or was submitted unexpectedly, changes no output and
/// is not listed.
pub proof fn law_unexpected_failure(s: StateView, block_height: u32, m6id: M6id)
    requires
        s.withdrawal_bundles.contains_key(m6id),
        s.withdrawal_bundles[m6id].1.last().value == WithdrawalBundleStatus::SubmittedUnexpected
            || s.withdrawal_bundles[m6id].1.last().value == WithdrawalBundleStatus::Submitted
            && s.withdrawal_bundles[m6id].0 !is Known,
    ensures
        ({
            let after = failed(s, block_height, m6id).0;
            &&& failure_consistent(s, block_height, m6id)
                <==> s.withdrawal_bundles[m6id].1.last().height <= block_height
            &&& after.utxos == s.utxos
            &&& after.stxos == s.stxos
            &&& after.latest_failed_withdrawal_bundle == s.latest_failed_withdrawal_bundle
        }),
{
}

/// The failure of a known bundle that was submitted as expected makes each output that it lists
/// unspent and no longer spent, and every other output stays as it is. It is the last in the list
/// of failures. Neither the last failure nor the submission may be from a later height.
pub proof fn law_expected_failure(s: StateView, block_height: u32, m6id: M6id)
    requires
        s.withdrawal_bundles.contains_key(m6id),
        s.withdrawal_bundles[m6id].0 is Known,
        s.withdrawal_bundles[m6id].1.last().value == WithdrawalBundleStatus::Submitted,
    ensures
        ({
            let after = failed(s, block_height, m6id).0;
            let listed = s.withdrawal_bundles[m6id].0->Known_0.spend_utxos;
            let entry = HeightStamped { value: m6id, height: block_height };
            &&& failure_consistent(s, block_height, m6id) <==> {
                &&& s.withdrawal_bundles[m6id].1.last().height <= block_height
                &&& s.latest_failed_withdrawal_bundle matches Some(all) ==> all.last().height
                    <= block_height
            }
            &&& match s.latest_failed_withdrawal_bundle {
                Some(all) => after.latest_failed_withdrawal_bundle == Some(all.push(entry)),
                None => after.latest_failed_withdrawal_bundle == Some(seq![entry]),
            }
            &&& forall|o: OutPoint| #[trigger]
                listed.contains_key(o) ==> after.utxos.contains_key(o) && after.utxos[o]
                    == listed[o] && !after.stxos.contains_key(o)
            &&& forall|o: OutPoint|
                !#[trigger] listed.contains_key(o) ==> {
                    &&& after.utxos.contains_key(o) == s.utxos.contains_key(o)
                    &&& s.utxos.contains_key(o) ==> after.utxos[o] == s.utxos[o]
                    &&& after.stxos.contains_key(o) == s.stxos.contains_key(o)
                    &&& s.stxos.contains_key(o) ==> after.stxos[o] == s.stxos[o]
                }
        }),
{
}

/// Undoing a failure touches nothing but the unspent and the spent outputs, the list of failures
/// and the record of the bundle. It changes nothing, and is refused, where there is no record, and
/// changes nothing where the bundle is submitted as expected. Else the bundle must have failed at
/// this height, after it was submitted.
pub proof fn law_undone_failure_touches(s: StateView, block_height: u32, m6id: M6id)
    ensures
        ({
            let (after, r) = unfailed(s, m6id);
            let (info, statuses) = s.withdrawal_bundles[m6id];
            let latest = statuses.last();
            let previous = statuses[statuses.len() - 2].value;
            &&& after.height == s.height
            &&& after.pending_withdrawal_bundle == s.pending_withdrawal_bundle
            &&& after.withdrawal_bundle_event_blocks == s.withdrawal_bundle_event_blocks
            &&& after.deposit_blocks == s.deposit_blocks
            &&& after.withdrawal_bundles.remove(m6id) == s.withdrawal_bundles.remove(m6id)
            &&& !s.withdrawal_bundles.contains_key(m6id) ==> {
                &&& unfailure_consistent(s, block_height, m6id)
                &&& after == s
                &&& r == Err::<(), Error>(Error::UnknownWithdrawalBundle { m6id })
            }
            &&& s.withdrawal_bundles.contains_key(m6id) && latest.value
                == WithdrawalBundleStatus::Submitted ==> {
                &&& unfailure_consistent(s, block_height, m6id)
                &&& after == s
                &&& r is Ok
            }
            &&& s.withdrawal_bundles.contains_key(m6id) && latest.value
                != WithdrawalBundleStatus::Submitted && unfailure_consistent(
                s,
                block_height,
                m6id,
            ) ==> {
                &&& latest.value == WithdrawalBundleStatus::Failed
                &&& latest.height == block_height
                &&& statuses.len() > 1
                &&& previous == WithdrawalBundleStatus::Submitted || previous
                    == WithdrawalBundleStatus::SubmittedUnexpected
            }
        }),
{
    let after = unfailed(s, m6id).0;
    assert(after.withdrawal_bundles.remove(m6id) =~= s.withdrawal_bundles.remove(m6id));
}

/// Undoing the failure of a bundle that is not known, or was submitted unexpectedly, takes back its
/// last status, and nothing else changes.
pub proof fn law_unexpected_failure_undone(s: StateView, block_height: u32, m6id: M6id)
    requires
        s.withdrawal_bundles.contains_key(m6id),
        s.withdrawal_bundles[m6id].1.len() > 1,
        s.withdrawal_bundles[m6id].1.last().value == WithdrawalBundleStatus::Failed,
        s.withdrawal_bundles[m6id].1[s.withdrawal_bundles[m6id].1.len() - 2].value
            == WithdrawalBundleStatus::SubmittedUnexpected
            || s.withdrawal_bundles[m6id].1[s.withdrawal_bundles[m6id].1.len() - 2].value
            == WithdrawalBundleStatus::Submitted && s.withdrawal_bundles[m6id].0 !is Known,
    ensures
        ({
            let (after, r) = unfailed(s, m6id);
            let (info, statuses) = s.withdrawal_bundles[m6id];
            &&& unfailure_consistent(s, block_height, m6id) <==> statuses.last().height
                == block_height
            &&& r is Ok
            &&& after.withdrawal_bundles.contains_key(m6id)
            &&& after.withdrawal_bundles[m6id] == (info, statuses.drop_last())
            &&& after.utxos == s.utxos
            &&& after.stxos == s.stxos
            &&& after.latest_failed_withdrawal_bundle == s.latest_failed_withdrawal_bundle
        }),
{
}

/// Undoing the failure of a known bundle that was submitted as expected, none of whose outputs is
/// unspent, takes back its last status and the last failure. Each output that it lists is then
/// spent by it, and every other stays as it is. The last failure has to be that of the bundle, at
/// this height.
pub proof fn law_expected_failure_undone(s: StateView, block_height: u32, m6id: M6id)
    requires
        s.withdrawal_bundles.contains_key(m6id),
        s.withdrawal_bundles[m6id].0 is Known,
        s.withdrawal_bundles[m6id].1.len() > 1,
        s.withdrawal_bundles[m6id].1.last().value == WithdrawalBundleStatus::Failed,
        s.withdrawal_bundles[m6id].1[s.withdrawal_bundles[m6id].1.len() - 2].value
            == WithdrawalBundleStatus::Submitted,
        forall|o: OutPoint| #[trigger]
            s.withdrawal_bundles[m6id].0->Known_0.spend_utxos.contains_key(o)
                ==> !s.utxos.contains_key(o),
    ensures
        ({
            let (after, r) = unfailed(s, m6id);
            let (info, statuses) = s.withdrawal_bundles[m6id];
            let listed = info->Known_0.spend_utxos;
            let all = s.latest_failed_withdrawal_bundle->0;
            &&& unfailure_consistent(s, block_height, m6id) <==> {
                &&& statuses.last().height == block_height
                &&& s.latest_failed_withdrawal_bundle is Some
                &&& all.last().value == m6id
                &&& all.last().height == block_height
            }
            &&& r is Ok
            &&& after.withdrawal_bundles.contains_key(m6id)
            &&& after.withdrawal_bundles[m6id] == (info, statuses.drop_last())
            &&& all.len() > 1 ==> after.latest_failed_withdrawal_bundle == Some(all.drop_last())
            &&& all.len() <= 1 ==> after.latest_failed_withdrawal_bundle is None
            &&& after.utxos == s.utxos
            &&& forall|o: OutPoint| #[trigger]
                listed.contains_key(o) ==> after.stxos.contains_key(o) && after.stxos[o] == (
                SpentView { output: listed[o], inpoint: InPoint::Withdrawal { m6id } })
            &&& forall|o: OutPoint|
                !#[trigger] listed.contains_key(o) ==> {
                    &&& after.stxos.contains_key(o) == s.stxos.contains_key(o)
                    &&& s.stxos.contains_key(o) ==> after.stxos[o] == s.stxos[o]
                }
        }),
{
    let listed = s.withdrawal_bundles[m6id].0->Known_0.spend_utxos;
    let after = unfailed(s, m6id).0;
    assert forall|o: OutPoint| listed.dom().contains(o) implies !s.utxos.dom().contains(o) by {
        assert(listed.contains_key(o));
    }
    assert(listed.dom().disjoint(s.utxos.dom()));
    assert(after.utxos =~= s.utxos);
}

/// If an output that such a bundle lists is unspent, undoing its failure is refused with the last
/// such output. That is no longer unspent, it and the outputs after it are spent by the bundle, and
/// the record and the list of failures stay.
pub proof fn law_expected_failure_not_undone(
    s: StateView,
    block_height: u32,
    m6id: M6id,
    present: OutPoint,
)
    requires
        s.withdrawal_bundles.contains_key(m6id),
        s.withdrawal_bundles[m6id].0 is Known,
        s.withdrawal_bundles[m6id].0->Known_0.spend_utxos.dom().finite(),
        s.withdrawal_bundles[m6id].1.len() > 1,
        s.withdrawal_bundles[m6id].1.last().value == WithdrawalBundleStatus::Failed,
        s.withdrawal_bundles[m6id].1[s.withdrawal_bundles[m6id].1.len() - 2].value
            == WithdrawalBundleStatus::Submitted,
        s.withdrawal_bundles[m6id].0->Known_0.spend_utxos.contains_key(present),
        s.utxos.contains_key(present),
    ensures
        ({
            let (after, r) = unfailed(s, m6id);
            let listed = s.withdrawal_bundles[m6id].0->Known_0.spend_utxos;
            &&& unfailure_consistent(s, block_height, m6id)
                <==> s.withdrawal_bundles[m6id].1.last().height == block_height
            &&& after.withdrawal_bundles == s.withdrawal_bundles
            &&& after.latest_failed_withdrawal_bundle == s.latest_failed_withdrawal_bundle
            &&& r matches Err(Error::NoUtxo(NoUtxo { outpoint })) && {
                &&& listed.contains_key(outpoint)
                &&& s.utxos.contains_key(outpoint)
                &&& !before::<OutPoint>(outpoint, present)
                &&& after.utxos == s.utxos.remove(outpoint)
                &&& forall|o: OutPoint|
                    #![trigger listed.contains_key(o)]
                    listed.contains_key(o) && (o == outpoint || before::<OutPoint>(outpoint, o))
                        ==> after.stxos.contains_key(o) && after.stxos[o] == (SpentView {
                        output: listed[o],
                        inpoint: InPoint::Withdrawal { m6id },
                    })
                &&& forall|o: OutPoint|
                    !(#[trigger] listed.contains_key(o) && (o == outpoint || before::<OutPoint>(
                        outpoint,
                        o,
                    ))) ==> {
                        &&& after.stxos.contains_key(o) == s.stxos.contains_key(o)
                        &&& s.stxos.contains_key(o) ==> after.stxos[o] == s.stxos[o]
                    }
            }
        }),
{
    let (after, r) = unfailed(s, m6id);
    let listed = s.withdrawal_bundles[m6id].0->Known_0.spend_utxos;
    let absent = s.utxos.dom().complement();
    assert(listed.dom().contains(present) && !absent.contains(present));
    lemma_last_absent_exists(listed.dom(), absent);
    let last = last_present(listed.dom(), s.utxos.dom());
    assert(!listed.dom().disjoint(s.utxos.dom()));
    if before::<OutPoint>(last, present) {
        assert(keys_after(listed.dom(), last).contains(present));
    }
    assert forall|o: OutPoint|
        keys_after(listed.dom(), last).contains(o) implies !s.utxos.dom().contains(o) by {
        assert(absent.contains(o));
    }
    assert(after.utxos =~= s.utxos.remove(last));
}

} // verus!
