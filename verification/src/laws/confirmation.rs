//! What confirming a bundle comes to, and what undoing that comes to.

use crate::connect::{confirmation_consistent, confirmed};
use crate::disconnect::{unconfirmation_consistent, unconfirmed};
use crate::error::Error;
use crate::order::before;
use crate::output::{BlockHash, InPoint, M6id, OutPoint, OutputView, SpentView};
use crate::rollback::HeightStamped;
use crate::state::{
    first_absent, keys_before, lemma_first_absent_exists, InfoView, StateView,
    WithdrawalBundleStatus,
};
use vstd::prelude::*;

verus! {

/// Confirming a bundle touches nothing but the unspent and the spent outputs and the record of the
/// bundle. It changes nothing, and is refused, where there is no record, and changes nothing where
/// the bundle is confirmed.
pub proof fn law_confirmation_touches(
    s: StateView,
    block_height: u32,
    event_block_hash: BlockHash,
    m6id: M6id,
)
    ensures
        ({
            let (after, r) = confirmed(s, block_height, event_block_hash, m6id);
            let latest = s.withdrawal_bundles[m6id].1.last().value;
            &&& after.height == s.height
            &&& after.pending_withdrawal_bundle == s.pending_withdrawal_bundle
            &&& after.latest_failed_withdrawal_bundle == s.latest_failed_withdrawal_bundle
            &&& after.withdrawal_bundle_event_blocks == s.withdrawal_bundle_event_blocks
            &&& after.deposit_blocks == s.deposit_blocks
            &&& after.withdrawal_bundles.remove(m6id) == s.withdrawal_bundles.remove(m6id)
            &&& !s.withdrawal_bundles.contains_key(m6id) ==> {
                &&& confirmation_consistent(s, block_height, event_block_hash, m6id)
                &&& after == s
                &&& r == Err::<(), Error>(Error::UnknownWithdrawalBundle { m6id })
            }
            &&& s.withdrawal_bundles.contains_key(m6id) && latest
                == WithdrawalBundleStatus::Confirmed ==> {
                &&& confirmation_consistent(s, block_height, event_block_hash, m6id)
                &&& after == s
                &&& r is Ok
            }
            &&& s.withdrawal_bundles.contains_key(m6id) && latest
                != WithdrawalBundleStatus::Confirmed && latest != WithdrawalBundleStatus::Submitted
                && latest != WithdrawalBundleStatus::SubmittedUnexpected
                ==> !confirmation_consistent(s, block_height, event_block_hash, m6id)
        }),
{
    let after = confirmed(s, block_height, event_block_hash, m6id).0;
    assert(after.withdrawal_bundles.remove(m6id) =~= s.withdrawal_bundles.remove(m6id));
}

/// A known bundle that was submitted as expected is always confirmed, whatever its earlier statuses
/// are: it gets one more status, stays known, and no output changes. Its record may not be from a
/// later height.
pub proof fn law_expected_confirmation(
    s: StateView,
    block_height: u32,
    event_block_hash: BlockHash,
    m6id: M6id,
)
    requires
        s.withdrawal_bundles.contains_key(m6id),
        s.withdrawal_bundles[m6id].0 is Known,
        s.withdrawal_bundles[m6id].1.last().value == WithdrawalBundleStatus::Submitted,
    ensures
        ({
            let (after, r) = confirmed(s, block_height, event_block_hash, m6id);
            let (info, statuses) = s.withdrawal_bundles[m6id];
            &&& confirmation_consistent(s, block_height, event_block_hash, m6id)
                <==> statuses.last().height <= block_height
            &&& r is Ok
            &&& after.withdrawal_bundles.contains_key(m6id)
            &&& after.withdrawal_bundles[m6id] == (
                info,
                statuses.push(
                    HeightStamped {
                        value: WithdrawalBundleStatus::Confirmed,
                        height: block_height,
                    },
                ),
            )
            &&& after.utxos == s.utxos
            &&& after.stxos == s.stxos
        }),
{
}

/// A known bundle that was submitted unexpectedly is confirmed if all outputs that it lists are
/// unspent. Each is then spent by it and no longer unspent, and every other output stays as it is.
pub proof fn law_unexpected_confirmation(
    s: StateView,
    block_height: u32,
    event_block_hash: BlockHash,
    m6id: M6id,
)
    requires
        s.withdrawal_bundles.contains_key(m6id),
        s.withdrawal_bundles[m6id].0 is Known,
        s.withdrawal_bundles[m6id].1.last().value == WithdrawalBundleStatus::SubmittedUnexpected,
        forall|o: OutPoint| #[trigger]
            s.withdrawal_bundles[m6id].0->Known_0.spend_utxos.contains_key(o)
                ==> s.utxos.contains_key(o),
    ensures
        ({
            let (after, r) = confirmed(s, block_height, event_block_hash, m6id);
            let (info, statuses) = s.withdrawal_bundles[m6id];
            let listed = info->Known_0.spend_utxos;
            &&& confirmation_consistent(s, block_height, event_block_hash, m6id)
                <==> statuses.last().height <= block_height
            &&& r is Ok
            &&& after.withdrawal_bundles.contains_key(m6id)
            &&& after.withdrawal_bundles[m6id] == (
                info,
                statuses.push(
                    HeightStamped {
                        value: WithdrawalBundleStatus::Confirmed,
                        height: block_height,
                    },
                ),
            )
            &&& forall|o: OutPoint| #[trigger]
                listed.contains_key(o) ==> !after.utxos.contains_key(o)
                    && after.stxos.contains_key(o) && after.stxos[o] == (SpentView {
                    output: listed[o],
                    inpoint: InPoint::Withdrawal { m6id },
                })
            &&& forall|o: OutPoint|
                !#[trigger] listed.contains_key(o) ==> {
                    &&& after.utxos.contains_key(o) == s.utxos.contains_key(o)
                    &&& s.utxos.contains_key(o) ==> after.utxos[o] == s.utxos[o]
                    &&& after.stxos.contains_key(o) == s.stxos.contains_key(o)
                    &&& s.stxos.contains_key(o) ==> after.stxos[o] == s.stxos[o]
                }
        }),
{
    let listed = s.withdrawal_bundles[m6id].0->Known_0.spend_utxos;
    assert forall|o: OutPoint| listed.dom().contains(o) implies s.utxos.dom().contains(o) by {
        assert(listed.contains_key(o));
    }
    assert(listed.dom().subset_of(s.utxos.dom()));
}

/// If an output that such a bundle lists is not unspent, the chain is insolvent: the confirmation
/// is refused with the first such output. The outputs before that are spent, and the record stays.
pub proof fn law_insolvent_confirmation(
    s: StateView,
    block_height: u32,
    event_block_hash: BlockHash,
    m6id: M6id,
    missing: OutPoint,
)
    requires
        s.withdrawal_bundles.contains_key(m6id),
        s.withdrawal_bundles[m6id].0 is Known,
        s.withdrawal_bundles[m6id].1.last().value == WithdrawalBundleStatus::SubmittedUnexpected,
        s.withdrawal_bundles[m6id].0->Known_0.spend_utxos.dom().finite(),
        s.withdrawal_bundles[m6id].0->Known_0.spend_utxos.contains_key(missing),
        !s.utxos.contains_key(missing),
    ensures
        ({
            let (after, r) = confirmed(s, block_height, event_block_hash, m6id);
            let listed = s.withdrawal_bundles[m6id].0->Known_0.spend_utxos;
            &&& confirmation_consistent(s, block_height, event_block_hash, m6id)
            &&& after.withdrawal_bundles == s.withdrawal_bundles
            &&& r is Err
            &&& r->Err_0 is UnexpectedWithdrawalBundleInsolvency
            &&& r->Err_0->UnexpectedWithdrawalBundleInsolvency_event_block_hash == event_block_hash
            &&& r->Err_0->UnexpectedWithdrawalBundleInsolvency_m6id == m6id
            &&& {
                let outpoint = r->Err_0->UnexpectedWithdrawalBundleInsolvency_outpoint;
                &&& listed.contains_key(outpoint)
                &&& !s.utxos.contains_key(outpoint)
                &&& !before::<OutPoint>(missing, outpoint)
                &&& forall|o: OutPoint|
                    #![trigger listed.contains_key(o)]
                    listed.contains_key(o) && before::<OutPoint>(o, outpoint) ==> {
                        &&& s.utxos.contains_key(o)
                        &&& !after.utxos.contains_key(o)
                        &&& after.stxos.contains_key(o)
                        &&& after.stxos[o] == (SpentView {
                            output: listed[o],
                            inpoint: InPoint::Withdrawal { m6id },
                        })
                    }
                &&& forall|o: OutPoint|
                    !(#[trigger] listed.contains_key(o) && before::<OutPoint>(o, outpoint)) ==> {
                        &&& after.utxos.contains_key(o) == s.utxos.contains_key(o)
                        &&& s.utxos.contains_key(o) ==> after.utxos[o] == s.utxos[o]
                        &&& after.stxos.contains_key(o) == s.stxos.contains_key(o)
                        &&& s.stxos.contains_key(o) ==> after.stxos[o] == s.stxos[o]
                    }
            }
        }),
{
    let listed = s.withdrawal_bundles[m6id].0->Known_0.spend_utxos;
    assert(listed.dom().contains(missing) && !s.utxos.dom().contains(missing));
    lemma_first_absent_exists(listed.dom(), s.utxos.dom());
    let first = first_absent(listed.dom(), s.utxos.dom());
    if before::<OutPoint>(missing, first) {
        assert(keys_before(listed.dom(), first).contains(missing));
    }
    assert forall|o: OutPoint| #[trigger]
        listed.contains_key(o) && before::<OutPoint>(o, first) implies s.utxos.contains_key(o) by {
        assert(keys_before(listed.dom(), first).contains(o));
    }
}

/// A bundle that is not known is confirmed at height 0 only. All outputs are then spent by it, none
/// is unspent, and it is recorded as confirmed with the outputs that were unspent. At other
/// heights, and if it was confirmed unknown before, it is refused and nothing changes.
pub proof fn law_unknown_confirmation(
    s: StateView,
    block_height: u32,
    event_block_hash: BlockHash,
    m6id: M6id,
)
    requires
        s.withdrawal_bundles.contains_key(m6id),
        s.withdrawal_bundles[m6id].0 !is Known,
        s.withdrawal_bundles[m6id].1.last().value == WithdrawalBundleStatus::Submitted
            || s.withdrawal_bundles[m6id].1.last().value
            == WithdrawalBundleStatus::SubmittedUnexpected,
    ensures
        ({
            let (after, r) = confirmed(s, block_height, event_block_hash, m6id);
            let (info, statuses) = s.withdrawal_bundles[m6id];
            &&& confirmation_consistent(s, block_height, event_block_hash, m6id) <==> (info
                is Unknown && block_height == 0 ==> statuses.last().height == 0)
            &&& info is UnknownConfirmed ==> after == s && r == Err::<(), Error>(
                Error::UnknownWithdrawalBundleReconfirmed { event_block_hash, m6id },
            )
            &&& info is Unknown && block_height != 0 ==> after == s && r == Err::<(), Error>(
                Error::UnknownWithdrawalBundleConfirmed { event_block_hash, m6id },
            )
            &&& info is Unknown && block_height == 0 ==> {
                &&& r is Ok
                &&& after.withdrawal_bundles.contains_key(m6id)
                &&& after.withdrawal_bundles[m6id].0 == (InfoView::UnknownConfirmed {
                    spend_utxos: s.utxos,
                })
                &&& after.withdrawal_bundles[m6id].1 == statuses.push(
                    HeightStamped { value: WithdrawalBundleStatus::Confirmed, height: 0 },
                )
                &&& after.utxos == Map::<OutPoint, OutputView>::empty()
                &&& forall|o: OutPoint| #[trigger]
                    s.utxos.contains_key(o) ==> after.stxos.contains_key(o) && after.stxos[o] == (
                    SpentView { output: s.utxos[o], inpoint: InPoint::Withdrawal { m6id } })
                &&& forall|o: OutPoint|
                    !#[trigger] s.utxos.contains_key(o) ==> {
                        &&& after.stxos.contains_key(o) == s.stxos.contains_key(o)
                        &&& s.stxos.contains_key(o) ==> after.stxos[o] == s.stxos[o]
                    }
            }
        }),
{
    let after = confirmed(s, block_height, event_block_hash, m6id).0;
    if s.withdrawal_bundles[m6id].0 is Unknown && block_height == 0 {
        assert(after.utxos =~= Map::<OutPoint, OutputView>::empty());
    }
}

/// Undoing a confirmation touches nothing but the unspent and the spent outputs and the record of
/// the bundle. It changes nothing, and is refused, where there is no record, and changes nothing
/// where the bundle is submitted. Else the bundle must have been confirmed at this height, after it
/// was submitted.
pub proof fn law_undone_confirmation_touches(s: StateView, block_height: u32, m6id: M6id)
    ensures
        ({
            let (after, r) = unconfirmed(s, m6id);
            let statuses = s.withdrawal_bundles[m6id].1;
            let latest = statuses.last();
            let on_its_way = latest.value == WithdrawalBundleStatus::Submitted || latest.value
                == WithdrawalBundleStatus::SubmittedUnexpected;
            &&& after.height == s.height
            &&& after.pending_withdrawal_bundle == s.pending_withdrawal_bundle
            &&& after.latest_failed_withdrawal_bundle == s.latest_failed_withdrawal_bundle
            &&& after.withdrawal_bundle_event_blocks == s.withdrawal_bundle_event_blocks
            &&& after.deposit_blocks == s.deposit_blocks
            &&& after.withdrawal_bundles.remove(m6id) == s.withdrawal_bundles.remove(m6id)
            &&& !s.withdrawal_bundles.contains_key(m6id) ==> {
                &&& unconfirmation_consistent(s, block_height, m6id)
                &&& after == s
                &&& r == Err::<(), Error>(Error::UnknownWithdrawalBundle { m6id })
            }
            &&& s.withdrawal_bundles.contains_key(m6id) && on_its_way ==> {
                &&& unconfirmation_consistent(s, block_height, m6id)
                &&& after == s
                &&& r is Ok
            }
            &&& s.withdrawal_bundles.contains_key(m6id) && !on_its_way ==> (
            unconfirmation_consistent(s, block_height, m6id) <==> {
                &&& latest.value == WithdrawalBundleStatus::Confirmed
                &&& latest.height == block_height
                &&& statuses.len() > 1
                &&& statuses[statuses.len() - 2].value == WithdrawalBundleStatus::Submitted
                    || statuses[statuses.len() - 2].value
                    == WithdrawalBundleStatus::SubmittedUnexpected
            })
        }),
{
    let after = unconfirmed(s, m6id).0;
    assert(after.withdrawal_bundles.remove(m6id) =~= s.withdrawal_bundles.remove(m6id));
}

/// Undoing the confirmation of a known bundle that was submitted as expected takes back its last
/// status, and nothing else changes.
pub proof fn law_expected_confirmation_undone(s: StateView, m6id: M6id)
    requires
        s.withdrawal_bundles.contains_key(m6id),
        s.withdrawal_bundles[m6id].0 !is UnknownConfirmed,
        s.withdrawal_bundles[m6id].1.len() > 1,
        s.withdrawal_bundles[m6id].1.last().value == WithdrawalBundleStatus::Confirmed,
        s.withdrawal_bundles[m6id].0 is Known
            ==> s.withdrawal_bundles[m6id].1[s.withdrawal_bundles[m6id].1.len() - 2].value
            == WithdrawalBundleStatus::Submitted,
    ensures
        ({
            let (after, r) = unconfirmed(s, m6id);
            let (info, statuses) = s.withdrawal_bundles[m6id];
            &&& r is Ok
            &&& after.withdrawal_bundles.contains_key(m6id)
            &&& after.withdrawal_bundles[m6id] == (info, statuses.drop_last())
            &&& after.utxos == s.utxos
            &&& after.stxos == s.stxos
        }),
{
}

/// Undoing the confirmation of a known bundle that was submitted unexpectedly, or of one that was
/// confirmed unknown, gives back what it spent. If all of that is spent, each output is then
/// unspent and no longer spent, and every other stays as it is. A bundle that was confirmed unknown
/// is unknown again.
pub proof fn law_spending_confirmation_undone(
    s: StateView,
    m6id: M6id,
    listed: Map<OutPoint, OutputView>,
)
    requires
        s.withdrawal_bundles.contains_key(m6id),
        s.withdrawal_bundles[m6id].1.len() > 1,
        s.withdrawal_bundles[m6id].1.last().value == WithdrawalBundleStatus::Confirmed,
        match s.withdrawal_bundles[m6id].0 {
            InfoView::Known(bundle) => {
                &&& listed == bundle.spend_utxos
                &&& s.withdrawal_bundles[m6id].1[s.withdrawal_bundles[m6id].1.len() - 2].value
                    == WithdrawalBundleStatus::SubmittedUnexpected
            },
            InfoView::UnknownConfirmed { spend_utxos } => listed == spend_utxos,
            InfoView::Unknown => false,
        },
        forall|o: OutPoint| #[trigger] listed.contains_key(o) ==> s.stxos.contains_key(o),
    ensures
        ({
            let (after, r) = unconfirmed(s, m6id);
            let (info, statuses) = s.withdrawal_bundles[m6id];
            &&& r is Ok
            &&& after.withdrawal_bundles.contains_key(m6id)
            &&& info is Known ==> after.withdrawal_bundles[m6id].0 == info
            &&& info is UnknownConfirmed ==> after.withdrawal_bundles[m6id].0 is Unknown
            &&& after.withdrawal_bundles[m6id].1 == statuses.drop_last()
            &&& forall|o: OutPoint| #[trigger]
                listed.contains_key(o) ==> after.utxos.contains_key(o) && after.utxos[o]
                    == listed[o] && !after.stxos.contains_key(o)
            &&& forall|o: OutPoint|
                !#[trigger] listed.contains_key(o) ==> {
                    &&& after.utxos.contains_key(o) == s.utxos.contains_key(o)
                    &&& s.utxos.contains_key(o) ==> after.utxos[o] == s.utxos[o]
                    &&& after.stxos.contains_key(o) == s.stxos.contains_key(o)
                    &&& s.stxos.contains_key(o) ==> after.stxos[o] == s.stxos[o]
                }
        }),
{
    assert forall|o: OutPoint| listed.dom().contains(o) implies s.stxos.dom().contains(o) by {
        assert(listed.contains_key(o));
    }
    assert(listed.dom().subset_of(s.stxos.dom()));
}

/// If an output that such a bundle spent is not spent, undoing its confirmation is refused with the
/// first such output. That and the outputs before it are unspent, those before it no longer spent,
/// and the record stays.
pub proof fn law_spending_confirmation_not_undone(
    s: StateView,
    m6id: M6id,
    listed: Map<OutPoint, OutputView>,
    missing: OutPoint,
)
    requires
        s.withdrawal_bundles.contains_key(m6id),
        s.withdrawal_bundles[m6id].1.len() > 1,
        s.withdrawal_bundles[m6id].1.last().value == WithdrawalBundleStatus::Confirmed,
        match s.withdrawal_bundles[m6id].0 {
            InfoView::Known(bundle) => {
                &&& listed == bundle.spend_utxos
                &&& s.withdrawal_bundles[m6id].1[s.withdrawal_bundles[m6id].1.len() - 2].value
                    == WithdrawalBundleStatus::SubmittedUnexpected
            },
            InfoView::UnknownConfirmed { spend_utxos } => listed == spend_utxos,
            InfoView::Unknown => false,
        },
        listed.dom().finite(),
        listed.contains_key(missing),
        !s.stxos.contains_key(missing),
    ensures
        ({
            let (after, r) = unconfirmed(s, m6id);
            &&& after.withdrawal_bundles == s.withdrawal_bundles
            &&& r matches Err(Error::NoStxo { outpoint }) && {
                &&& listed.contains_key(outpoint)
                &&& !s.stxos.contains_key(outpoint)
                &&& !before::<OutPoint>(missing, outpoint)
                &&& forall|o: OutPoint|
                    #![trigger listed.contains_key(o)]
                    listed.contains_key(o) && before::<OutPoint>(o, outpoint) ==> {
                        &&& after.utxos.contains_key(o)
                        &&& after.utxos[o] == listed[o]
                        &&& !after.stxos.contains_key(o)
                    }
                &&& after.utxos.contains_key(outpoint)
                &&& after.utxos[outpoint] == listed[outpoint]
                &&& !after.stxos.contains_key(outpoint)
                &&& forall|o: OutPoint|
                    o != outpoint && !(#[trigger] listed.contains_key(o) && before::<OutPoint>(
                        o,
                        outpoint,
                    )) ==> {
                        &&& after.utxos.contains_key(o) == s.utxos.contains_key(o)
                        &&& s.utxos.contains_key(o) ==> after.utxos[o] == s.utxos[o]
                        &&& after.stxos.contains_key(o) == s.stxos.contains_key(o)
                        &&& s.stxos.contains_key(o) ==> after.stxos[o] == s.stxos[o]
                    }
            }
        }),
{
    assert(listed.dom().contains(missing) && !s.stxos.dom().contains(missing));
    lemma_first_absent_exists(listed.dom(), s.stxos.dom());
    let first = first_absent(listed.dom(), s.stxos.dom());
    if before::<OutPoint>(missing, first) {
        assert(keys_before(listed.dom(), first).contains(missing));
    }
}

} // verus!
