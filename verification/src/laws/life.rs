//! What becomes of a withdrawal bundle.

use crate::bundle::{m6id_of, BundleView};
use crate::collect::collected;
use crate::connect::{bundled, confirmed, failed, submission_consistent, submitted, with_pending};
use crate::error::{ConnectWithdrawalBundleSubmitted, Error};
use crate::laws::undoing::held;
use crate::output::{BlockHash, M6id};
use crate::state::{spent, StateView, WithdrawalBundleStatus, WITHDRAWAL_BUNDLE_FAILURE_GAP};
use vstd::prelude::*;

verus! {

/// A bundle that was confirmed can be confirmed again, and nothing changes.
pub proof fn law_confirmed_again(
    s: StateView,
    block_height: u32,
    event_block_hash: BlockHash,
    m6id: M6id,
    later_height: u32,
    later_block_hash: BlockHash,
)
    requires
        confirmed(s, block_height, event_block_hash, m6id).1 is Ok,
    ensures
        ({
            let after = confirmed(s, block_height, event_block_hash, m6id).0;
            confirmed(after, later_height, later_block_hash, m6id) == (after, Ok::<(), Error>(()))
        }),
{
}

/// A bundle that has failed can fail again, and nothing changes.
pub proof fn law_failed_again(s: StateView, block_height: u32, m6id: M6id, later_height: u32)
    requires
        failed(s, block_height, m6id).1 is Ok,
    ensures
        ({
            let after = failed(s, block_height, m6id).0;
            failed(after, later_height, m6id) == (after, Ok::<(), Error>(()))
        }),
{
}

/// A bundle that was submitted cannot be submitted again. The error says at what height it was
/// submitted, and nothing changes.
pub proof fn law_submitted_not_again(
    s: StateView,
    block_height: u32,
    event_block_hash: BlockHash,
    m6id: M6id,
    later_height: u32,
    later_block_hash: BlockHash,
)
    requires
        submitted(s, block_height, event_block_hash, m6id).1 is Ok,
    ensures
        ({
            let after = submitted(s, block_height, event_block_hash, m6id).0;
            submitted(after, later_height, later_block_hash, m6id) == (
                after,
                Err::<(), _>(
                    ConnectWithdrawalBundleSubmitted::Resubmitted {
                        event_block_hash: later_block_hash,
                        m6id,
                        submitted_block_height: block_height,
                    },
                ),
            )
        }),
{
}

/// A bundle that was confirmed cannot be submitted again, unless it is the pending one, and nothing
/// changes.
pub proof fn law_confirmed_not_submitted(
    s: StateView,
    block_height: u32,
    event_block_hash: BlockHash,
    m6id: M6id,
    later_height: u32,
    later_block_hash: BlockHash,
)
    requires
        confirmed(s, block_height, event_block_hash, m6id).1 is Ok,
        s.pending_withdrawal_bundle != Some(m6id),
    ensures
        ({
            let after = confirmed(s, block_height, event_block_hash, m6id).0;
            submitted(after, later_height, later_block_hash, m6id) == (
                after,
                Err::<(), _>(
                    ConnectWithdrawalBundleSubmitted::ConfirmedResubmitted {
                        event_block_hash: later_block_hash,
                        m6id,
                    },
                ),
            )
        }),
{
}

/// The failure of a bundle gives back what its submission took, if that was unspent as the bundle
/// lists it.
pub proof fn law_failure_gives_back(
    s: StateView,
    block_height: u32,
    event_block_hash: BlockHash,
    m6id: M6id,
    later_height: u32,
)
    requires
        submitted(s, block_height, event_block_hash, m6id).1 is Ok,
        s.pending_withdrawal_bundle == Some(m6id),
        held(s, s.withdrawal_bundles[m6id].0->Known_0.spend_utxos),
    ensures
        ({
            let after = failed(
                submitted(s, block_height, event_block_hash, m6id).0,
                later_height,
                m6id,
            );
            &&& after.1 is Ok
            &&& after.0.utxos == s.utxos
            &&& after.0.stxos == s.stxos
        }),
{
    let after = failed(submitted(s, block_height, event_block_hash, m6id).0, later_height, m6id).0;
    assert(after.utxos =~= s.utxos);
    assert(after.stxos =~= s.stxos);
}

/// While a bundle is pending, no other is made.
pub proof fn law_one_bundle_pending(s: StateView, block_height: u32)
    requires
        s.pending_withdrawal_bundle is Some,
    ensures
        bundled(s, block_height) == (s, Ok::<(), Error>(())),
{
}

/// After a known bundle that was submitted as expected has failed, no bundle is made for
/// `WITHDRAWAL_BUNDLE_FAILURE_GAP` blocks.
pub proof fn law_no_bundle_after_failure(
    s: StateView,
    block_height: u32,
    m6id: M6id,
    later_height: u32,
)
    requires
        s.withdrawal_bundles.contains_key(m6id),
        s.withdrawal_bundles[m6id].0 is Known,
        s.withdrawal_bundles[m6id].1.last().value == WithdrawalBundleStatus::Submitted,
        later_height < block_height + WITHDRAWAL_BUNDLE_FAILURE_GAP,
    ensures
        ({
            let after = failed(s, block_height, m6id).0;
            bundled(after, later_height) == (after, Ok::<(), Error>(()))
        }),
{
}

/// A bundle that was just made can be submitted, at that height or above. What it spends is then
/// spent, and no bundle is pending any more.
pub proof fn law_made_bundle_submitted(
    s: StateView,
    block_height: u32,
    bundle: BundleView,
    later_height: u32,
    event_block_hash: BlockHash,
)
    requires
        collected(s.utxos, block_height) == Ok::<_, Error>(Some(bundle)),
        block_height <= later_height,
    ensures
        ({
            let m6id = m6id_of(bundle);
            let made = with_pending(s, block_height, bundle);
            let (after, r) = submitted(made, later_height, event_block_hash, m6id);
            &&& bundle.spend_utxos.submap_of(s.utxos)
            &&& submission_consistent(made, later_height, event_block_hash, m6id)
            &&& r is Ok
            &&& after.pending_withdrawal_bundle is None
            &&& after.utxos == s.utxos.remove_keys(bundle.spend_utxos.dom())
            &&& after.stxos == spent(
                s,
                bundle.spend_utxos,
                bundle.spend_utxos.dom(),
                m6id,
            ).stxos
        }),
{
}

} // verus!
