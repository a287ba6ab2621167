//! Connecting and disconnecting data that may not be consistent with the state.

use crate::collect::{collect_withdrawal_bundle, fees_fit};
use crate::connect::{
    bundling_consistent, confirmation_consistent, connect, connect_consistent, connect_in_order,
    connected, event_consistent, failure_consistent, is_submitted, last_block, next_index,
    note_blocks, refuse_submission, submission_consistent,
};
use crate::data::{BlockEvent, TwoWayPegData, WithdrawalBundleEventStatus};
use crate::disconnect::{
    disconnect, disconnect_consistent, disconnect_in_reverse, disconnected, last_noted, previous_is,
    unconfirmation_consistent, undo_bundle_block, undo_event_consistent, undo_pending,
    unfailure_consistent, unsubmission_consistent,
};
use crate::error::Error;
use crate::order::{same, Duplicate};
use crate::output::{BlockHash, M6id};
use crate::state::{
    State, WithdrawalBundleInfo, WithdrawalBundleStatus, WITHDRAWAL_BUNDLE_FAILURE_GAP,
};
use crate::table::Table;
use vstd::prelude::*;

verus! {

/// Whether a status says that a bundle is on its way on the mainchain.
fn on_its_way(status: WithdrawalBundleStatus) -> (b: bool)
    ensures
        b == is_submitted(status),
{
    status == WithdrawalBundleStatus::Submitted || status
        == WithdrawalBundleStatus::SubmittedUnexpected
}

/// Whether the submission of a bundle can be connected.
fn can_submit(state: &State, block_height: u32, event_block_hash: &BlockHash, m6id: M6id) -> (b:
    bool)
    ensures
        b == submission_consistent(state@, block_height, *event_block_hash, m6id),
{
    let (info, statuses) = match state.withdrawal_bundles.get(&m6id) {
        Some(record) => (&record.0, &record.1),
        None => {
            return true;
        },
    };
    let latest = *statuses.latest();
    let pending = match &state.pending_withdrawal_bundle {
        Some(p) => same(p, &m6id),
        None => false,
    };
    if pending {
        match info {
            WithdrawalBundleInfo::Known(bundle) => {
                !bundle.spend_utxos().is_covered_by(&state.utxos) || latest.height <= block_height
                    && latest.value == WithdrawalBundleStatus::Pending
            },
            _ => true,
        }
    } else {
        refuse_submission(info, latest, event_block_hash, m6id).is_some() || latest.height
            <= block_height
    }
}

/// Whether the confirmation of a bundle can be connected.
fn can_confirm(state: &State, block_height: u32, event_block_hash: &BlockHash, m6id: M6id) -> (b:
    bool)
    ensures
        b == confirmation_consistent(state@, block_height, *event_block_hash, m6id),
{
    let (info, statuses) = match state.withdrawal_bundles.get(&m6id) {
        Some(record) => (&record.0, &record.1),
        None => {
            return true;
        },
    };
    let latest = *statuses.latest();
    if latest.value == WithdrawalBundleStatus::Confirmed {
        return true;
    }
    let recorded = match info {
        WithdrawalBundleInfo::UnknownConfirmed { .. } => false,
        WithdrawalBundleInfo::Unknown => block_height == 0,
        WithdrawalBundleInfo::Known(bundle) => latest.value
            != WithdrawalBundleStatus::SubmittedUnexpected || bundle.spend_utxos().is_covered_by(
            &state.utxos,
        ),
    };
    on_its_way(latest.value) && (!recorded || latest.height <= block_height)
}

/// Whether the failure of a bundle can be connected.
fn can_fail(state: &State, block_height: u32, m6id: M6id) -> (b: bool)
    ensures
        b == failure_consistent(state@, block_height, m6id),
{
    let (info, statuses) = match state.withdrawal_bundles.get(&m6id) {
        Some(record) => (&record.0, &record.1),
        None => {
            return true;
        },
    };
    let latest = *statuses.latest();
    if latest.value == WithdrawalBundleStatus::Failed {
        return true;
    }
    let known = match info {
        WithdrawalBundleInfo::Known(_) => true,
        _ => false,
    };
    let follows = match state.get_latest_failed_withdrawal_bundle() {
        Some((height, _)) => height <= block_height,
        None => true,
    };
    on_its_way(latest.value) && latest.height <= block_height && (!known || latest.value
        != WithdrawalBundleStatus::Submitted || follows)
}

/// Whether an event can be connected.
pub(crate) fn can_connect_event(
    state: &State,
    block_height: u32,
    event_block_hash: &BlockHash,
    event: &BlockEvent,
) -> (b: bool)
    ensures
        b == event_consistent(state@, block_height, (*event_block_hash, event@)),
{
    match event {
        BlockEvent::Deposit(_) => true,
        BlockEvent::WithdrawalBundle(event) => match event.status {
            WithdrawalBundleEventStatus::Submitted => {
                can_submit(state, block_height, event_block_hash, event.m6id)
            },
            WithdrawalBundleEventStatus::Confirmed => {
                can_confirm(state, block_height, event_block_hash, event.m6id)
            },
            WithdrawalBundleEventStatus::Failed => can_fail(state, block_height, event.m6id),
        },
    }
}

/// Whether there is a number left for a block in a log.
fn has_index_left(log: &Table<u32, (BlockHash, u32)>) -> (b: bool)
    ensures
        b == (next_index(log@) <= u32::MAX),
{
    match last_block(log) {
        Some((k, _)) => k < u32::MAX,
        None => true,
    }
}

/// Whether a bundle can be made, if it is time to make one.
fn can_bundle(state: &State, block_height: u32) -> (b: bool)
    ensures
        b == bundling_consistent(state@, block_height),
{
    let last_withdrawal_bundle_failure_height: u32 =
        match state.get_latest_failed_withdrawal_bundle() {
        Some((height, _)) => height,
        None => 0,
    };
    if last_withdrawal_bundle_failure_height > block_height {
        return false;
    }
    if block_height - last_withdrawal_bundle_failure_height
        < WITHDRAWAL_BUNDLE_FAILURE_GAP || state.pending_withdrawal_bundle.is_some() {
        return true;
    }
    if !fees_fit(&state.utxos) {
        return false;
    }
    match collect_withdrawal_bundle(state, block_height) {
        Ok(Some(bundle)) => {
            match state.withdrawal_bundles.get(&bundle.compute_m6id()) {
                Some(record) => record.1.latest().height <= block_height,
                None => true,
            }
        },
        _ => true,
    }
}

/// Whether two-way peg data can be connected to the state.
pub fn can_connect(state: &State, two_way_peg_data: &TwoWayPegData) -> (b: bool)
    ensures
        b == connect_consistent(state@, two_way_peg_data@),
{
    let block_height = match state.height {
        Some(block_height) => block_height,
        None => {
            return true;
        },
    };
    let mut work = state.duplicate();
    match connect_in_order(&mut work, block_height, two_way_peg_data, true) {
        Some((deposit_block, bundle_event_block, Ok(()))) => {
            if deposit_block.is_some() && !has_index_left(&work.deposit_blocks) {
                return false;
            }
            if bundle_event_block.is_some() && !has_index_left(
                &work.withdrawal_bundle_event_blocks,
            ) {
                return false;
            }
            note_blocks(&mut work, deposit_block, bundle_event_block, block_height);
            can_bundle(&work, block_height)
        },
        Some((_, _, Err(_))) => true,
        None => false,
    }
}

/// Connects two-way peg data to the state, if it is consistent with it. Else nothing changes.
pub fn try_connect(state: &mut State, two_way_peg_data: &TwoWayPegData) -> (r: Option<
    Result<(), Error>,
>)
    ensures
        match r {
            Some(result) => {
                &&& connect_consistent(old(state)@, two_way_peg_data@)
                &&& (final(state)@, result) == connected(old(state)@, two_way_peg_data@)
            },
            None => {
                &&& !connect_consistent(old(state)@, two_way_peg_data@)
                &&& final(state)@ == old(state)@
            },
        },
{
    if can_connect(state, two_way_peg_data) {
        Some(connect(state, two_way_peg_data))
    } else {
        None
    }
}

/// Whether the submission of a bundle can be undone.
fn can_unsubmit(state: &State, block_height: u32, m6id: M6id) -> (b: bool)
    ensures
        b == unsubmission_consistent(state@, block_height, m6id),
{
    match state.withdrawal_bundles.get(&m6id) {
        Some(record) => {
            let latest = *record.1.latest();
            on_its_way(latest.value) && latest.height == block_height
        },
        None => true,
    }
}

/// Whether the confirmation of a bundle can be undone.
fn can_unconfirm(state: &State, block_height: u32, m6id: M6id) -> (b: bool)
    ensures
        b == unconfirmation_consistent(state@, block_height, m6id),
{
    match state.withdrawal_bundles.get(&m6id) {
        Some(record) => {
            let latest = *record.1.latest();
            on_its_way(latest.value) || latest.value == WithdrawalBundleStatus::Confirmed
                && latest.height == block_height && (previous_is(
                &record.1,
                WithdrawalBundleStatus::Submitted,
            ) || previous_is(&record.1, WithdrawalBundleStatus::SubmittedUnexpected))
        },
        None => true,
    }
}

/// Whether the failure of a bundle can be undone.
fn can_unfail(state: &State, block_height: u32, m6id: M6id) -> (b: bool)
    ensures
        b == unfailure_consistent(state@, block_height, m6id),
{
    let (info, statuses) = match state.withdrawal_bundles.get(&m6id) {
        Some(record) => (&record.0, &record.1),
        None => {
            return true;
        },
    };
    let latest = *statuses.latest();
    if latest.value == WithdrawalBundleStatus::Submitted {
        return true;
    }
    let expected = previous_is(statuses, WithdrawalBundleStatus::Submitted);
    let unexpected = previous_is(statuses, WithdrawalBundleStatus::SubmittedUnexpected);
    if latest.value != WithdrawalBundleStatus::Failed || latest.height != block_height || (
    !expected && !unexpected) {
        return false;
    }
    match info {
        WithdrawalBundleInfo::Known(bundle) => {
            if !expected || !bundle.spend_utxos().is_apart_from(&state.utxos) {
                return true;
            }
            match state.get_latest_failed_withdrawal_bundle() {
                Some((height, id)) => height == block_height && same(&id, &m6id),
                None => false,
            }
        },
        _ => true,
    }
}

/// Whether an event can be undone.
pub(crate) fn can_disconnect_event(
    state: &State,
    block_height: u32,
    event_block_hash: &BlockHash,
    event: &BlockEvent,
) -> (b: bool)
    ensures
        b == undo_event_consistent(state@, block_height, (*event_block_hash, event@)),
{
    match event {
        BlockEvent::Deposit(_) => true,
        BlockEvent::WithdrawalBundle(event) => match event.status {
            WithdrawalBundleEventStatus::Submitted => {
                can_unsubmit(state, block_height, event.m6id)
            },
            WithdrawalBundleEventStatus::Confirmed => {
                can_unconfirm(state, block_height, event.m6id)
            },
            WithdrawalBundleEventStatus::Failed => can_unfail(state, block_height, event.m6id),
        },
    }
}

/// Whether the last note in a log, if there is one, is of this block, at the height before this
/// one.
fn notes_last(
    log: &Table<u32, (BlockHash, u32)>,
    block: &Option<BlockHash>,
    block_height: u32,
) -> (b: bool)
    ensures
        b == last_noted(log@, *block, block_height),
{
    match (block, last_block(log)) {
        (Some(block), Some((_, (hash, height)))) => {
            same(block, &hash) && block_height > 0 && block_height - 1 == height
        },
        _ => true,
    }
}

/// Whether two-way peg data can be disconnected from the state.
pub fn can_disconnect(state: &State, two_way_peg_data: &TwoWayPegData) -> (b: bool)
    ensures
        b == disconnect_consistent(state@, two_way_peg_data@),
{
    let block_height = match state.height {
        Some(block_height) => block_height,
        None => {
            return false;
        },
    };
    let mut work = state.duplicate();
    let (deposit_block, bundle_event_block) = match disconnect_in_reverse(
        &mut work,
        block_height,
        two_way_peg_data,
        true,
    ) {
        Some((deposit_block, bundle_event_block, Ok(()))) => (deposit_block, bundle_event_block),
        Some((_, _, Err(_))) => {
            return true;
        },
        None => {
            return false;
        },
    };
    if !notes_last(&work.withdrawal_bundle_event_blocks, &bundle_event_block, block_height) {
        return false;
    }
    match undo_bundle_block(&mut work, bundle_event_block) {
        Ok(()) => {},
        Err(_) => {
            return true;
        },
    }
    let last_withdrawal_bundle_failure_height: u32 =
        match work.get_latest_failed_withdrawal_bundle() {
        Some((height, _)) => height,
        None => 0,
    };
    if last_withdrawal_bundle_failure_height > block_height {
        return false;
    }
    match undo_pending(&mut work, block_height) {
        Ok(()) => notes_last(&work.deposit_blocks, &deposit_block, block_height),
        Err(_) => true,
    }
}

/// Disconnects two-way peg data from the state, if it is consistent with it. Else nothing changes.
pub fn try_disconnect(state: &mut State, two_way_peg_data: &TwoWayPegData) -> (r: Option<
    Result<(), Error>,
>)
    ensures
        match r {
            Some(result) => {
                &&& disconnect_consistent(old(state)@, two_way_peg_data@)
                &&& (final(state)@, result) == disconnected(old(state)@, two_way_peg_data@)
            },
            None => {
                &&& !disconnect_consistent(old(state)@, two_way_peg_data@)
                &&& final(state)@ == old(state)@
            },
        },
{
    if can_disconnect(state, two_way_peg_data) {
        Some(disconnect(state, two_way_peg_data))
    } else {
        None
    }
}

} // verus!
