//! Disconnecting two-way peg data.

use crate::connect::{
    is_submitted, last_block, last_failure_height, last_index, recorded, start, Progress,
};
use crate::data::{
    block_events, events_of, lemma_blocks_grow, lemma_events_prefix, BlockEvent, EventView,
    TwoWayPegData, WithdrawalBundleEvent, WithdrawalBundleEventStatus,
};
use crate::error::{Error, NoUtxo, PendingWithdrawalBundleUnknown};
use crate::guard::can_disconnect_event;
use crate::order::same;
use crate::output::{BlockHash, M6id, OutPoint, OutputView};
use crate::rollback::{HeightStamped, RollBack};
use crate::state::{
    first_absent, keys_after, keys_before, last_absent, last_present, spent, unspent,
    InfoView, State, StateView, Statuses, WithdrawalBundleInfo, WithdrawalBundleStatus,
    WITHDRAWAL_BUNDLE_FAILURE_GAP,
};
use vstd::prelude::*;

verus! {

/// The state with the record of a bundle taken back to its earlier statuses. Without any, there is
/// no record.
pub open spec fn rolled_back(
    s: StateView,
    m6id: M6id,
    info: InfoView,
    earlier: Seq<HeightStamped<WithdrawalBundleStatus>>,
) -> StateView {
    if earlier.len() > 0 {
        recorded(s, m6id, info, earlier)
    } else {
        StateView { withdrawal_bundles: s.withdrawal_bundles.remove(m6id), ..s }
    }
}

/// What undoing the submission of a bundle does.
///
/// If there is no record of the pending bundle there is nothing to undo. If a known bundle was
/// pending when it was submitted, what it spent has to be spent; then it is unspent, and the bundle
/// is pending again.
pub open spec fn unsubmitted(s: StateView, m6id: M6id) -> (StateView, Result<(), Error>) {
    let (info, statuses) = s.withdrawal_bundles[m6id];
    let earlier = statuses.drop_last();
    if !s.withdrawal_bundles.contains_key(m6id) {
        (
            s,
            if s.pending_withdrawal_bundle == Some(m6id) {
                Ok(())
            } else {
                Err(Error::UnknownWithdrawalBundle { m6id })
            },
        )
    } else if info is Known && earlier.len() > 0 && earlier.last().value
        == WithdrawalBundleStatus::Pending {
        let outputs = info->Known_0.spend_utxos;
        let keys = outputs.dom();
        if keys.subset_of(s.stxos.dom()) {
            let after = unspent(s, outputs, keys, keys);
            (
                StateView {
                    pending_withdrawal_bundle: Some(m6id),
                    ..rolled_back(after, m6id, info, earlier)
                },
                Ok(()),
            )
        } else {
            let outpoint = last_absent(keys, s.stxos.dom());
            let done = keys_after(keys, outpoint);
            (unspent(s, outputs, done, done), Err(Error::NoStxo { outpoint }))
        }
    } else {
        (rolled_back(s, m6id, info, earlier), Ok(()))
    }
}

/// Whether the record of a bundle allows that its submission is undone: it was last submitted, at
/// this height.
pub open spec fn unsubmission_consistent(s: StateView, block_height: u32, m6id: M6id) -> bool {
    let latest = s.withdrawal_bundles[m6id].1.last();
    s.withdrawal_bundles.contains_key(m6id) ==> {
        &&& is_submitted(latest.value)
        &&& latest.height == block_height
    }
}

/// What undoing a bundle's spending of outputs does, and the error where one of them is not spent.
pub open spec fn given_back(s: StateView, outputs: Map<OutPoint, OutputView>) -> (
    StateView,
    Result<(), Error>,
) {
    let keys = outputs.dom();
    if keys.subset_of(s.stxos.dom()) {
        (unspent(s, outputs, keys, keys), Ok(()))
    } else {
        let outpoint = first_absent(keys, s.stxos.dom());
        let done = keys_before(keys, outpoint);
        (unspent(s, outputs, done.insert(outpoint), done), Err(Error::NoStxo { outpoint }))
    }
}

/// What undoing the confirmation of a bundle does.
///
/// A bundle that is submitted and not confirmed is left as it is. What the confirmation spent has
/// to be spent; then it is unspent. A bundle that was confirmed unknown is unknown again.
pub open spec fn unconfirmed(s: StateView, m6id: M6id) -> (StateView, Result<(), Error>) {
    let (info, statuses) = s.withdrawal_bundles[m6id];
    let earlier = statuses.drop_last();
    if !s.withdrawal_bundles.contains_key(m6id) {
        (s, Err(Error::UnknownWithdrawalBundle { m6id }))
    } else if is_submitted(statuses.last().value) {
        (s, Ok(()))
    } else {
        let (after, r) = match info {
            InfoView::Known(bundle) => if earlier.last().value
                == WithdrawalBundleStatus::SubmittedUnexpected {
                given_back(s, bundle.spend_utxos)
            } else {
                (s, Ok(()))
            },
            InfoView::UnknownConfirmed { spend_utxos } => given_back(s, spend_utxos),
            InfoView::Unknown => (s, Ok(())),
        };
        let earlier_info = if info is UnknownConfirmed {
            InfoView::Unknown
        } else {
            info
        };
        if r is Ok {
            (recorded(after, m6id, earlier_info, earlier), r)
        } else {
            (after, r)
        }
    }
}

/// Whether the record of a bundle allows that its confirmation is undone: it is submitted, or it
/// was confirmed at this height after it was submitted.
pub open spec fn unconfirmation_consistent(s: StateView, block_height: u32, m6id: M6id) -> bool {
    let statuses = s.withdrawal_bundles[m6id].1;
    let latest = statuses.last();
    s.withdrawal_bundles.contains_key(m6id) ==> {
        ||| is_submitted(latest.value)
        ||| {
            &&& latest.value == WithdrawalBundleStatus::Confirmed
            &&& latest.height == block_height
            &&& statuses.len() > 1
            &&& is_submitted(statuses.drop_last().last().value)
        }
    }
}

/// The bundles that failed, without the last.
pub open spec fn without_failed(failed: Seq<HeightStamped<M6id>>) -> Option<
    Seq<HeightStamped<M6id>>,
> {
    if failed.len() > 1 {
        Some(failed.drop_last())
    } else {
        None
    }
}

/// What undoing the failure of a bundle does.
///
/// A bundle that is submitted and has not failed is left as it is. If a known bundle was submitted
/// as expected, what it spends is marked as spent, from the last output to the first, and none of
/// it may be unspent; then the bundle is no longer the one that failed last.
pub open spec fn unfailed(s: StateView, m6id: M6id) -> (StateView, Result<(), Error>) {
    let (info, statuses) = s.withdrawal_bundles[m6id];
    let earlier = statuses.drop_last();
    if !s.withdrawal_bundles.contains_key(m6id) {
        (s, Err(Error::UnknownWithdrawalBundle { m6id }))
    } else if statuses.last().value == WithdrawalBundleStatus::Submitted {
        (s, Ok(()))
    } else if info is Known && earlier.last().value
        != WithdrawalBundleStatus::SubmittedUnexpected {
        let outputs = info->Known_0.spend_utxos;
        let keys = outputs.dom();
        if keys.disjoint(s.utxos.dom()) {
            let after = spent(s, outputs, keys, m6id);
            (
                StateView {
                    latest_failed_withdrawal_bundle: without_failed(
                        s.latest_failed_withdrawal_bundle->0,
                    ),
                    ..recorded(after, m6id, info, earlier)
                },
                Ok(()),
            )
        } else {
            let outpoint = last_present(keys, s.utxos.dom());
            (
                spent(s, outputs, keys_after(keys, outpoint).insert(outpoint), m6id),
                Err(Error::NoUtxo(NoUtxo { outpoint })),
            )
        }
    } else {
        (recorded(s, m6id, info, earlier), Ok(()))
    }
}

/// Whether the record of a bundle allows that its failure is undone: it is submitted, or it failed
/// at this height after it was submitted, and it is the bundle that failed last where that is to be
/// undone.
pub open spec fn unfailure_consistent(s: StateView, block_height: u32, m6id: M6id) -> bool {
    let (info, statuses) = s.withdrawal_bundles[m6id];
    let latest = statuses.last();
    let earlier = statuses.drop_last();
    s.withdrawal_bundles.contains_key(m6id) ==> {
        ||| latest.value == WithdrawalBundleStatus::Submitted
        ||| {
            &&& latest.value == WithdrawalBundleStatus::Failed
            &&& latest.height == block_height
            &&& statuses.len() > 1
            &&& is_submitted(earlier.last().value)
            &&& info is Known && earlier.last().value == WithdrawalBundleStatus::Submitted
                && unfailed(s, m6id).1 is Ok ==> {
                &&& s.latest_failed_withdrawal_bundle is Some
                &&& s.latest_failed_withdrawal_bundle->0.last() == (HeightStamped {
                    value: m6id,
                    height: block_height,
                })
            }
        }
    }
}

/// What undoing an event of a withdrawal bundle does.
pub open spec fn undo_bundle_event(s: StateView, event: WithdrawalBundleEvent) -> (
    StateView,
    Result<(), Error>,
) {
    match event.status {
        WithdrawalBundleEventStatus::Submitted => unsubmitted(s, event.m6id),
        WithdrawalBundleEventStatus::Confirmed => unconfirmed(s, event.m6id),
        WithdrawalBundleEventStatus::Failed => unfailed(s, event.m6id),
    }
}

/// Whether the record of a bundle allows that an event of it is undone.
pub open spec fn undo_bundle_event_consistent(
    s: StateView,
    block_height: u32,
    event: WithdrawalBundleEvent,
) -> bool {
    match event.status {
        WithdrawalBundleEventStatus::Submitted => unsubmission_consistent(
            s,
            block_height,
            event.m6id,
        ),
        WithdrawalBundleEventStatus::Confirmed => unconfirmation_consistent(
            s,
            block_height,
            event.m6id,
        ),
        WithdrawalBundleEventStatus::Failed => unfailure_consistent(s, block_height, event.m6id),
    }
}

/// What undoing an event does. The output of a deposit has to be unspent, and is removed.
pub open spec fn undo_event(p: Progress, event: (BlockHash, EventView)) -> Progress {
    let (hash, e) = event;
    match e {
        EventView::Deposit { outpoint, .. } => {
            let outpoint = OutPoint::Deposit(outpoint);
            if p.state.utxos.contains_key(outpoint) {
                Progress {
                    state: StateView { utxos: p.state.utxos.remove(outpoint), ..p.state },
                    deposit_block: Some(hash),
                    ..p
                }
            } else {
                Progress { result: Err(Error::NoUtxo(NoUtxo { outpoint })), ..p }
            }
        },
        EventView::WithdrawalBundle(e) => {
            let (state, result) = undo_bundle_event(p.state, e);
            Progress {
                state,
                bundle_event_block: if result is Ok {
                    Some(hash)
                } else {
                    p.bundle_event_block
                },
                result,
                ..p
            }
        },
    }
}

/// Whether an event is consistent with the state that it is disconnected from.
pub open spec fn undo_event_consistent(
    s: StateView,
    block_height: u32,
    event: (BlockHash, EventView),
) -> bool {
    match event.1 {
        EventView::Deposit { .. } => true,
        EventView::WithdrawalBundle(e) => undo_bundle_event_consistent(s, block_height, e),
    }
}

/// What undoing events does, from the last to the first, up to one that cannot be undone.
pub open spec fn undo_events(s: StateView, events: Seq<(BlockHash, EventView)>) -> Progress
    decreases events.len(),
{
    if events.len() == 0 {
        start(s)
    } else {
        let p = undo_events(s, events.drop_first());
        if p.result is Ok {
            undo_event(p, events.first())
        } else {
            p
        }
    }
}

/// Whether each event that is undone is consistent with the state that it is disconnected from.
pub open spec fn undo_events_consistent(
    s: StateView,
    block_height: u32,
    events: Seq<(BlockHash, EventView)>,
) -> bool
    decreases events.len(),
{
    events.len() > 0 ==> {
        let p = undo_events(s, events.drop_first());
        &&& undo_events_consistent(s, block_height, events.drop_first())
        &&& p.result is Ok ==> undo_event_consistent(p.state, block_height, events.first())
    }
}

/// What undoing the note of the last bundle event's block does. The number of that note is taken
/// out of the log of deposit blocks, and has to be there.
pub open spec fn bundle_block_undone(s: StateView, block: Option<BlockHash>) -> (
    StateView,
    Result<(), Error>,
) {
    let index = last_index(s.withdrawal_bundle_event_blocks);
    if block is None {
        (s, Ok(()))
    } else if s.withdrawal_bundle_event_blocks == Map::<u32, (BlockHash, u32)>::empty()
        || !s.deposit_blocks.contains_key(index) {
        (s, Err(Error::NoWithdrawalBundleEventBlock))
    } else {
        (StateView { deposit_blocks: s.deposit_blocks.remove(index), ..s }, Ok(()))
    }
}

/// Whether the last note in a log, if there is one, is of this block, at the height before this
/// one.
pub open spec fn last_noted(
    log: Map<u32, (BlockHash, u32)>,
    block: Option<BlockHash>,
    block_height: u32,
) -> bool {
    let (hash, height) = log[last_index(log)];
    block is Some && log != Map::<u32, (BlockHash, u32)>::empty() ==> {
        &&& block == Some(hash)
        &&& block_height - 1 == height
    }
}

/// What undoing the making of a bundle does: if no bundle has failed lately and the pending bundle
/// was made at the height before this one, none is pending any more, and its record is taken back.
pub open spec fn bundle_undone(s: StateView, block_height: u32) -> (StateView, Result<(), Error>) {
    if block_height - last_failure_height(s) > WITHDRAWAL_BUNDLE_FAILURE_GAP
        && s.pending_withdrawal_bundle is Some {
        let m6id = s.pending_withdrawal_bundle->0;
        let (info, statuses) = s.withdrawal_bundles[m6id];
        if !s.withdrawal_bundles.contains_key(m6id) {
            (
                s,
                Err(
                    Error::PendingWithdrawalBundleUnknown(PendingWithdrawalBundleUnknown(m6id)),
                ),
            )
        } else if statuses.last().height == block_height - 1 {
            (
                StateView {
                    pending_withdrawal_bundle: None,
                    ..rolled_back(s, m6id, info, statuses.drop_last())
                },
                Ok(()),
            )
        } else {
            (s, Ok(()))
        }
    } else {
        (s, Ok(()))
    }
}

/// What undoing the note of the last deposit's block does: it is taken out of the log of deposit
/// blocks.
pub open spec fn deposit_block_undone(s: StateView, block: Option<BlockHash>) -> (
    StateView,
    Result<(), Error>,
) {
    if block is None {
        (s, Ok(()))
    } else if s.deposit_blocks == Map::<u32, (BlockHash, u32)>::empty() {
        (s, Err(Error::NoDepositBlock))
    } else {
        let deposit_blocks = s.deposit_blocks.remove(last_index(s.deposit_blocks));
        (StateView { deposit_blocks, ..s }, Ok(()))
    }
}

/// What disconnecting two-way peg data does: its events are undone from the last to the first, then
/// the note of the last bundle event's block, the making of a bundle, and the note of the last
/// deposit's block.
pub open spec fn disconnected(s: StateView, events: Seq<(BlockHash, EventView)>) -> (
    StateView,
    Result<(), Error>,
) {
    let block_height = s.height->0;
    let p = undo_events(s, events);
    let (s1, r1) = bundle_block_undone(p.state, p.bundle_event_block);
    let (s2, r2) = bundle_undone(s1, block_height);
    if p.result is Err {
        (p.state, p.result)
    } else if r1 is Err {
        (s1, r1)
    } else if r2 is Err {
        (s2, r2)
    } else {
        deposit_block_undone(s2, p.deposit_block)
    }
}

/// Whether two-way peg data is consistent with the state that it is disconnected from.
pub open spec fn disconnect_consistent(s: StateView, events: Seq<(BlockHash, EventView)>) -> bool {
    let block_height = s.height->0;
    let p = undo_events(s, events);
    let (s1, r1) = bundle_block_undone(p.state, p.bundle_event_block);
    let (s2, r2) = bundle_undone(s1, block_height);
    &&& s.height is Some
    &&& undo_events_consistent(s, block_height, events)
    &&& p.result is Ok ==> {
        &&& last_noted(p.state.withdrawal_bundle_event_blocks, p.bundle_event_block, block_height)
        &&& r1 is Ok ==> {
            &&& last_failure_height(s1) <= block_height
            &&& r2 is Ok ==> last_noted(s2.deposit_blocks, p.deposit_block, block_height)
        }
    }
}

/// Puts back the record of a bundle with its earlier statuses, if there are any.
fn put_earlier(
    state: &mut State,
    m6id: M6id,
    info: WithdrawalBundleInfo,
    earlier: Option<RollBack<HeightStamped<WithdrawalBundleStatus>>>,
    Ghost(statuses): Ghost<Seq<HeightStamped<WithdrawalBundleStatus>>>,
)
    requires
        !old(state)@.withdrawal_bundles.contains_key(m6id),
        statuses.len() > 0,
        match earlier {
            Some(rest) => statuses.len() > 1 && rest@ == statuses.drop_last(),
            None => statuses.len() == 1,
        },
    ensures
        final(state)@ == rolled_back(old(state)@, m6id, info@, statuses.drop_last()),
{
    if let Some(earlier) = earlier {
        state.withdrawal_bundles.put(m6id, (info, earlier));
    } else {
        assert(state@.withdrawal_bundles =~= state@.withdrawal_bundles.remove(m6id));
    }
}

/// Whether a bundle had a certain status before its latest.
pub fn previous_is(statuses: &Statuses, status: WithdrawalBundleStatus) -> (b: bool)
    ensures
        statuses@.len() > 0,
        b == (statuses@.len() > 1 && statuses@.drop_last().last().value == status),
{
    match statuses.previous() {
        Some(previous) => previous.value == status,
        None => false,
    }
}

/// Undoes the submission of a bundle.
pub fn disconnect_withdrawal_bundle_submitted(
    state: &mut State,
    block_height: u32,
    m6id: M6id,
) -> (r: Result<(), Error>)
    requires
        unsubmission_consistent(old(state)@, block_height, m6id),
    ensures
        (final(state)@, r) == unsubmitted(old(state)@, m6id),
{
    let ghost s = state@;
    let (info, statuses) = match state.withdrawal_bundles.remove(&m6id) {
        Some(record) => record,
        None => {
            assert(state@ =~= s);
            let pending = match &state.pending_withdrawal_bundle {
                Some(p) => same(p, &m6id),
                None => false,
            };
            if pending {
                // Already applied
                return Ok(());
            } else {
                return Err(Error::UnknownWithdrawalBundle { m6id });
            }
        },
    };
    let ghost all = statuses@;
    let was_pending = previous_is(&statuses, WithdrawalBundleStatus::Pending);
    if let WithdrawalBundleInfo::Known(bundle) = &info {
        if was_pending {
            match state.unspend_in_reverse(bundle.spend_utxos()) {
                Ok(()) => {},
                Err(outpoint) => {
                    state.withdrawal_bundles.put(m6id, (info, statuses));
                    assert(state@ =~= unsubmitted(s, m6id).0);
                    return Err(Error::NoStxo { outpoint });
                },
            }
            state.pending_withdrawal_bundle = Some(m6id);
        }
    }
    let (earlier, _) = statuses.pop();
    put_earlier(state, m6id, info, earlier, Ghost(all));
    assert(state@ =~= unsubmitted(s, m6id).0);
    Ok(())
}

/// Undoes the confirmation of a bundle.
pub fn disconnect_withdrawal_bundle_confirmed(
    state: &mut State,
    block_height: u32,
    m6id: M6id,
) -> (r: Result<(), Error>)
    requires
        unconfirmation_consistent(old(state)@, block_height, m6id),
    ensures
        (final(state)@, r) == unconfirmed(old(state)@, m6id),
{
    let ghost s = state@;
    let (mut info, statuses) = match state.withdrawal_bundles.remove(&m6id) {
        Some(record) => record,
        None => {
            assert(state@ =~= s);
            return Err(Error::UnknownWithdrawalBundle { m6id });
        },
    };
    let ghost all = statuses@;
    let latest = statuses.latest().value;
    if latest == WithdrawalBundleStatus::Submitted || latest
        == WithdrawalBundleStatus::SubmittedUnexpected {
        // Already applied
        state.withdrawal_bundles.put(m6id, (info, statuses));
        assert(state@ =~= s);
        return Ok(());
    }
    let unexpected = previous_is(&statuses, WithdrawalBundleStatus::SubmittedUnexpected);
    match &info {
        WithdrawalBundleInfo::Known(bundle) => {
            if unexpected {
                match state.unspend_in_order(bundle.spend_utxos()) {
                    Ok(()) => {},
                    Err(outpoint) => {
                        state.withdrawal_bundles.put(m6id, (info, statuses));
                        assert(state@ =~= unconfirmed(s, m6id).0);
                        return Err(Error::NoStxo { outpoint });
                    },
                }
            }
        },
        WithdrawalBundleInfo::UnknownConfirmed { spend_utxos } => {
            match state.unspend_in_order(spend_utxos) {
                Ok(()) => {},
                Err(outpoint) => {
                    state.withdrawal_bundles.put(m6id, (info, statuses));
                    assert(state@ =~= unconfirmed(s, m6id).0);
                    return Err(Error::NoStxo { outpoint });
                },
            }
            info = WithdrawalBundleInfo::Unknown;
        },
        WithdrawalBundleInfo::Unknown => {},
    }
    let (earlier, _) = statuses.pop();
    put_earlier(state, m6id, info, earlier, Ghost(all));
    assert(state@ =~= unconfirmed(s, m6id).0);
    Ok(())
}

/// Undoes the failure of a bundle.
pub fn disconnect_withdrawal_bundle_failed(
    state: &mut State,
    block_height: u32,
    m6id: M6id,
) -> (r: Result<(), Error>)
    requires
        unfailure_consistent(old(state)@, block_height, m6id),
    ensures
        (final(state)@, r) == unfailed(old(state)@, m6id),
{
    let ghost s = state@;
    let (info, statuses) = match state.withdrawal_bundles.remove(&m6id) {
        Some(record) => record,
        None => {
            assert(state@ =~= s);
            return Err(Error::UnknownWithdrawalBundle { m6id });
        },
    };
    let ghost all = statuses@;
    if statuses.latest().value == WithdrawalBundleStatus::Submitted {
        // Already applied
        state.withdrawal_bundles.put(m6id, (info, statuses));
        assert(state@ =~= s);
        return Ok(());
    }
    let unexpected = previous_is(&statuses, WithdrawalBundleStatus::SubmittedUnexpected);
    if let WithdrawalBundleInfo::Known(bundle) = &info {
        if !unexpected {
            match state.respend_in_reverse(bundle.spend_utxos(), m6id) {
                Ok(()) => {},
                Err(outpoint) => {
                    state.withdrawal_bundles.put(m6id, (info, statuses));
                    assert(state@ =~= unfailed(s, m6id).0);
                    return Err(Error::NoUtxo(NoUtxo { outpoint }));
                },
            }
            let mut failed: Option<RollBack<HeightStamped<M6id>>> = None;
            std::mem::swap(&mut failed, &mut state.latest_failed_withdrawal_bundle);
            if let Some(failed) = failed {
                let (earlier_failed, _) = failed.pop();
                state.latest_failed_withdrawal_bundle = earlier_failed;
            }
        }
    }
    let (earlier, _) = statuses.pop();
    put_earlier(state, m6id, info, earlier, Ghost(all));
    assert(state@ =~= unfailed(s, m6id).0);
    Ok(())
}

/// Undoes an event of a bundle.
pub fn disconnect_withdrawal_bundle_event(
    state: &mut State,
    block_height: u32,
    event: &WithdrawalBundleEvent,
) -> (r: Result<(), Error>)
    requires
        undo_bundle_event_consistent(old(state)@, block_height, *event),
    ensures
        (final(state)@, r) == undo_bundle_event(old(state)@, *event),
{
    match event.status {
        WithdrawalBundleEventStatus::Submitted => {
            disconnect_withdrawal_bundle_submitted(state, block_height, event.m6id)
        },
        WithdrawalBundleEventStatus::Confirmed => {
            disconnect_withdrawal_bundle_confirmed(state, block_height, event.m6id)
        },
        WithdrawalBundleEventStatus::Failed => {
            disconnect_withdrawal_bundle_failed(state, block_height, event.m6id)
        },
    }
}

/// Undoes an event, and notes its block as that of the last deposit or bundle event.
pub fn disconnect_event(
    state: &mut State,
    block_height: u32,
    latest_deposit_block_hash: &mut Option<BlockHash>,
    latest_withdrawal_bundle_event_block_hash: &mut Option<BlockHash>,
    event_block_hash: BlockHash,
    event: &BlockEvent,
) -> (r: Result<(), Error>)
    requires
        undo_event_consistent(old(state)@, block_height, (event_block_hash, event@)),
    ensures
        (Progress {
            state: final(state)@,
            deposit_block: *final(latest_deposit_block_hash),
            bundle_event_block: *final(latest_withdrawal_bundle_event_block_hash),
            result: r,
        }) == undo_event(
            Progress {
                state: old(state)@,
                deposit_block: *old(latest_deposit_block_hash),
                bundle_event_block: *old(latest_withdrawal_bundle_event_block_hash),
                result: Ok(()),
            },
            (event_block_hash, event@),
        ),
{
    let ghost s = state@;
    match event {
        BlockEvent::Deposit(deposit) => {
            let outpoint = OutPoint::Deposit(deposit.outpoint);
            if !state.utxos.delete(&outpoint) {
                assert(state@ =~= s);
                return Err(Error::NoUtxo(NoUtxo { outpoint }));
            }
            *latest_deposit_block_hash = Some(event_block_hash);
        },
        BlockEvent::WithdrawalBundle(event) => {
            match disconnect_withdrawal_bundle_event(state, block_height, event) {
                Ok(()) => {},
                Err(e) => {
                    return Err(e);
                },
            }
            *latest_withdrawal_bundle_event_block_hash = Some(event_block_hash);
        },
    }
    Ok(())
}

/// That undoing events is consistent holds of each suffix of them. An error in a suffix is that of
/// all, and then nothing that is before it matters.
pub proof fn lemma_suffix_consistent(
    s: StateView,
    block_height: u32,
    events: Seq<(BlockHash, EventView)>,
    n: int,
)
    requires
        0 <= n <= events.len(),
    ensures
        undo_events_consistent(s, block_height, events) ==> undo_events_consistent(
            s,
            block_height,
            events.skip(n),
        ),
        undo_events(s, events.skip(n)).result is Err ==> {
            &&& undo_events(s, events) == undo_events(s, events.skip(n))
            &&& undo_events_consistent(s, block_height, events.skip(n)) ==> undo_events_consistent(
                s,
                block_height,
                events,
            )
        },
    decreases n,
{
    if n == 0 {
        assert(events.skip(0) =~= events);
    } else {
        lemma_suffix_consistent(s, block_height, events, n - 1);
        assert(events.skip(n - 1).drop_first() =~= events.skip(n));
    }
}

/// Undoes the making of a bundle.
pub fn undo_pending(state: &mut State, block_height: u32) -> (r: Result<(), Error>)
    requires
        last_failure_height(old(state)@) <= block_height,
    ensures
        (final(state)@, r) == bundle_undone(old(state)@, block_height),
{
    let ghost s = state@;
    let last_withdrawal_bundle_failure_height: u32 =
        match state.get_latest_failed_withdrawal_bundle() {
        Some((height, _)) => height,
        None => 0,
    };
    if block_height - last_withdrawal_bundle_failure_height > WITHDRAWAL_BUNDLE_FAILURE_GAP {
        if let Some(m6id) = state.pending_withdrawal_bundle {
            let (info, statuses) = match state.withdrawal_bundles.remove(&m6id) {
                Some(record) => record,
                None => {
                    assert(state@ =~= s);
                    let e = PendingWithdrawalBundleUnknown(m6id);
                    return Err(Error::PendingWithdrawalBundleUnknown(e));
                },
            };
            let ghost all = statuses@;
            if statuses.latest().height == block_height - 1 {
                state.pending_withdrawal_bundle = None;
                let (earlier, _) = statuses.pop();
                put_earlier(state, m6id, info, earlier, Ghost(all));
                assert(state@ =~= bundle_undone(s, block_height).0);
            } else {
                state.withdrawal_bundles.put(m6id, (info, statuses));
                assert(state@ =~= s);
            }
        }
    }
    Ok(())
}

/// Undoes all events, from the last to the first, up to one that cannot be undone. Returns the
/// blocks of the first deposit and of the first bundle event, and the error if there is one. If
/// `guarded`, each event is first held against the state, and nothing is returned if one is not
/// consistent with it.
pub(crate) fn disconnect_in_reverse(
    state: &mut State,
    block_height: u32,
    two_way_peg_data: &TwoWayPegData,
    guarded: bool,
) -> (r: Option<(Option<BlockHash>, Option<BlockHash>, Result<(), Error>)>)
    requires
        guarded || undo_events_consistent(old(state)@, block_height, two_way_peg_data@),
    ensures
        match r {
            Some((deposit_block, bundle_event_block, result)) => {
                &&& undo_events_consistent(old(state)@, block_height, two_way_peg_data@)
                &&& undo_events(old(state)@, two_way_peg_data@) == (Progress {
                    state: final(state)@,
                    deposit_block,
                    bundle_event_block,
                    result,
                })
            },
            None => !undo_events_consistent(old(state)@, block_height, two_way_peg_data@),
        },
{
    let ghost s = state@;
    let ghost events = two_way_peg_data@;
    let blocks = &two_way_peg_data.block_info;
    let mut latest_deposit_block_hash: Option<BlockHash> = None;
    let mut latest_withdrawal_bundle_event_block_hash: Option<BlockHash> = None;
    let mut i: usize = blocks.len();
    proof {
        assert(blocks@.take(i as int) =~= blocks@);
        assert(events.skip(events.len() as int) =~= Seq::empty());
    }
    while i > 0
        invariant
            blocks == &two_way_peg_data.block_info,
            events == events_of(blocks@),
            guarded || undo_events_consistent(s, block_height, events),
            undo_events_consistent(
                s,
                block_height,
                events.skip(events_of(blocks@.take(i as int)).len() as int),
            ),
            s == old(state)@,
            events == two_way_peg_data@,
            i <= blocks@.len(),
            undo_events(s, events.skip(events_of(blocks@.take(i as int)).len() as int)) == (
            Progress {
                state: state@,
                deposit_block: latest_deposit_block_hash,
                bundle_event_block: latest_withdrawal_bundle_event_block_hash,
                result: Ok(()),
            }),
        decreases i,
    {
        i = i - 1;
        let block = &blocks[i];
        let block_events_list = &block.1.events;
        let mut j: usize = block_events_list.len();
        proof {
            lemma_blocks_grow(blocks@, i as int);
        }
        while j > 0
            invariant
                blocks == &two_way_peg_data.block_info,
                events == events_of(blocks@),
                guarded || undo_events_consistent(s, block_height, events),
                undo_events_consistent(
                    s,
                    block_height,
                    events.skip(
                        (events_of(blocks@.take(i as int)) + block_events(
                            *block,
                            j as int,
                        )).len() as int,
                    ),
                ),
                s == old(state)@,
                events == two_way_peg_data@,
                i < blocks@.len(),
                *block == blocks@[i as int],
                block_events_list == &block.1.events,
                j <= block_events_list@.len(),
                undo_events(
                    s,
                    events.skip(
                        (events_of(blocks@.take(i as int)) + block_events(
                            *block,
                            j as int,
                        )).len() as int,
                    ),
                ) == (Progress {
                    state: state@,
                    deposit_block: latest_deposit_block_hash,
                    bundle_event_block: latest_withdrawal_bundle_event_block_hash,
                    result: Ok(()),
                }),
            decreases j,
        {
            let ghost upto = events_of(blocks@.take(i as int)) + block_events(*block, j as int);
            j = j - 1;
            let event = &block_events_list[j];
            proof {
                let n = upto.len() - 1;
                lemma_events_prefix(blocks@, i as int, j + 1);
                assert(upto[n] == (block.0, event@));
                assert(events[n] == events.take(upto.len() as int)[n]);
                assert(events.skip(n).drop_first() =~= events.skip(n + 1));
                assert(events.skip(n).first() == (block.0, event@));
                assert((events_of(blocks@.take(i as int)) + block_events(*block, j as int)).len()
                    == n);
                lemma_suffix_consistent(s, block_height, events, n);
            }
            if guarded && !can_disconnect_event(state, block_height, &block.0, event) {
                return None;
            }
            match disconnect_event(
                state,
                block_height,
                &mut latest_deposit_block_hash,
                &mut latest_withdrawal_bundle_event_block_hash,
                block.0,
                event,
            ) {
                Ok(()) => {},
                Err(e) => {
                    return Some(
                        (
                            latest_deposit_block_hash,
                            latest_withdrawal_bundle_event_block_hash,
                            Err(e),
                        ),
                    );
                },
            }
        }
        proof {
            lemma_blocks_grow(blocks@, i as int);
        }
    }
    proof {
        assert(events_of(blocks@.take(0)) =~= Seq::empty());
        assert(events.skip(0) =~= events);
    }
    Some((latest_deposit_block_hash, latest_withdrawal_bundle_event_block_hash, Ok(())))
}

/// Undoes the note of the last bundle event's block.
pub(crate) fn undo_bundle_block(state: &mut State, block: Option<BlockHash>) -> (r: Result<
    (),
    Error,
>)
    ensures
        (final(state)@, r) == bundle_block_undone(old(state)@, block),
{
    let ghost s = state@;
    if block.is_some() {
        match last_block(&state.withdrawal_bundle_event_blocks) {
            Some((index, _)) => {
                if !state.deposit_blocks.delete(&index) {
                    assert(state@ =~= s);
                    return Err(Error::NoWithdrawalBundleEventBlock);
                }
            },
            None => {
                return Err(Error::NoWithdrawalBundleEventBlock);
            },
        }
    }
    Ok(())
}

/// Disconnects two-way peg data from the state.
pub fn disconnect(state: &mut State, two_way_peg_data: &TwoWayPegData) -> (r: Result<(), Error>)
    requires
        disconnect_consistent(old(state)@, two_way_peg_data@),
    ensures
        (final(state)@, r) == disconnected(old(state)@, two_way_peg_data@),
{
    let block_height = match state.height {
        Some(block_height) => block_height,
        None => {
            assert(false);
            0
        },
    };
    let (deposit_block, bundle_event_block) = match disconnect_in_reverse(
        state,
        block_height,
        two_way_peg_data,
        false,
    ) {
        Some((deposit_block, bundle_event_block, Ok(()))) => (deposit_block, bundle_event_block),
        Some((_, _, Err(e))) => {
            return Err(e);
        },
        None => {
            assert(false);
            (None, None)
        },
    };
    match undo_bundle_block(state, bundle_event_block) {
        Ok(()) => {},
        Err(e) => {
            return Err(e);
        },
    }
    match undo_pending(state, block_height) {
        Ok(()) => {},
        Err(e) => {
            return Err(e);
        },
    }
    if deposit_block.is_some() {
        match last_block(&state.deposit_blocks) {
            Some((index, _)) => {
                if !state.deposit_blocks.delete(&index) {
                    return Err(Error::NoDepositBlock);
                }
            },
            None => {
                return Err(Error::NoDepositBlock);
            },
        }
    }
    Ok(())
}

} // verus!
