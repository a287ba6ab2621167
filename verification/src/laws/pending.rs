//! The pending withdrawal bundle.

use crate::connect::{
    connect_consistent, connect_event, connect_events, connected, event_consistent,
    events_consistent, submission_consistent, Progress,
};
use crate::data::EventView;
use crate::disconnect::{
    disconnect_consistent, disconnected, undo_event, undo_event_consistent, undo_events,
    undo_events_consistent,
};
use crate::output::{BlockHash, M6id};
use crate::state::{StateView, WithdrawalBundleStatus};
use vstd::prelude::*;

verus! {

/// Whether the pending bundle, if there is one, has a record as a known bundle that is pending.
pub open spec fn pending_recorded(s: StateView) -> bool {
    s.pending_withdrawal_bundle matches Some(m6id) ==> {
        let (info, statuses) = s.withdrawal_bundles[m6id];
        &&& s.withdrawal_bundles.contains_key(m6id)
        &&& info is Known
        &&& statuses.last().value == WithdrawalBundleStatus::Pending
    }
}

/// Connecting an event, whether it can be connected or not, keeps the record of the pending bundle.
pub proof fn law_event_keeps_pending(
    p: Progress,
    block_height: u32,
    event: (BlockHash, EventView),
)
    requires
        pending_recorded(p.state),
        event_consistent(p.state, block_height, event),
    ensures
        pending_recorded(connect_event(p, block_height, event).state),
{
}

proof fn lemma_events_keep_pending(
    s: StateView,
    block_height: u32,
    events: Seq<(BlockHash, EventView)>,
)
    requires
        pending_recorded(s),
        events_consistent(s, block_height, events),
    ensures
        pending_recorded(connect_events(s, block_height, events).state),
    decreases events.len(),
{
    if events.len() > 0 {
        lemma_events_keep_pending(s, block_height, events.drop_last());
        let p = connect_events(s, block_height, events.drop_last());
        if p.result is Ok {
            law_event_keeps_pending(p, block_height, events.last());
        }
    }
}

/// Connecting, whether it succeeds or not, keeps that the pending bundle is recorded as a known
/// bundle that is pending.
pub proof fn law_connecting_keeps_pending(s: StateView, events: Seq<(BlockHash, EventView)>)
    requires
        pending_recorded(s),
        connect_consistent(s, events),
    ensures
        pending_recorded(connected(s, events).0),
{
    if let Some(block_height) = s.height {
        lemma_events_keep_pending(s, block_height, events);
    }
}

/// The record of the pending bundle allows that its submission is connected, unless it is from a
/// later height.
pub proof fn law_pending_can_be_submitted(
    s: StateView,
    block_height: u32,
    event_block_hash: BlockHash,
    m6id: M6id,
)
    requires
        pending_recorded(s),
        s.pending_withdrawal_bundle == Some(m6id),
        s.withdrawal_bundles[m6id].1.last().height <= block_height,
    ensures
        submission_consistent(s, block_height, event_block_hash, m6id),
{
}

/// Undoing an event, whether it can be undone or not, keeps the record of the pending bundle.
pub proof fn law_undone_event_keeps_pending(
    p: Progress,
    block_height: u32,
    event: (BlockHash, EventView),
)
    requires
        pending_recorded(p.state),
        undo_event_consistent(p.state, block_height, event),
    ensures
        pending_recorded(undo_event(p, event).state),
{
}

proof fn lemma_undone_events_keep_pending(
    s: StateView,
    block_height: u32,
    events: Seq<(BlockHash, EventView)>,
)
    requires
        pending_recorded(s),
        undo_events_consistent(s, block_height, events),
    ensures
        pending_recorded(undo_events(s, events).state),
    decreases events.len(),
{
    if events.len() > 0 {
        lemma_undone_events_keep_pending(s, block_height, events.drop_first());
        let p = undo_events(s, events.drop_first());
        if p.result is Ok {
            law_undone_event_keeps_pending(p, block_height, events.first());
        }
    }
}

/// Disconnecting, whether it succeeds or not, keeps that the pending bundle is recorded as a known
/// bundle that is pending.
pub proof fn law_disconnecting_keeps_pending(s: StateView, events: Seq<(BlockHash, EventView)>)
    requires
        pending_recorded(s),
        disconnect_consistent(s, events),
    ensures
        pending_recorded(disconnected(s, events).0),
{
    lemma_undone_events_keep_pending(s, s.height->0, events);
}

} // verus!
