//! What connecting and disconnecting keep.

use crate::connect::{
    bundle_event, bundled, checkpointed, connect_consistent, connect_event, connect_events,
    connected, event_consistent, events_consistent, last_index, Progress,
};
use crate::data::{EventView, WithdrawalBundleEventStatus};
use crate::disconnect::{
    bundle_block_undone, bundle_undone, disconnect_consistent, disconnected, undo_event,
    undo_event_consistent, undo_events, undo_events_consistent,
};
use crate::laws::round_trip::{deposited, deposits_distinct, is_bundle_event};
use crate::output::{BlockHash, M6id, OutPoint};
use crate::rollback::HeightStamped;
use crate::state::{lemma_first_absent_exists, InfoView, StateView};
use vstd::prelude::*;

verus! {

/// Whether the heights of values never go down.
pub open spec fn heights_ascend<T>(values: Seq<HeightStamped<T>>) -> bool {
    &&& values.len() > 0
    &&& forall|i: int, j: int|
        0 <= i <= j < values.len() ==> (#[trigger] values[i]).height <= (
        #[trigger] values[j]).height
}

/// Whether the statuses of every bundle, and the failures, are in the order of their heights.
pub open spec fn orderly(s: StateView) -> bool {
    &&& forall|m6id: M6id| #[trigger]
        s.withdrawal_bundles.contains_key(m6id) ==> heights_ascend(s.withdrawal_bundles[m6id].1)
    &&& s.latest_failed_withdrawal_bundle matches Some(all) ==> heights_ascend(all)
}

proof fn lemma_ascend_push<T>(values: Seq<HeightStamped<T>>, value: T, height: u32)
    requires
        values.len() > 0 ==> heights_ascend(values) && values.last().height <= height,
    ensures
        heights_ascend(values.push(HeightStamped { value, height })),
{
    let more = values.push(HeightStamped { value, height });
    assert forall|i: int, j: int| 0 <= i <= j < more.len() implies (#[trigger] more[i]).height <= (
    #[trigger] more[j]).height by {
        if j == values.len() && i < j {
            assert(values[i].height <= values[values.len() - 1].height);
        }
    }
}

proof fn lemma_ascend_pop<T>(values: Seq<HeightStamped<T>>)
    requires
        heights_ascend(values),
        values.len() > 1,
    ensures
        heights_ascend(values.drop_last()),
{
    let fewer = values.drop_last();
    assert forall|i: int, j: int| 0 <= i <= j < fewer.len() implies (
    #[trigger] fewer[i]).height <= (#[trigger] fewer[j]).height by {
        assert(fewer[i] == values[i] && fewer[j] == values[j]);
    }
}

/// Connecting an event keeps statuses and failures in the order of their heights.
pub proof fn law_event_keeps_order(p: Progress, block_height: u32, event: (BlockHash, EventView))
    requires
        orderly(p.state),
        event_consistent(p.state, block_height, event),
    ensures
        orderly(connect_event(p, block_height, event).state),
{
    if let EventView::WithdrawalBundle(e) = event.1 {
        let s = p.state;
        let after = bundle_event(s, block_height, event.0, e).0;
        let old_statuses = if s.withdrawal_bundles.contains_key(e.m6id) {
            s.withdrawal_bundles[e.m6id].1
        } else {
            Seq::empty()
        };
        let statuses = after.withdrawal_bundles[e.m6id].1;
        if statuses != old_statuses && after.withdrawal_bundles.contains_key(e.m6id) {
            assert(statuses == old_statuses.push(statuses.last()));
            lemma_ascend_push(old_statuses, statuses.last().value, statuses.last().height);
        }
        if after.latest_failed_withdrawal_bundle != s.latest_failed_withdrawal_bundle {
            let old_failed = match s.latest_failed_withdrawal_bundle {
                Some(all) => all,
                None => Seq::empty(),
            };
            let all = after.latest_failed_withdrawal_bundle->0;
            assert(all =~= old_failed.push(all.last()));
            lemma_ascend_push(old_failed, all.last().value, all.last().height);
        }
    }
}

/// Connecting keeps statuses and failures in the order of their heights.
pub proof fn law_connecting_keeps_order(s: StateView, events: Seq<(BlockHash, EventView)>)
    requires
        orderly(s),
        connect_consistent(s, events),
    ensures
        orderly(connected(s, events).0),
{
    if let Some(block_height) = s.height {
        lemma_events_keep_order(s, block_height, events);
        let p = connect_events(s, block_height, events);
        if p.result is Ok {
            let noted = checkpointed(p, block_height);
            let after = bundled(noted, block_height).0;
            if after != noted {
                let m6id = after.pending_withdrawal_bundle->0;
                let old_statuses = if noted.withdrawal_bundles.contains_key(m6id) {
                    noted.withdrawal_bundles[m6id].1
                } else {
                    Seq::empty()
                };
                let statuses = after.withdrawal_bundles[m6id].1;
                assert(statuses == old_statuses.push(statuses.last()));
                lemma_ascend_push(old_statuses, statuses.last().value, statuses.last().height);
            }
        }
    }
}

proof fn lemma_events_keep_order(
    s: StateView,
    block_height: u32,
    events: Seq<(BlockHash, EventView)>,
)
    requires
        orderly(s),
        events_consistent(s, block_height, events),
    ensures
        orderly(connect_events(s, block_height, events).state),
    decreases events.len(),
{
    if events.len() > 0 {
        lemma_events_keep_order(s, block_height, events.drop_last());
        let p = connect_events(s, block_height, events.drop_last());
        if p.result is Ok {
            law_event_keeps_order(p, block_height, events.last());
        }
    }
}

/// Undoing an event keeps statuses and failures in the order of their heights.
pub proof fn law_undone_event_keeps_order(
    p: Progress,
    block_height: u32,
    event: (BlockHash, EventView),
)
    requires
        orderly(p.state),
        undo_event_consistent(p.state, block_height, event),
    ensures
        orderly(undo_event(p, event).state),
{
    if let EventView::WithdrawalBundle(e) = event.1 {
        let s = p.state;
        let statuses = s.withdrawal_bundles[e.m6id].1;
        if s.withdrawal_bundles.contains_key(e.m6id) && statuses.len() > 1 {
            lemma_ascend_pop(statuses);
        }
        if let Some(all) = s.latest_failed_withdrawal_bundle {
            if all.len() > 1 {
                lemma_ascend_pop(all);
            }
        }
    }
}

proof fn lemma_undone_events_keep_order(
    s: StateView,
    block_height: u32,
    events: Seq<(BlockHash, EventView)>,
)
    requires
        orderly(s),
        undo_events_consistent(s, block_height, events),
    ensures
        orderly(undo_events(s, events).state),
    decreases events.len(),
{
    if events.len() > 0 {
        lemma_undone_events_keep_order(s, block_height, events.drop_first());
        let p = undo_events(s, events.drop_first());
        if p.result is Ok {
            law_undone_event_keeps_order(p, block_height, events.first());
        }
    }
}

/// Disconnecting keeps statuses and failures in the order of their heights.
pub proof fn law_disconnecting_keeps_order(s: StateView, events: Seq<(BlockHash, EventView)>)
    requires
        orderly(s),
        disconnect_consistent(s, events),
    ensures
        orderly(disconnected(s, events).0),
{
    let block_height = s.height->0;
    lemma_undone_events_keep_order(s, block_height, events);
    let p = undo_events(s, events);
    let s1 = bundle_block_undone(p.state, p.bundle_event_block).0;
    if let Some(m6id) = s1.pending_withdrawal_bundle {
        let statuses = s1.withdrawal_bundles[m6id].1;
        if s1.withdrawal_bundles.contains_key(m6id) && statuses.len() > 1 {
            lemma_ascend_pop(statuses);
        }
    }
    assert(orderly(bundle_undone(s1, block_height).0));
}

/// Whether no output is both unspent and spent.
pub open spec fn apart(s: StateView) -> bool {
    s.utxos.dom().disjoint(s.stxos.dom())
}

/// Connecting an event, whether it can be connected or not, keeps that no output is both unspent
/// and spent, unless it is a deposit of an output that is spent.
pub proof fn law_event_keeps_apart(p: Progress, block_height: u32, event: (BlockHash, EventView))
    requires
        apart(p.state),
        event.1 is Deposit ==> !p.state.stxos.contains_key(deposited(event)),
    ensures
        apart(connect_event(p, block_height, event).state),
{
}

/// Whether no deposit among the events is of an output that is spent when it is connected.
pub open spec fn no_spent_deposits(
    s: StateView,
    block_height: u32,
    events: Seq<(BlockHash, EventView)>,
) -> bool
    decreases events.len(),
{
    events.len() > 0 ==> {
        let p = connect_events(s, block_height, events.drop_last());
        &&& no_spent_deposits(s, block_height, events.drop_last())
        &&& p.result is Ok && events.last().1 is Deposit ==> !p.state.stxos.contains_key(
            deposited(events.last()),
        )
    }
}

/// Connecting events, up to one that cannot be connected, keeps that no output is both unspent and
/// spent, unless one is a deposit of an output that is spent.
pub proof fn law_events_keep_apart(
    s: StateView,
    block_height: u32,
    events: Seq<(BlockHash, EventView)>,
)
    requires
        apart(s),
        no_spent_deposits(s, block_height, events),
    ensures
        apart(connect_events(s, block_height, events).state),
    decreases events.len(),
{
    if events.len() > 0 {
        law_events_keep_apart(s, block_height, events.drop_last());
        let p = connect_events(s, block_height, events.drop_last());
        if p.result is Ok {
            law_event_keeps_apart(p, block_height, events.last());
        }
    }
}

/// Connecting, whether it succeeds or not, keeps that no output is both unspent and spent, unless
/// there is a deposit of an output that is spent.
pub proof fn law_connecting_keeps_apart(s: StateView, events: Seq<(BlockHash, EventView)>)
    requires
        apart(s),
        s.height matches Some(block_height) ==> no_spent_deposits(s, block_height, events),
    ensures
        apart(connected(s, events).0),
{
    if let Some(block_height) = s.height {
        law_events_keep_apart(s, block_height, events);
    }
}

/// Deposits that are distinct, and of outputs that there are not yet, are of no output that is
/// spent.
pub proof fn law_new_deposits_not_spent(
    s: StateView,
    block_height: u32,
    events: Seq<(BlockHash, EventView)>,
)
    requires
        bundles_finite(s),
        deposits_distinct(events),
        forall|i: int|
            0 <= i < events.len() && (#[trigger] events[i]).1 is Deposit ==> !outputs_of(
                s,
            ).contains(deposited(events[i])) && !listed_by_failed(s, events, deposited(events[i])),
    ensures
        no_spent_deposits(s, block_height, events),
    decreases events.len(),
{
    if events.len() > 0 {
        let init = events.drop_last();
        let last = events.last();
        assert(forall|i: int| 0 <= i < init.len() ==> #[trigger] init[i] == events[i]);
        assert forall|i: int|
            0 <= i < init.len() && (#[trigger] init[i]).1 is Deposit implies !outputs_of(
            s,
        ).contains(deposited(init[i])) && !listed_by_failed(s, init, deposited(init[i])) by {
            assert(init[i] == events[i]);
            lemma_fewer_listed(s, events, deposited(init[i]));
        }
        assert(deposits_distinct(init)) by {
            assert forall|i: int, j: int|
                0 <= i < j < init.len() && (#[trigger] init[i]).1 is Deposit && (
                #[trigger] init[j]).1 is Deposit implies deposited(init[i]) != deposited(
                init[j],
            ) by {
                assert(init[i] == events[i] && init[j] == events[j]);
            }
        }
        law_new_deposits_not_spent(s, block_height, init);
        law_events_keep_outputs(s, block_height, init);
        assert(events[events.len() - 1] == last);
        if last.1 is Deposit {
            let o = deposited(last);
            lemma_fewer_listed(s, events, o);
            if newly_deposited(init, o) {
                let i = choose|i: int|
                    0 <= i < init.len() && (#[trigger] init[i]).1 is Deposit && deposited(init[i])
                        == o;
                assert(init[i] == events[i]);
            }
            let spent = connect_events(s, block_height, init).state;
            assert(spent.stxos.contains_key(o) ==> outputs_of(spent).contains(o));
        }
    }
}

/// Undoing an event that can be undone keeps that no output is both unspent and spent.
pub proof fn law_undone_event_keeps_apart(p: Progress, event: (BlockHash, EventView))
    requires
        apart(p.state),
        undo_event(p, event).result is Ok,
    ensures
        apart(undo_event(p, event).state),
{
}

/// All outputs, unspent or spent.
pub open spec fn outputs_of(s: StateView) -> Set<OutPoint> {
    s.utxos.dom().union(s.stxos.dom())
}

/// Whether every bundle that is known lists finitely many outputs. Every state is like this.
pub open spec fn bundles_finite(s: StateView) -> bool {
    forall|m6id: M6id| #[trigger] known_outputs(s, m6id).finite()
}

/// The outputs that a bundle lists, if it is known.
pub open spec fn known_outputs(s: StateView, m6id: M6id) -> Set<OutPoint> {
    match s.withdrawal_bundles[m6id].0 {
        InfoView::Known(bundle) if s.withdrawal_bundles.contains_key(
            m6id,
        ) => bundle.spend_utxos.dom(),
        _ => Set::empty(),
    }
}

/// Connecting an event, whether it can be connected or not, loses no output. None comes to be but
/// those of deposits and those that a failed bundle lists. What known bundles list stays.
pub proof fn law_event_keeps_outputs(
    p: Progress,
    block_height: u32,
    event: (BlockHash, EventView),
)
    requires
        bundles_finite(p.state),
    ensures
        ({
            let after = connect_event(p, block_height, event).state;
            match event.1 {
                EventView::Deposit { outpoint, .. } => outputs_of(after) == outputs_of(
                    p.state,
                ).insert(OutPoint::Deposit(outpoint)),
                EventView::WithdrawalBundle(e) => match e.status {
                    WithdrawalBundleEventStatus::Failed => {
                        &&& outputs_of(p.state).subset_of(outputs_of(after))
                        &&& outputs_of(after).subset_of(
                            outputs_of(p.state).union(known_outputs(p.state, e.m6id)),
                        )
                    },
                    _ => outputs_of(after) == outputs_of(p.state),
                },
            }
        }),
        forall|m6id: M6id| #[trigger]
            known_outputs(connect_event(p, block_height, event).state, m6id) == known_outputs(
                p.state,
                m6id,
            ),
{
    let after = connect_event(p, block_height, event).state;
    match event.1 {
        EventView::Deposit { outpoint, .. } => {
            assert(outputs_of(after) =~= outputs_of(p.state).insert(OutPoint::Deposit(outpoint)));
        },
        EventView::WithdrawalBundle(e) => {
            let keys = known_outputs(p.state, e.m6id);
            if e.status != WithdrawalBundleEventStatus::Failed {
                assert(keys.finite());
                if !keys.subset_of(p.state.utxos.dom()) {
                    lemma_first_absent_exists(keys, p.state.utxos.dom());
                }
                assert(outputs_of(after) =~= outputs_of(p.state));
            }
        },
    }
}

/// Whether one of the events is a deposit to an outpoint.
pub open spec fn newly_deposited(events: Seq<(BlockHash, EventView)>, o: OutPoint) -> bool {
    exists|i: int|
        0 <= i < events.len() && (#[trigger] events[i]).1 is Deposit && deposited(events[i]) == o
}

/// Whether an event is the failure of a known bundle that lists an outpoint.
pub open spec fn failure_lists(s: StateView, event: (BlockHash, EventView), o: OutPoint) -> bool {
    match event.1 {
        EventView::Deposit { .. } => false,
        EventView::WithdrawalBundle(e) => e.status == WithdrawalBundleEventStatus::Failed
            && known_outputs(s, e.m6id).contains(o),
    }
}

/// Whether one of the events is the failure of a known bundle that lists an outpoint.
pub open spec fn listed_by_failed(
    s: StateView,
    events: Seq<(BlockHash, EventView)>,
    o: OutPoint,
) -> bool {
    exists|i: int| 0 <= i < events.len() && failure_lists(s, #[trigger] events[i], o)
}

/// What fewer events deposit, and what the bundles that fail with them list, more do too.
proof fn lemma_fewer_listed(s: StateView, events: Seq<(BlockHash, EventView)>, o: OutPoint)
    requires
        events.len() > 0,
    ensures
        newly_deposited(events.drop_last(), o) ==> newly_deposited(events, o),
        listed_by_failed(s, events.drop_last(), o) ==> listed_by_failed(s, events, o),
{
    let init = events.drop_last();
    assert(forall|i: int| 0 <= i < init.len() ==> #[trigger] init[i] == events[i]);
}

/// Connecting events, up to one that cannot be connected, loses no output, and the outputs of
/// deposits come to be. No others do but those that a failed bundle lists.
pub proof fn law_events_keep_outputs(
    s: StateView,
    block_height: u32,
    events: Seq<(BlockHash, EventView)>,
)
    requires
        bundles_finite(s),
    ensures
        ({
            let p = connect_events(s, block_height, events);
            &&& outputs_of(s).subset_of(outputs_of(p.state))
            &&& forall|o: OutPoint|
                p.result is Ok && #[trigger] newly_deposited(events, o) ==> outputs_of(
                    p.state,
                ).contains(o)
            &&& forall|o: OutPoint| #[trigger]
                outputs_of(p.state).contains(o) ==> outputs_of(s).contains(o) || newly_deposited(
                    events,
                    o,
                ) || listed_by_failed(s, events, o)
            &&& forall|m6id: M6id| #[trigger]
                known_outputs(p.state, m6id) == known_outputs(s, m6id)
        }),
    decreases events.len(),
{
    if events.len() > 0 {
        let init = events.drop_last();
        let last = events.last();
        let p = connect_events(s, block_height, init);
        let q = connect_events(s, block_height, events);
        law_events_keep_outputs(s, block_height, init);
        assert(events[events.len() - 1] == last);
        assert(bundles_finite(p.state)) by {
            assert forall|m6id: M6id| #[trigger] known_outputs(p.state, m6id).finite() by {
                assert(known_outputs(s, m6id).finite());
            }
        }
        if p.result is Ok {
            law_event_keeps_outputs(p, block_height, last);
        }
        assert forall|o: OutPoint| #[trigger] outputs_of(q.state).contains(o) implies outputs_of(
            s,
        ).contains(o) || newly_deposited(events, o) || listed_by_failed(s, events, o) by {
            lemma_fewer_listed(s, events, o);
        }
        assert forall|o: OutPoint|
            q.result is Ok && #[trigger] newly_deposited(events, o) implies outputs_of(
            q.state,
        ).contains(o) by {
            let i = choose|i: int|
                0 <= i < events.len() && (#[trigger] events[i]).1 is Deposit && deposited(
                    events[i],
                ) == o;
            if i < init.len() {
                assert(init[i] == events[i]);
                assert(newly_deposited(init, o));
            }
        }
    }
}

/// Connecting, whether it succeeds or not, loses no output. None comes to be but those of deposits
/// and those that a failed bundle lists, and if it succeeds all those of deposits do.
pub proof fn law_connecting_keeps_outputs(s: StateView, events: Seq<(BlockHash, EventView)>)
    requires
        bundles_finite(s),
    ensures
        ({
            let (after, r) = connected(s, events);
            &&& outputs_of(s).subset_of(outputs_of(after))
            &&& forall|o: OutPoint|
                r is Ok && #[trigger] newly_deposited(events, o) ==> outputs_of(after).contains(o)
            &&& forall|o: OutPoint| #[trigger]
                outputs_of(after).contains(o) ==> outputs_of(s).contains(o) || newly_deposited(
                    events,
                    o,
                ) || listed_by_failed(s, events, o)
        }),
{
    if let Some(block_height) = s.height {
        law_events_keep_outputs(s, block_height, events);
        let p = connect_events(s, block_height, events);
        assert(outputs_of(connected(s, events).0) == outputs_of(p.state));
    }
}

proof fn lemma_events_keep_height(
    s: StateView,
    block_height: u32,
    events: Seq<(BlockHash, EventView)>,
)
    ensures
        connect_events(s, block_height, events).state.height == s.height,
    decreases events.len(),
{
    if events.len() > 0 {
        lemma_events_keep_height(s, block_height, events.drop_last());
    }
}

proof fn lemma_undone_events_keep(s: StateView, events: Seq<(BlockHash, EventView)>)
    ensures
        ({
            let p = undo_events(s, events);
            &&& p.state.height == s.height
            &&& p.state.withdrawal_bundle_event_blocks == s.withdrawal_bundle_event_blocks
            &&& p.state.deposit_blocks == s.deposit_blocks
            &&& p.result is Ok ==> (p.bundle_event_block is Some <==> exists|i: int|
                0 <= i < events.len() && is_bundle_event(#[trigger] events[i]))
            &&& p.result is Ok ==> (p.deposit_block is Some <==> exists|i: int|
                0 <= i < events.len() && !is_bundle_event(#[trigger] events[i]))
        }),
    decreases events.len(),
{
    if events.len() > 0 {
        let rest = events.drop_first();
        lemma_undone_events_keep(s, rest);
        assert forall|i: int| 0 <= i < rest.len() implies #[trigger] rest[i] == events[i + 1] by {}
        assert(forall|i: int| 0 < i < events.len() ==> #[trigger] events[i] == rest[i - 1]);
        assert(events[0] == events.first());
    }
}

/// Neither connecting nor disconnecting changes the height of the tip.
pub proof fn law_height_kept(s: StateView, events: Seq<(BlockHash, EventView)>)
    ensures
        connected(s, events).0.height == s.height,
        disconnected(s, events).0.height == s.height,
{
    if let Some(block_height) = s.height {
        lemma_events_keep_height(s, block_height, events);
    }
    lemma_undone_events_keep(s, events);
}

/// Disconnecting never changes the log of the blocks of bundle events.
pub proof fn law_bundle_event_blocks_kept(s: StateView, events: Seq<(BlockHash, EventView)>)
    ensures
        disconnected(s, events).0.withdrawal_bundle_event_blocks
            == s.withdrawal_bundle_event_blocks,
{
    lemma_undone_events_keep(s, events);
}

/// Disconnecting events of bundles takes the last number in the log of their blocks out of the log
/// of deposit blocks.
pub proof fn law_deposit_block_removed(
    s: StateView,
    events: Seq<(BlockHash, EventView)>,
)
    requires
        events.len() > 0,
        forall|i: int| 0 <= i < events.len() ==> is_bundle_event(#[trigger] events[i]),
        disconnected(s, events).1 is Ok,
    ensures
        s.deposit_blocks.contains_key(last_index(s.withdrawal_bundle_event_blocks)),
        disconnected(s, events).0.deposit_blocks == s.deposit_blocks.remove(
            last_index(s.withdrawal_bundle_event_blocks),
        ),
{
    lemma_undone_events_keep(s, events);
    assert(is_bundle_event(events[0]));
}

} // verus!
