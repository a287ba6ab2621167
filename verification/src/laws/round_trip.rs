//! Disconnecting what was connected, one block later.

use crate::bundle::m6id_of;
use crate::collect::collected;
use crate::connect::{
    bundle_due, checkpointed, connect_consistent, connect_event, connect_events, connected,
    is_last_index, last_failure_height, last_index, logged, next_index, with_pending,
};
use crate::data::EventView;
use crate::disconnect::{
    bundle_undone, disconnect_consistent, disconnected, lemma_suffix_consistent,
    undo_event_consistent, undo_events, undo_events_consistent,
};
use crate::error::Error;
use crate::laws::undoing::{all_undoable, has_statuses, law_events_undone};
use crate::output::{BlockHash, M6id, OutPoint};
use crate::state::{InfoView, StateView, WITHDRAWAL_BUNDLE_FAILURE_GAP};
use vstd::prelude::*;

verus! {

/// The state with its tip at a height.
pub open spec fn at_height(s: StateView, height: u32) -> StateView {
    StateView { height: Some(height), ..s }
}

/// Where the output of a deposit is.
pub open spec fn deposited(event: (BlockHash, EventView)) -> OutPoint {
    OutPoint::Deposit(event.1->Deposit_outpoint)
}

/// Whether one of the events, all of them deposits, has its output at an outpoint.
pub open spec fn deposits_to(events: Seq<(BlockHash, EventView)>, o: OutPoint) -> bool {
    exists|i: int| 0 <= i < events.len() && deposited(#[trigger] events[i]) == o
}

/// Whether all events are deposits.
pub open spec fn deposits_only(events: Seq<(BlockHash, EventView)>) -> bool {
    forall|i: int| 0 <= i < events.len() ==> (#[trigger] events[i]).1 is Deposit
}

/// Whether no two of the events are deposits with one outpoint.
pub open spec fn deposits_distinct(events: Seq<(BlockHash, EventView)>) -> bool {
    forall|i: int, j: int|
        0 <= i < j < events.len() && (#[trigger] events[i]).1 is Deposit && (
        #[trigger] events[j]).1 is Deposit ==> deposited(events[i]) != deposited(events[j])
}

/// Whether no output of a deposit among the events is unspent.
pub open spec fn deposits_new(s: StateView, events: Seq<(BlockHash, EventView)>) -> bool {
    forall|i: int|
        0 <= i < events.len() && (#[trigger] events[i]).1 is Deposit ==> !s.utxos.contains_key(
            deposited(events[i]),
        )
}

/// What connecting deposits does.
proof fn lemma_deposits_connected(
    s: StateView,
    block_height: u32,
    events: Seq<(BlockHash, EventView)>,
)
    requires
        deposits_only(events),
        deposits_distinct(events),
        deposits_new(s, events),
    ensures
        ({
            let p = connect_events(s, block_height, events);
            &&& p.result is Ok
            &&& p.state == (StateView { utxos: p.state.utxos, ..s })
            &&& forall|o: OutPoint| #[trigger]
                p.state.utxos.contains_key(o) ==> s.utxos.contains_key(o) || deposits_to(events, o)
            &&& p.bundle_event_block is None
            &&& p.deposit_block == if events.len() > 0 {
                Some(events.last().0)
            } else {
                None
            }
            &&& all_undoable(s, block_height, events)
        }),
    decreases events.len(),
{
    if events.len() > 0 {
        let init = events.drop_last();
        assert forall|i: int, j: int|
            0 <= i < j < init.len() && (#[trigger] init[i]).1 is Deposit && (
            #[trigger] init[j]).1 is Deposit implies deposited(init[i]) != deposited(init[j]) by {
            assert(init[i] == events[i] && init[j] == events[j]);
        }
        assert forall|i: int|
            0 <= i < init.len() && (
            #[trigger] init[i]).1 is Deposit implies !s.utxos.contains_key(deposited(init[i])) by {
            assert(init[i] == events[i]);
        }
        lemma_deposits_connected(s, block_height, init);
        let p = connect_events(s, block_height, init);
        let q = connect_events(s, block_height, events);
        let last = events.last();
        assert(events[events.len() - 1] == last);
        if p.state.utxos.contains_key(deposited(last)) {
            let i = choose|i: int|
                0 <= i < init.len() && deposited(#[trigger] init[i]) == deposited(last);
            assert(events[i] == init[i]);
        }
        let unspent = q.state.utxos;
        assert forall|o: OutPoint| #[trigger] unspent.contains_key(o) implies s.utxos.contains_key(
            o,
        ) || deposits_to(events, o) by {
            if o == deposited(last) {
                assert(deposited(events[events.len() - 1]) == o);
            } else {
                assert(p.state.utxos.contains_key(o));
                if !s.utxos.contains_key(o) {
                    let i = choose|i: int|
                        0 <= i < init.len() && deposited(#[trigger] init[i]) == o;
                    assert(deposited(events[i]) == o);
                }
            }
        }
    }
}

proof fn lemma_deposits_unspent(
    s: StateView,
    block_height: u32,
    events: Seq<(BlockHash, EventView)>,
)
    requires
        deposits_only(events),
        deposits_distinct(events),
    ensures
        ({
            let utxos = connect_events(s, block_height, events).state.utxos;
            &&& connect_events(s, block_height, events).result is Ok
            &&& forall|i: int|
                0 <= i < events.len() ==> utxos.contains_key(deposited(#[trigger] events[i]))
                    && utxos[deposited(events[i])] == events[i].1->Deposit_output
            &&& forall|o: OutPoint|
                !deposits_to(events, o) ==> (#[trigger] utxos.contains_key(o)
                    == s.utxos.contains_key(o)) && (s.utxos.contains_key(o) ==> utxos[o]
                    == s.utxos[o])
        }),
    decreases events.len(),
{
    if events.len() > 0 {
        let init = events.drop_last();
        let last = events.last();
        assert forall|i: int| 0 <= i < init.len() implies #[trigger] init[i] == events[i] by {}
        assert(deposits_distinct(init)) by {
            assert forall|i: int, j: int|
                0 <= i < j < init.len() && (#[trigger] init[i]).1 is Deposit && (
                #[trigger] init[j]).1 is Deposit implies deposited(init[i]) != deposited(
                init[j],
            ) by {
                assert(init[i] == events[i] && init[j] == events[j]);
            }
        }
        lemma_deposits_unspent(s, block_height, init);
        let before_last = connect_events(s, block_height, init).state.utxos;
        let utxos = connect_events(s, block_height, events).state.utxos;
        assert(events[events.len() - 1] == last);
        assert(utxos == before_last.insert(deposited(last), last.1->Deposit_output));
        assert forall|i: int| 0 <= i < events.len() implies utxos.contains_key(
            deposited(#[trigger] events[i]),
        ) && utxos[deposited(events[i])] == events[i].1->Deposit_output by {
            if i < init.len() {
                assert(init[i] == events[i]);
            }
        }
        assert forall|o: OutPoint|
            !deposits_to(events, o) implies (#[trigger] utxos.contains_key(o)
            == s.utxos.contains_key(o)) && (s.utxos.contains_key(o) ==> utxos[o]
            == s.utxos[o]) by {
            assert(deposited(events[events.len() - 1]) != o);
            if deposits_to(init, o) {
                let i = choose|i: int| 0 <= i < init.len() && deposited(#[trigger] init[i]) == o;
                assert(deposited(events[i]) == o);
            }
            assert(before_last.contains_key(o) == s.utxos.contains_key(o));
        }
    }
}

/// Connecting deposits makes the output of each unspent, and changes no other unspent output.
pub proof fn law_deposits_unspent(s: StateView, events: Seq<(BlockHash, EventView)>)
    requires
        s.height is Some,
        deposits_only(events),
        deposits_distinct(events),
    ensures
        ({
            let utxos = connected(s, events).0.utxos;
            &&& forall|i: int|
                0 <= i < events.len() ==> utxos.contains_key(deposited(#[trigger] events[i]))
                    && utxos[deposited(events[i])] == events[i].1->Deposit_output
            &&& forall|o: OutPoint|
                !deposits_to(events, o) ==> (#[trigger] utxos.contains_key(o)
                    == s.utxos.contains_key(o)) && (s.utxos.contains_key(o) ==> utxos[o]
                    == s.utxos[o])
        }),
{
    lemma_deposits_unspent(s, s.height->0, events);
}

/// Undoing deposits looks at the unspent outputs only.
proof fn lemma_deposits_undone(
    s: StateView,
    t: StateView,
    block_height: u32,
    events: Seq<(BlockHash, EventView)>,
)
    requires
        deposits_only(events),
        s.utxos == t.utxos,
    ensures
        ({
            let p = undo_events(s, events);
            let q = undo_events(t, events);
            &&& undo_events_consistent(t, block_height, events)
            &&& q.result == p.result
            &&& q.state == (StateView { utxos: p.state.utxos, ..t })
            &&& q.bundle_event_block is None
            &&& q.result is Ok ==> q.deposit_block == if events.len() > 0 {
                Some(events.first().0)
            } else {
                None
            }
        }),
    decreases events.len(),
{
    if events.len() > 0 {
        let rest = events.drop_first();
        assert forall|i: int| 0 <= i < rest.len() implies (#[trigger] rest[i]).1 is Deposit by {
            assert(rest[i] == events[i + 1]);
        }
        lemma_deposits_undone(s, t, block_height, rest);
        assert(events[0] == events.first());
    }
}

/// If a log holds a block with a number up to `n`, and none with a greater number, it has a last
/// number.
proof fn lemma_last_index_below(log: Map<u32, (BlockHash, u32)>, k: u32, n: u32)
    requires
        log.contains_key(k),
        k <= n,
        forall|q: u32| #[trigger] log.contains_key(q) ==> q <= n,
    ensures
        exists|l: u32| is_last_index(log, l),
    decreases n,
{
    if log.contains_key(n) {
        assert(is_last_index(log, n));
    } else {
        assert forall|q: u32| #[trigger] log.contains_key(q) implies q <= (n - 1) as u32 by {
            assert(q != n);
        }
        lemma_last_index_below(log, k, (n - 1) as u32);
    }
}

/// A log with a block has a last number.
pub proof fn lemma_last_index_exists(log: Map<u32, (BlockHash, u32)>)
    requires
        log != Map::<u32, (BlockHash, u32)>::empty(),
    ensures
        is_last_index(log, last_index(log)),
{
    if forall|k: u32| !log.contains_key(k) {
        assert(log =~= Map::<u32, (BlockHash, u32)>::empty());
    }
    let k = choose|k: u32| log.contains_key(k);
    assert(log.contains_key(k));
    lemma_last_index_below(log, k, u32::MAX);
}

/// A block that is noted in a log is the last of it, and taking it out gives back the log.
proof fn lemma_logged_last(
    log: Map<u32, (BlockHash, u32)>,
    block: BlockHash,
    block_height: u32,
)
    requires
        next_index(log) <= u32::MAX,
    ensures
        ({
            let noted = logged(log, Some(block), block_height);
            &&& noted != Map::<u32, (BlockHash, u32)>::empty()
            &&& noted[last_index(noted)] == (block, block_height)
            &&& noted.remove(last_index(noted)) == log
        }),
{
    let noted = logged(log, Some(block), block_height);
    let next = next_index(log) as u32;
    if log =~= Map::<u32, (BlockHash, u32)>::empty() {
    } else {
        lemma_last_index_exists(log);
    }
    assert(!log.contains_key(next));
    assert(noted.contains_key(next));
    assert(is_last_index(noted, next));
    assert(is_last_index(noted, last_index(noted)));
    assert(last_index(noted) == next);
    assert(noted.remove(next) =~= log);
}

/// What is left to be undone one block after deposits were connected, when the events and the
/// making of a bundle are undone: the note of their block.
proof fn lemma_deposits_undone_up_to_note(
    s: StateView,
    block_height: u32,
    events: Seq<(BlockHash, EventView)>,
)
    requires
        deposits_can_go(s, block_height, events),
    ensures
        ({
            let next = (block_height + 1) as u32;
            let after = at_height(connected(s, events).0, next);
            let p = connect_events(s, block_height, events);
            let q = undo_events(after, events);
            &&& undo_events_consistent(after, next, events)
            &&& q.result is Ok
            &&& q.bundle_event_block is None
            &&& q.deposit_block == if events.len() > 0 {
                Some(events.first().0)
            } else {
                None
            }
            &&& p.deposit_block == if events.len() > 0 {
                Some(events.last().0)
            } else {
                None
            }
            &&& next_index(s.deposit_blocks) <= u32::MAX || events.len() == 0
            &&& last_failure_height(q.state) <= next
            &&& bundle_undone(q.state, next) == (
                StateView {
                    deposit_blocks: logged(s.deposit_blocks, p.deposit_block, block_height),
                    ..at_height(s, next)
                },
                Ok::<(), Error>(()),
            )
        }),
{
    let next = (block_height + 1) as u32;
    let p = connect_events(s, block_height, events);
    lemma_deposits_connected(s, block_height, events);
    law_events_undone(s, block_height, events);
    let noted = checkpointed(p, block_height);
    let after = at_height(connected(s, events).0, next);
    lemma_deposits_undone(p.state, after, next, events);
    let q = undo_events(after, events);
    assert(q.state == (StateView { utxos: s.utxos, ..after }));
    let r = bundle_undone(q.state, next).0;
    let expected = StateView { deposit_blocks: noted.deposit_blocks, ..at_height(s, next) };
    assert(last_failure_height(q.state) == last_failure_height(s));
    if bundle_due(noted, block_height) && collected(noted.utxos, block_height) matches Ok(
        Some(bundle),
    ) {
        let bundle = collected(noted.utxos, block_height)->Ok_0->Some_0;
        let m6id = m6id_of(bundle);
        let statuses = q.state.withdrawal_bundles[m6id].1;
        assert(after == at_height(with_pending(noted, block_height, bundle), next));
        if s.withdrawal_bundles.contains_key(m6id) {
            assert(statuses.drop_last() =~= s.withdrawal_bundles[m6id].1);
        } else {
            assert(statuses.drop_last() =~= Seq::empty());
        }
        assert(r =~= expected);
    } else {
        assert(after == at_height(noted, next));
        assert(r =~= expected);
    }
}

/// Whether deposits, and a bundle that is made with them, can be undone one block later.
///
/// Their outputs must be new and distinct. A bundle that was pending before must be recorded, at
/// another height than that of the deposits. If a bundle is made with the deposits, an earlier
/// record of it must be of the same bundle.
pub open spec fn deposits_can_go(
    s: StateView,
    block_height: u32,
    events: Seq<(BlockHash, EventView)>,
) -> bool {
    &&& has_statuses(s)
    &&& s.height == Some(block_height)
    &&& block_height < u32::MAX
    &&& deposits_only(events)
    &&& deposits_distinct(events)
    &&& deposits_new(s, events)
    &&& connect_consistent(s, events)
    &&& connected(s, events).1 is Ok
    &&& block_height - last_failure_height(s) >= WITHDRAWAL_BUNDLE_FAILURE_GAP ==> (
    s.pending_withdrawal_bundle matches Some(m6id) ==> {
        &&& s.withdrawal_bundles.contains_key(m6id)
        &&& s.withdrawal_bundles[m6id].1.last().height != block_height
    })
    &&& bundle_due(s, block_height) ==> (collected(
        connect_events(s, block_height, events).state.utxos,
        block_height,
    ) matches Ok(Some(bundle)) ==> s.withdrawal_bundles.contains_key(m6id_of(bundle))
        ==> s.withdrawal_bundles[m6id_of(bundle)].0 == InfoView::Known(bundle))
}

/// Disconnecting deposits from one mainchain block, one block after they were connected, gives back
/// the state before them.
pub proof fn law_deposits_disconnected(
    s: StateView,
    block_height: u32,
    events: Seq<(BlockHash, EventView)>,
)
    requires
        deposits_can_go(s, block_height, events),
        events.len() > 0 ==> events.first().0 == events.last().0,
    ensures
        ({
            let after = at_height(connected(s, events).0, (block_height + 1) as u32);
            &&& disconnect_consistent(after, events)
            &&& disconnected(after, events) == (
                at_height(s, (block_height + 1) as u32),
                Ok::<(), Error>(()),
            )
        }),
{
    lemma_deposits_undone_up_to_note(s, block_height, events);
    if events.len() > 0 {
        lemma_logged_last(s.deposit_blocks, events.last().0, block_height);
    }
}

/// Deposits that begin in one mainchain block and end in another cannot be disconnected one block
/// after they were connected: the block of the last is noted, and that of the first is looked for.
pub proof fn law_deposits_of_blocks_not_disconnected(
    s: StateView,
    block_height: u32,
    events: Seq<(BlockHash, EventView)>,
)
    requires
        deposits_can_go(s, block_height, events),
        events.len() > 0,
        events.first().0 != events.last().0,
    ensures
        !disconnect_consistent(
            at_height(connected(s, events).0, (block_height + 1) as u32),
            events,
        ),
{
    lemma_deposits_undone_up_to_note(s, block_height, events);
    lemma_logged_last(s.deposit_blocks, events.last().0, block_height);
}

/// Whether no bundle has a status from above a height.
pub open spec fn statuses_up_to(s: StateView, block_height: u32) -> bool {
    forall|m6id: M6id| #[trigger]
        s.withdrawal_bundles.contains_key(m6id) ==> s.withdrawal_bundles[m6id].1.last().height
            <= block_height
}

/// Whether an event is of a bundle.
pub open spec fn is_bundle_event(event: (BlockHash, EventView)) -> bool {
    event.1 is WithdrawalBundle
}

/// Connecting events keeps that no status is from above their height.
proof fn lemma_statuses_up_to_kept(
    s: StateView,
    block_height: u32,
    events: Seq<(BlockHash, EventView)>,
)
    requires
        statuses_up_to(s, block_height),
    ensures
        statuses_up_to(connect_events(s, block_height, events).state, block_height),
    decreases events.len(),
{
    if events.len() > 0 {
        lemma_statuses_up_to_kept(s, block_height, events.drop_last());
        let p = connect_events(s, block_height, events.drop_last());
        let q = connect_event(p, block_height, events.last());
        assert(statuses_up_to(q.state, block_height));
    }
}

/// Connecting events that end in deposits: the outputs of those are unspent, and the bundles are as
/// before them.
proof fn lemma_ends_in_deposits(
    s: StateView,
    block_height: u32,
    events: Seq<(BlockHash, EventView)>,
    k: int,
)
    requires
        0 <= k <= events.len(),
        deposits_only(events.skip(k)),
        connect_events(s, block_height, events).result is Ok,
    ensures
        ({
            let p = connect_events(s, block_height, events.take(k));
            let q = connect_events(s, block_height, events);
            &&& p.result is Ok
            &&& q.state == (StateView { utxos: q.state.utxos, ..p.state })
            &&& forall|i: int|
                k <= i < events.len() ==> q.state.utxos.contains_key(
                    deposited(#[trigger] events[i]),
                )
        }),
    decreases events.len(),
{
    if k == events.len() {
        assert(events.take(k) =~= events);
    } else {
        let init = events.drop_last();
        let last = events.last();
        assert(events.skip(k)[events.len() - 1 - k] == last);
        assert forall|i: int| 0 <= i < init.skip(k).len() implies (
        #[trigger] init.skip(k)[i]).1 is Deposit by {
            assert(init.skip(k)[i] == events.skip(k)[i]);
        }
        lemma_ends_in_deposits(s, block_height, init, k);
        assert(init.take(k) =~= events.take(k));
        let q = connect_events(s, block_height, events);
        assert forall|i: int| k <= i < events.len() implies q.state.utxos.contains_key(
            deposited(#[trigger] events[i]),
        ) by {
            if i < events.len() - 1 {
                assert(init[i] == events[i]);
            }
        }
    }
}

/// Deposits whose outputs are unspent and distinct can be undone.
proof fn lemma_unspent_deposits_undone(
    s: StateView,
    block_height: u32,
    events: Seq<(BlockHash, EventView)>,
)
    requires
        deposits_only(events),
        deposits_distinct(events),
        forall|i: int|
            0 <= i < events.len() ==> s.utxos.contains_key(deposited(#[trigger] events[i])),
    ensures
        ({
            let p = undo_events(s, events);
            &&& p.result is Ok
            &&& p.state == (StateView { utxos: p.state.utxos, ..s })
            &&& forall|o: OutPoint| #[trigger]
                s.utxos.contains_key(o) && !p.state.utxos.contains_key(o) ==> deposits_to(events, o)
        }),
    decreases events.len(),
{
    if events.len() > 0 {
        let rest = events.drop_first();
        let first = events.first();
        assert(events[0] == first);
        assert forall|i: int| 0 <= i < rest.len() implies {
            &&& (#[trigger] rest[i]).1 is Deposit
            &&& s.utxos.contains_key(deposited(rest[i]))
            &&& deposited(rest[i]) != deposited(first)
        } by {
            assert(rest[i] == events[i + 1]);
        }
        assert forall|i: int, j: int|
            0 <= i < j < rest.len() && (#[trigger] rest[i]).1 is Deposit && (
            #[trigger] rest[j]).1 is Deposit implies deposited(rest[i]) != deposited(rest[j]) by {
            assert(rest[i] == events[i + 1] && rest[j] == events[j + 1]);
        }
        lemma_unspent_deposits_undone(s, block_height, rest);
        let p = undo_events(s, rest);
        let q = undo_events(s, events);
        assert(s.utxos.contains_key(deposited(first)));
        assert(p.state.utxos.contains_key(deposited(first)));
        assert forall|o: OutPoint| #[trigger]
            s.utxos.contains_key(o) && !q.state.utxos.contains_key(o) implies deposits_to(
            events,
            o,
        ) by {
            if o == deposited(first) {
                assert(deposited(events[0]) == o);
            } else {
                let i = choose|i: int| 0 <= i < rest.len() && deposited(#[trigger] rest[i]) == o;
                assert(deposited(events[i + 1]) == o);
            }
        }
    }
}

/// Two-way peg data with an event of a bundle cannot be disconnected one block after it was
/// connected: the status that the event left is from the height at which it was connected, or
/// below.
pub proof fn law_bundle_events_not_disconnected(
    s: StateView,
    block_height: u32,
    events: Seq<(BlockHash, EventView)>,
    k: int,
)
    requires
        has_statuses(s),
        statuses_up_to(s, block_height),
        s.height == Some(block_height),
        block_height < u32::MAX,
        deposits_distinct(events),
        connected(s, events).1 is Ok,
        0 <= k < events.len(),
        is_bundle_event(events[k]),
    ensures
        !disconnect_consistent(
            at_height(connected(s, events).0, (block_height + 1) as u32),
            events,
        ),
    decreases events.len() - k,
{
    let next = (block_height + 1) as u32;
    let after = at_height(connected(s, events).0, next);
    if exists|j: int| k < j < events.len() && #[trigger] is_bundle_event(events[j]) {
        let j = choose|j: int| k < j < events.len() && #[trigger] is_bundle_event(events[j]);
        law_bundle_events_not_disconnected(s, block_height, events, j);
    } else {
        let tail = events.skip(k + 1);
        assert forall|i: int| 0 <= i < tail.len() implies (#[trigger] tail[i]).1 is Deposit by {
            assert(tail[i] == events[i + k + 1]);
            assert(!is_bundle_event(events[i + k + 1]));
        }
        assert forall|i: int, j: int|
            0 <= i < j < tail.len() && (#[trigger] tail[i]).1 is Deposit && (
            #[trigger] tail[j]).1 is Deposit implies deposited(tail[i]) != deposited(tail[j]) by {
            assert(tail[i] == events[i + k + 1] && tail[j] == events[j + k + 1]);
        }
        lemma_ends_in_deposits(s, block_height, events, k + 1);
        let upto = events.take(k + 1);
        assert(upto.drop_last() =~= events.take(k));
        assert(upto.last() == events[k]);
        let p = connect_events(s, block_height, events.take(k));
        let q = connect_events(s, block_height, upto);
        assert(q == connect_event(p, block_height, events[k]));
        lemma_statuses_up_to_kept(s, block_height, upto);
        assert(statuses_up_to(after, block_height));
        assert forall|i: int| 0 <= i < tail.len() implies after.utxos.contains_key(
            deposited(#[trigger] tail[i]),
        ) by {
            assert(tail[i] == events[i + k + 1]);
        }
        lemma_unspent_deposits_undone(after, next, tail);
        let r = undo_events(after, tail);
        let e = events[k].1->WithdrawalBundle_0;
        assert(q.state.withdrawal_bundles.contains_key(e.m6id));
        assert(after.withdrawal_bundles.contains_key(e.m6id));
        assert(!undo_event_consistent(r.state, next, events[k]));
        assert(events.skip(k).drop_first() =~= tail);
        assert(!undo_events_consistent(after, next, events.skip(k)));
        lemma_suffix_consistent(after, next, events, k);
    }
}

} // verus!
