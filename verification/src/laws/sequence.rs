//! How events follow each other.

use crate::connect::{
    bundle_event, confirmation_consistent, confirmed, connect_event, connect_events,
    event_consistent, events_consistent, failed, failure_consistent, submission_consistent,
    submitted, Progress,
};
use crate::data::{
    events_of, BlockEvent, BlockInfo, EventView, TwoWayPegData, WithdrawalBundleEvent,
    WithdrawalBundleEventStatus,
};
use crate::disconnect::{
    undo_event, undo_event_consistent, undo_events, undo_events_consistent,
    unconfirmation_consistent, unconfirmed, unfailed, unfailure_consistent,
    unsubmission_consistent, unsubmitted,
};
use crate::error::{Error, NoUtxo};
use crate::output::{BlockHash, MainOutPoint, OutPoint, OutputView};
use crate::state::StateView;
use vstd::prelude::*;

verus! {

/// The events of blocks are those of the first blocks and then those of the others, and the events
/// of one block are all that it holds, in order, each with the hash of the block.
pub proof fn law_events_of_blocks(
    some: Seq<(BlockHash, BlockInfo)>,
    others: Seq<(BlockHash, BlockInfo)>,
    block: (BlockHash, BlockInfo),
)
    ensures
        events_of(some + others) == events_of(some) + events_of(others),
        events_of(Seq::empty()).len() == 0,
        events_of(seq![block]).len() == block.1.events@.len(),
        forall|j: int|
            0 <= j < block.1.events@.len() ==> #[trigger] events_of(seq![block])[j] == (
                block.0,
                block.1.events@[j]@,
            ),
    decreases others.len(),
{
    if others.len() == 0 {
        assert(some + others =~= some);
        assert(events_of(some) + events_of(others) =~= events_of(some));
    } else {
        law_events_of_blocks(some, others.drop_last(), block);
        assert((some + others).drop_last() =~= some + others.drop_last());
        assert(events_of(some + others) =~= events_of(some) + events_of(others));
    }
    assert(seq![block].drop_last() =~= Seq::empty());
    assert(events_of(Seq::empty()) =~= Seq::<(BlockHash, EventView)>::empty());
}

/// What data and events hold is what they are made of.
pub proof fn law_data_viewed(data: TwoWayPegData, event: BlockEvent)
    ensures
        data@ == events_of(data.block_info@),
        match event {
            BlockEvent::Deposit(deposit) => {
                &&& event@ is Deposit
                &&& event@->Deposit_outpoint == deposit.outpoint
                &&& event@->Deposit_output == deposit.output@
            },
            BlockEvent::WithdrawalBundle(e) => {
                &&& event@ is WithdrawalBundle
                &&& event@->WithdrawalBundle_0.m6id == e.m6id
                &&& event@->WithdrawalBundle_0.status == e.status
            },
        },
{
}

/// A deposit is always connected. It makes its output unspent and is noted; nothing else changes.
pub proof fn law_deposit_connected(
    p: Progress,
    block_height: u32,
    hash: BlockHash,
    outpoint: MainOutPoint,
    output: OutputView,
)
    ensures
        ({
            let event = (hash, EventView::Deposit { outpoint, output });
            let q = connect_event(p, block_height, event);
            &&& event_consistent(p.state, block_height, event)
            &&& q.result == p.result
            &&& q.deposit_block == Some(hash)
            &&& q.bundle_event_block == p.bundle_event_block
            &&& q.state.utxos == p.state.utxos.insert(OutPoint::Deposit(outpoint), output)
            &&& q.state == (StateView { utxos: q.state.utxos, ..p.state })
        }),
{
}

/// An event of a bundle is connected as the submission, the confirmation or the failure of the
/// bundle is, and noted if that succeeds.
pub proof fn law_bundle_event_connected(
    p: Progress,
    block_height: u32,
    hash: BlockHash,
    e: WithdrawalBundleEvent,
)
    ensures
        ({
            let event = (hash, EventView::WithdrawalBundle(e));
            let q = connect_event(p, block_height, event);
            &&& q.deposit_block == p.deposit_block
            &&& q.result is Ok ==> q.bundle_event_block == Some(hash)
            &&& q.result is Err ==> q.bundle_event_block == p.bundle_event_block
            &&& e.status == WithdrawalBundleEventStatus::Submitted ==> {
                let (after, r) = submitted(p.state, block_height, hash, e.m6id);
                &&& q.state == after
                &&& q.result is Ok <==> r is Ok
                &&& r matches Err(err) ==> q.result == Err::<(), Error>(
                    Error::ConnectWithdrawalBundleSubmitted(err),
                )
                &&& event_consistent(p.state, block_height, event) == submission_consistent(
                    p.state,
                    block_height,
                    hash,
                    e.m6id,
                )
            }
            &&& e.status == WithdrawalBundleEventStatus::Confirmed ==> {
                &&& (q.state, q.result) == confirmed(p.state, block_height, hash, e.m6id)
                &&& event_consistent(p.state, block_height, event) == confirmation_consistent(
                    p.state,
                    block_height,
                    hash,
                    e.m6id,
                )
            }
            &&& e.status == WithdrawalBundleEventStatus::Failed ==> {
                &&& (q.state, q.result) == failed(p.state, block_height, e.m6id)
                &&& event_consistent(p.state, block_height, event) == failure_consistent(
                    p.state,
                    block_height,
                    e.m6id,
                )
            }
            &&& (q.state, q.result) == bundle_event(p.state, block_height, hash, e)
        }),
{
}

/// Without events nothing happens, and one more event is connected to what the events before it
/// left, unless one of them could not be connected.
pub proof fn law_events_one_by_one(
    s: StateView,
    block_height: u32,
    events: Seq<(BlockHash, EventView)>,
    event: (BlockHash, EventView),
)
    ensures
        ({
            let none = connect_events(s, block_height, Seq::empty());
            let p = connect_events(s, block_height, events);
            let q = connect_events(s, block_height, events.push(event));
            &&& none.state == s
            &&& none.deposit_block is None
            &&& none.bundle_event_block is None
            &&& none.result is Ok
            &&& events_consistent(s, block_height, Seq::empty())
            &&& p.result is Ok ==> q == connect_event(p, block_height, event)
            &&& p.result is Err ==> q == p
            &&& events_consistent(s, block_height, events.push(event)) <==> {
                &&& events_consistent(s, block_height, events)
                &&& p.result is Ok ==> event_consistent(p.state, block_height, event)
            }
        }),
{
    assert(events.push(event).drop_last() =~= events);
}

/// Connecting events and then others to what they left does what connecting all of them does.
pub proof fn law_events_in_two_parts(
    s: StateView,
    block_height: u32,
    some: Seq<(BlockHash, EventView)>,
    others: Seq<(BlockHash, EventView)>,
)
    ensures
        ({
            let p = connect_events(s, block_height, some);
            let q = connect_events(p.state, block_height, others);
            let whole = connect_events(s, block_height, some + others);
            &&& p.result is Err ==> whole == p
            &&& p.result is Ok ==> {
                &&& whole.state == q.state
                &&& whole.result is Ok <==> q.result is Ok
                &&& whole.result is Err ==> whole.result == q.result
                &&& q.deposit_block is Some ==> whole.deposit_block == q.deposit_block
                &&& q.deposit_block is None ==> whole.deposit_block == p.deposit_block
                &&& q.bundle_event_block is Some ==> whole.bundle_event_block
                    == q.bundle_event_block
                &&& q.bundle_event_block is None ==> whole.bundle_event_block
                    == p.bundle_event_block
            }
        }),
    decreases others.len(),
{
    if others.len() == 0 {
        assert(some + others =~= some);
    } else {
        let init = others.drop_last();
        law_events_in_two_parts(s, block_height, some, init);
        assert((some + others).drop_last() =~= some + init);
        assert((some + others).last() == others.last());
        let p = connect_events(s, block_height, some);
        let q = connect_events(p.state, block_height, init);
        let whole = connect_events(s, block_height, some + init);
        if p.result is Ok && q.result is Ok {
            let (hash, e) = others.last();
            match e {
                EventView::Deposit { outpoint, output } => {
                    law_deposit_connected(q, block_height, hash, outpoint, output);
                    law_deposit_connected(whole, block_height, hash, outpoint, output);
                },
                EventView::WithdrawalBundle(e) => {
                    law_bundle_event_connected(q, block_height, hash, e);
                    law_bundle_event_connected(whole, block_height, hash, e);
                },
            }
        }
    }
}

/// If all events are connected, the blocks of the last deposit and of the last bundle event are
/// noted, and none where there is no such event.
pub proof fn law_last_blocks_noted(
    s: StateView,
    block_height: u32,
    events: Seq<(BlockHash, EventView)>,
)
    requires
        connect_events(s, block_height, events).result is Ok,
    ensures
        ({
            let p = connect_events(s, block_height, events);
            &&& match p.deposit_block {
                Some(hash) => exists|i: int|
                    0 <= i < events.len() && (#[trigger] events[i]).1 is Deposit && events[i].0
                        == hash && forall|j: int|
                        i < j < events.len() ==> (#[trigger] events[j]).1 !is Deposit,
                None => forall|i: int|
                    0 <= i < events.len() ==> (#[trigger] events[i]).1 !is Deposit,
            }
            &&& match p.bundle_event_block {
                Some(hash) => exists|i: int|
                    0 <= i < events.len() && (#[trigger] events[i]).1 is WithdrawalBundle
                        && events[i].0 == hash && forall|j: int|
                        i < j < events.len() ==> (#[trigger] events[j]).1 !is WithdrawalBundle,
                None => forall|i: int|
                    0 <= i < events.len() ==> (#[trigger] events[i]).1 !is WithdrawalBundle,
            }
        }),
    decreases events.len(),
{
    if events.len() > 0 {
        let init = events.drop_last();
        let n = init.len() as int;
        law_last_blocks_noted(s, block_height, init);
        let p = connect_events(s, block_height, init);
        assert(events[n] == events.last());
        assert(forall|i: int| 0 <= i < n ==> #[trigger] events[i] == init[i]);
        if events[n].1 !is Deposit && p.deposit_block is Some {
            let i = choose|i: int|
                0 <= i < init.len() && (#[trigger] init[i]).1 is Deposit && init[i].0
                    == p.deposit_block->0 && forall|j: int|
                    i < j < init.len() ==> (#[trigger] init[j]).1 !is Deposit;
            assert(events[i] == init[i]);
        }
        if events[n].1 !is WithdrawalBundle && p.bundle_event_block is Some {
            let i = choose|i: int|
                0 <= i < init.len() && (#[trigger] init[i]).1 is WithdrawalBundle && init[i].0
                    == p.bundle_event_block->0 && forall|j: int|
                    i < j < init.len() ==> (#[trigger] init[j]).1 !is WithdrawalBundle;
            assert(events[i] == init[i]);
        }
    }
}

/// A deposit is undone exactly if its output is unspent. The output is then removed, and the block
/// noted; nothing else changes.
pub proof fn law_deposit_undone(
    p: Progress,
    block_height: u32,
    hash: BlockHash,
    outpoint: MainOutPoint,
    output: OutputView,
)
    requires
        p.result is Ok,
    ensures
        ({
            let event = (hash, EventView::Deposit { outpoint, output });
            let q = undo_event(p, event);
            let o = OutPoint::Deposit(outpoint);
            &&& undo_event_consistent(p.state, block_height, event)
            &&& q.bundle_event_block == p.bundle_event_block
            &&& q.state == (StateView { utxos: q.state.utxos, ..p.state })
            &&& p.state.utxos.contains_key(o) ==> {
                &&& q.result is Ok
                &&& q.deposit_block == Some(hash)
                &&& q.state.utxos == p.state.utxos.remove(o)
            }
            &&& !p.state.utxos.contains_key(o) ==> {
                &&& q.result == Err::<(), Error>(Error::NoUtxo(NoUtxo { outpoint: o }))
                &&& q.deposit_block == p.deposit_block
                &&& q.state.utxos == p.state.utxos
            }
        }),
{
}

/// An event of a bundle is undone as the submission, the confirmation or the failure of the bundle
/// is, and noted if that succeeds.
pub proof fn law_bundle_event_undone(
    p: Progress,
    block_height: u32,
    hash: BlockHash,
    e: WithdrawalBundleEvent,
)
    ensures
        ({
            let event = (hash, EventView::WithdrawalBundle(e));
            let q = undo_event(p, event);
            let consistent = undo_event_consistent(p.state, block_height, event);
            &&& q.deposit_block == p.deposit_block
            &&& q.result is Ok ==> q.bundle_event_block == Some(hash)
            &&& q.result is Err ==> q.bundle_event_block == p.bundle_event_block
            &&& e.status == WithdrawalBundleEventStatus::Submitted ==> {
                &&& (q.state, q.result) == unsubmitted(p.state, e.m6id)
                &&& consistent == unsubmission_consistent(p.state, block_height, e.m6id)
            }
            &&& e.status == WithdrawalBundleEventStatus::Confirmed ==> {
                &&& (q.state, q.result) == unconfirmed(p.state, e.m6id)
                &&& consistent == unconfirmation_consistent(p.state, block_height, e.m6id)
            }
            &&& e.status == WithdrawalBundleEventStatus::Failed ==> {
                &&& (q.state, q.result) == unfailed(p.state, e.m6id)
                &&& consistent == unfailure_consistent(p.state, block_height, e.m6id)
            }
        }),
{
}

/// Without events nothing is undone, and an event before others is undone from what undoing the
/// others left, unless one of them could not be undone.
pub proof fn law_events_undone_one_by_one(
    s: StateView,
    block_height: u32,
    event: (BlockHash, EventView),
    events: Seq<(BlockHash, EventView)>,
)
    ensures
        ({
            let none = undo_events(s, Seq::empty());
            let p = undo_events(s, events);
            let q = undo_events(s, seq![event] + events);
            &&& none.state == s
            &&& none.deposit_block is None
            &&& none.bundle_event_block is None
            &&& none.result is Ok
            &&& undo_events_consistent(s, block_height, Seq::empty())
            &&& p.result is Ok ==> q == undo_event(p, event)
            &&& p.result is Err ==> q == p
            &&& undo_events_consistent(s, block_height, seq![event] + events) <==> {
                &&& undo_events_consistent(s, block_height, events)
                &&& p.result is Ok ==> undo_event_consistent(p.state, block_height, event)
            }
        }),
{
    assert((seq![event] + events).drop_first() =~= events);
}

/// If all events are undone, the blocks of the first deposit and of the first bundle event are
/// looked for, and none where there is no such event.
pub proof fn law_first_blocks_sought(s: StateView, events: Seq<(BlockHash, EventView)>)
    requires
        undo_events(s, events).result is Ok,
    ensures
        ({
            let p = undo_events(s, events);
            &&& match p.deposit_block {
                Some(hash) => exists|i: int|
                    0 <= i < events.len() && (#[trigger] events[i]).1 is Deposit && events[i].0
                        == hash && forall|j: int|
                        0 <= j < i ==> (#[trigger] events[j]).1 !is Deposit,
                None => forall|i: int|
                    0 <= i < events.len() ==> (#[trigger] events[i]).1 !is Deposit,
            }
            &&& match p.bundle_event_block {
                Some(hash) => exists|i: int|
                    0 <= i < events.len() && (#[trigger] events[i]).1 is WithdrawalBundle
                        && events[i].0 == hash && forall|j: int|
                        0 <= j < i ==> (#[trigger] events[j]).1 !is WithdrawalBundle,
                None => forall|i: int|
                    0 <= i < events.len() ==> (#[trigger] events[i]).1 !is WithdrawalBundle,
            }
        }),
    decreases events.len(),
{
    if events.len() > 0 {
        let rest = events.drop_first();
        law_first_blocks_sought(s, rest);
        let p = undo_events(s, rest);
        assert(events[0] == events.first());
        assert(forall|i: int| 0 < i < events.len() ==> #[trigger] events[i] == rest[i - 1]);
        if events[0].1 !is Deposit && p.deposit_block is Some {
            let i = choose|i: int|
                0 <= i < rest.len() && (#[trigger] rest[i]).1 is Deposit && rest[i].0
                    == p.deposit_block->0 && forall|j: int|
                    0 <= j < i ==> (#[trigger] rest[j]).1 !is Deposit;
            assert(events[i + 1] == rest[i]);
        }
        if events[0].1 !is WithdrawalBundle && p.bundle_event_block is Some {
            let i = choose|i: int|
                0 <= i < rest.len() && (#[trigger] rest[i]).1 is WithdrawalBundle && rest[i].0
                    == p.bundle_event_block->0 && forall|j: int|
                    0 <= j < i ==> (#[trigger] rest[j]).1 !is WithdrawalBundle;
            assert(events[i + 1] == rest[i]);
        }
    }
}

} // verus!
