//! What connecting and disconnecting do besides handling the events.

use crate::bundle::transaction_id;
use crate::collect::{collectable, collected};
use crate::connect::{
    connect_consistent, connect_events, connected, events_consistent, is_last_index, last_index,
    next_index,
};
use crate::data::EventView;
use crate::disconnect::{
    disconnect_consistent, disconnected, undo_events, undo_events_consistent,
};
use crate::error::{Error, PendingWithdrawalBundleUnknown};
use crate::laws::round_trip::lemma_last_index_exists;
use crate::output::{BlockHash, M6id};
use crate::rollback::HeightStamped;
use crate::state::{
    InfoView, StateView, WithdrawalBundleStatus, WITHDRAWAL_BUNDLE_FAILURE_GAP,
};
use vstd::prelude::*;

verus! {

/// Whether a log is another log with one more block, whose number is one above all others, or 0 if
/// there are none.
pub open spec fn has_one_more(
    after: Map<u32, (BlockHash, u32)>,
    log: Map<u32, (BlockHash, u32)>,
    block: (BlockHash, u32),
) -> bool {
    exists|n: u32|
        {
            &&& #[trigger] after.contains_key(n)
            &&& after == log.insert(n, block)
            &&& forall|q: u32| #[trigger] log.contains_key(q) ==> q < n
            &&& n > 0 ==> log.contains_key((n - 1) as u32)
        }
}

/// What a log is with one more block.
proof fn lemma_one_more(log: Map<u32, (BlockHash, u32)>, hash: BlockHash, block_height: u32)
    ensures
        next_index(log) <= u32::MAX <==> !log.contains_key(u32::MAX),
        next_index(log) <= u32::MAX ==> has_one_more(
            log.insert(next_index(log) as u32, (hash, block_height)),
            log,
            (hash, block_height),
        ),
{
    if log =~= Map::<u32, (BlockHash, u32)>::empty() {
    } else {
        lemma_last_index_exists(log);
        let last = last_index(log);
        assert(is_last_index(log, last));
        assert(log.contains_key(u32::MAX) ==> last == u32::MAX);
    }
    if next_index(log) <= u32::MAX {
        let n = next_index(log) as u32;
        let after = log.insert(n, (hash, block_height));
        assert(after.contains_key(n));
        if n > 0 {
            assert(log.contains_key((n - 1) as u32));
        }
    }
}

/// Nothing is connected to a chain without blocks, and if an event cannot be connected, that is the
/// result, and nothing is done after it.
pub proof fn law_connecting_stops(s: StateView, events: Seq<(BlockHash, EventView)>)
    ensures
        s.height is None ==> {
            &&& connect_consistent(s, events)
            &&& connected(s, events) == (s, Err::<(), Error>(Error::NoTip))
        },
        s.height matches Some(block_height) ==> {
            let p = connect_events(s, block_height, events);
            p.result is Err ==> {
                &&& connect_consistent(s, events) <==> events_consistent(s, block_height, events)
                &&& connected(s, events) == (p.state, p.result)
            }
        },
{
}

/// After the events are connected, each log has the block of its last event, if there was one, at
/// the height of the tip. Outputs, failures and the height stay as the events left them.
pub proof fn law_connecting_notes_blocks(
    s: StateView,
    block_height: u32,
    events: Seq<(BlockHash, EventView)>,
)
    requires
        s.height == Some(block_height),
        connect_events(s, block_height, events).result is Ok,
        connect_consistent(s, events),
    ensures
        ({
            let p = connect_events(s, block_height, events);
            let after = connected(s, events).0;
            &&& after.height == p.state.height
            &&& after.utxos == p.state.utxos
            &&& after.stxos == p.state.stxos
            &&& after.latest_failed_withdrawal_bundle == p.state.latest_failed_withdrawal_bundle
            &&& match p.deposit_block {
                Some(hash) => has_one_more(
                    after.deposit_blocks,
                    p.state.deposit_blocks,
                    (hash, block_height),
                ),
                None => after.deposit_blocks == p.state.deposit_blocks,
            }
            &&& match p.bundle_event_block {
                Some(hash) => has_one_more(
                    after.withdrawal_bundle_event_blocks,
                    p.state.withdrawal_bundle_event_blocks,
                    (hash, block_height),
                ),
                None => after.withdrawal_bundle_event_blocks
                    == p.state.withdrawal_bundle_event_blocks,
            }
        }),
{
    let p = connect_events(s, block_height, events);
    if let Some(hash) = p.deposit_block {
        lemma_one_more(p.state.deposit_blocks, hash, block_height);
    }
    if let Some(hash) = p.bundle_event_block {
        lemma_one_more(p.state.withdrawal_bundle_event_blocks, hash, block_height);
    }
}

/// After the events are connected, whatever they were, a bundle is made exactly if none is pending
/// then, the last failure is `WITHDRAWAL_BUNDLE_FAILURE_GAP` blocks back or more, and something can
/// be collected. It is then the pending one, recorded as known and pending at the height of the
/// tip, after its earlier statuses. Else no bundle and no record changes.
pub proof fn law_connecting_makes_bundle(
    s: StateView,
    block_height: u32,
    events: Seq<(BlockHash, EventView)>,
)
    requires
        s.height == Some(block_height),
        connect_events(s, block_height, events).result is Ok,
    ensures
        ({
            let t = connect_events(s, block_height, events).state;
            let (after, r) = connected(s, events);
            let last_failure: int = match t.latest_failed_withdrawal_bundle {
                Some(all) => all.last().height as int,
                None => 0,
            };
            let due = t.pending_withdrawal_bundle is None && block_height - last_failure
                >= WITHDRAWAL_BUNDLE_FAILURE_GAP;
            let unchanged = after.pending_withdrawal_bundle == t.pending_withdrawal_bundle
                && after.withdrawal_bundles == t.withdrawal_bundles;
            &&& !due ==> r is Ok && unchanged
            &&& due ==> match collected(t.utxos, block_height) {
                Err(e) => r == Err::<(), Error>(e) && unchanged,
                Ok(None) => r is Ok && unchanged,
                Ok(Some(bundle)) => {
                    let m6id = M6id(
                        transaction_id(
                            bundle.tx.version,
                            bundle.tx.lock_time,
                            bundle.tx.outputs,
                        ),
                    );
                    let entry = HeightStamped {
                        value: WithdrawalBundleStatus::Pending,
                        height: block_height,
                    };
                    &&& r is Ok
                    &&& after.pending_withdrawal_bundle == Some(m6id)
                    &&& after.withdrawal_bundles.contains_key(m6id)
                    &&& after.withdrawal_bundles[m6id].0 == InfoView::Known(bundle)
                    &&& t.withdrawal_bundles.contains_key(m6id) ==> after.withdrawal_bundles[m6id].1
                        == t.withdrawal_bundles[m6id].1.push(entry)
                    &&& !t.withdrawal_bundles.contains_key(m6id)
                        ==> after.withdrawal_bundles[m6id].1 == seq![entry]
                    &&& after.withdrawal_bundles.remove(m6id) == t.withdrawal_bundles.remove(m6id)
                },
            }
        }),
{
    let t = connect_events(s, block_height, events).state;
    let after = connected(s, events).0;
    if let Ok(Some(bundle)) = collected(t.utxos, block_height) {
        let m6id = M6id(
            transaction_id(bundle.tx.version, bundle.tx.lock_time, bundle.tx.outputs),
        );
        if after.pending_withdrawal_bundle != t.pending_withdrawal_bundle {
            if !t.withdrawal_bundles.contains_key(m6id) {
                assert(after.withdrawal_bundles[m6id].1 =~= seq![
                    HeightStamped {
                        value: WithdrawalBundleStatus::Pending,
                        height: block_height,
                    },
                ]);
            }
            assert(after.withdrawal_bundles.remove(m6id) =~= t.withdrawal_bundles.remove(m6id));
        }
    }
}

/// What the state has to allow for data to be connected: that each event is, that the number after
/// the last in a log that gets a block fits, that the last failure is not above the tip, and, if it
/// is time to make a bundle, that its fees fit and its record is not from a later height.
pub proof fn law_connecting_consistent(
    s: StateView,
    block_height: u32,
    events: Seq<(BlockHash, EventView)>,
)
    requires
        s.height == Some(block_height),
        connect_events(s, block_height, events).result is Ok,
    ensures
        ({
            let p = connect_events(s, block_height, events);
            let t = p.state;
            let last_failure: int = match t.latest_failed_withdrawal_bundle {
                Some(all) => all.last().height as int,
                None => 0,
            };
            connect_consistent(s, events) <==> {
                &&& events_consistent(s, block_height, events)
                &&& p.deposit_block is Some ==> !t.deposit_blocks.contains_key(u32::MAX)
                &&& p.bundle_event_block is Some
                    ==> !t.withdrawal_bundle_event_blocks.contains_key(u32::MAX)
                &&& last_failure <= block_height
                &&& t.pending_withdrawal_bundle is None && block_height - last_failure
                    >= WITHDRAWAL_BUNDLE_FAILURE_GAP ==> {
                    &&& collectable(t.utxos)
                    &&& collected(t.utxos, block_height) matches Ok(Some(bundle)) ==> {
                        let m6id = M6id(
                            transaction_id(
                                bundle.tx.version,
                                bundle.tx.lock_time,
                                bundle.tx.outputs,
                            ),
                        );
                        t.withdrawal_bundles.contains_key(m6id)
                            ==> t.withdrawal_bundles[m6id].1.last().height <= block_height
                    }
                }
            }
        }),
{
    let p = connect_events(s, block_height, events);
    if let Some(hash) = p.deposit_block {
        lemma_one_more(p.state.deposit_blocks, hash, block_height);
    }
    if let Some(hash) = p.bundle_event_block {
        lemma_one_more(p.state.withdrawal_bundle_event_blocks, hash, block_height);
    }
}

/// If an event cannot be undone, that is the result, and nothing is done after it. Nothing is
/// disconnected from a chain without blocks. Outputs, failures, the log of bundle events' blocks
/// and the height stay as undoing the events left them.
pub proof fn law_disconnecting_stops(s: StateView, events: Seq<(BlockHash, EventView)>)
    ensures
        ({
            let p = undo_events(s, events);
            let after = disconnected(s, events).0;
            &&& s.height is None ==> !disconnect_consistent(s, events)
            &&& p.result is Err ==> disconnected(s, events) == (p.state, p.result)
            &&& p.result is Err && s.height is Some ==> (disconnect_consistent(s, events)
                <==> undo_events_consistent(s, s.height->0, events))
            &&& after.height == p.state.height
            &&& after.utxos == p.state.utxos
            &&& after.stxos == p.state.stxos
            &&& after.latest_failed_withdrawal_bundle == p.state.latest_failed_withdrawal_bundle
            &&& after.withdrawal_bundle_event_blocks == p.state.withdrawal_bundle_event_blocks
        }),
{
}

/// If there was an event of a bundle and the log of their blocks is empty, or its last number is
/// not in the log of deposit blocks, disconnecting is refused after the events, and nothing else
/// changes.
pub proof fn law_disconnecting_needs_bundle_block(
    s: StateView,
    events: Seq<(BlockHash, EventView)>,
    last: u32,
)
    requires
        undo_events(s, events).result is Ok,
        undo_events(s, events).bundle_event_block is Some,
        ({
            let t = undo_events(s, events).state;
            let log = t.withdrawal_bundle_event_blocks;
            ||| forall|q: u32| !log.contains_key(q)
            ||| {
                &&& log.contains_key(last)
                &&& forall|q: u32| #[trigger] log.contains_key(q) ==> q <= last
                &&& !t.deposit_blocks.contains_key(last)
            }
        }),
    ensures
        disconnected(s, events) == (
            undo_events(s, events).state,
            Err::<(), Error>(Error::NoWithdrawalBundleEventBlock),
        ),
{
    let t = undo_events(s, events).state;
    let log = t.withdrawal_bundle_event_blocks;
    if log.contains_key(last) {
        assert(is_last_index(log, last));
        assert(is_last_index(log, last_index(log)));
    } else {
        assert(log =~= Map::<u32, (BlockHash, u32)>::empty());
    }
}

/// What disconnecting does after the events are undone, where the log of bundle events' blocks does
/// not stand against it. Its last number `last` is taken out of the log of deposit blocks if there
/// was an event of a bundle. Then the pending bundle is taken back if the last failure is more than
/// `WITHDRAWAL_BUNDLE_FAILURE_GAP` blocks back and the bundle's last status is from the height
/// before the tip's. Then the last block, `last_deposit`, is taken out of what is left of the log
/// of deposit blocks, `left`, if there was a deposit.
pub proof fn law_disconnecting_rest(
    s: StateView,
    block_height: u32,
    events: Seq<(BlockHash, EventView)>,
    last: u32,
    left: Map<u32, (BlockHash, u32)>,
    last_deposit: u32,
)
    requires
        s.height == Some(block_height),
        undo_events(s, events).result is Ok,
        undo_events(s, events).bundle_event_block is Some ==> left == undo_events(
            s,
            events,
        ).state.deposit_blocks.remove(last),
        undo_events(s, events).bundle_event_block is None ==> left == undo_events(
            s,
            events,
        ).state.deposit_blocks,
        ({
            let p = undo_events(s, events);
            let log = p.state.withdrawal_bundle_event_blocks;
            p.bundle_event_block is Some ==> {
                &&& log.contains_key(last)
                &&& forall|q: u32| #[trigger] log.contains_key(q) ==> q <= last
                &&& p.state.deposit_blocks.contains_key(last)
            }
        }),
    ensures
        ({
            let p = undo_events(s, events);
            let t = p.state;
            let (after, r) = disconnected(s, events);
            let last_failure: int = match t.latest_failed_withdrawal_bundle {
                Some(all) => all.last().height as int,
                None => 0,
            };
            let m6id = t.pending_withdrawal_bundle->0;
            let (info, statuses) = t.withdrawal_bundles[m6id];
            let looked_at = t.pending_withdrawal_bundle is Some && block_height - last_failure
                > WITHDRAWAL_BUNDLE_FAILURE_GAP;
            let recorded = t.withdrawal_bundles.contains_key(m6id);
            let taken_back = looked_at && recorded && statuses.last().height == block_height - 1;
            &&& looked_at && !recorded ==> {
                &&& r == Err::<(), Error>(
                    Error::PendingWithdrawalBundleUnknown(PendingWithdrawalBundleUnknown(m6id)),
                )
                &&& after.deposit_blocks == left
            }
            &&& taken_back ==> {
                &&& after.pending_withdrawal_bundle is None
                &&& after.withdrawal_bundles.remove(m6id) == t.withdrawal_bundles.remove(m6id)
                &&& statuses.len() > 1 ==> after.withdrawal_bundles.contains_key(m6id)
                    && after.withdrawal_bundles[m6id] == (info, statuses.drop_last())
                &&& statuses.len() == 1 ==> !after.withdrawal_bundles.contains_key(m6id)
            }
            &&& !taken_back ==> {
                &&& after.pending_withdrawal_bundle == t.pending_withdrawal_bundle
                &&& after.withdrawal_bundles == t.withdrawal_bundles
            }
            &&& !(looked_at && !recorded) ==> {
                &&& p.deposit_block is None ==> r is Ok && after.deposit_blocks == left
                &&& p.deposit_block is Some && (forall|q: u32| !left.contains_key(q)) ==> r
                    == Err::<(), Error>(Error::NoDepositBlock) && after.deposit_blocks == left
                &&& p.deposit_block is Some && left.contains_key(last_deposit) && (forall|q: u32|
                    #[trigger] left.contains_key(q) ==> q <= last_deposit) ==> r is Ok
                    && after.deposit_blocks == left.remove(last_deposit)
            }
        }),
{
    let p = undo_events(s, events);
    let t = p.state;
    let after = disconnected(s, events).0;
    let log = t.withdrawal_bundle_event_blocks;
    if p.bundle_event_block is Some {
        assert(is_last_index(log, last));
        assert(is_last_index(log, last_index(log)));
        assert(log != Map::<u32, (BlockHash, u32)>::empty());
    }
    lemma_undone_events_keep_height(s, events);
    if forall|q: u32| !left.contains_key(q) {
        assert(left =~= Map::<u32, (BlockHash, u32)>::empty());
    }
    if left.contains_key(last_deposit) && (forall|q: u32| #[trigger]
        left.contains_key(q) ==> q <= last_deposit) {
        assert(is_last_index(left, last_deposit));
        assert(is_last_index(left, last_index(left)));
        assert(left != Map::<u32, (BlockHash, u32)>::empty());
    }
    if let Some(m6id) = t.pending_withdrawal_bundle {
        assert(after.withdrawal_bundles.remove(m6id) =~= t.withdrawal_bundles.remove(m6id));
    }
}

proof fn lemma_undone_events_keep_height(s: StateView, events: Seq<(BlockHash, EventView)>)
    ensures
        undo_events(s, events).state.height == s.height,
    decreases events.len(),
{
    if events.len() > 0 {
        lemma_undone_events_keep_height(s, events.drop_first());
    }
}

/// What the state has to allow for data to be disconnected: that each event is, that the last
/// blocks in the logs are those of the first events, from the height before the tip's, and that the
/// last failure is not above the tip.
pub proof fn law_disconnecting_consistent(
    s: StateView,
    block_height: u32,
    events: Seq<(BlockHash, EventView)>,
    last: u32,
    left: Map<u32, (BlockHash, u32)>,
    last_deposit: u32,
)
    requires
        s.height == Some(block_height),
        undo_events(s, events).result is Ok,
        undo_events(s, events).bundle_event_block is Some ==> left == undo_events(
            s,
            events,
        ).state.deposit_blocks.remove(last),
        undo_events(s, events).bundle_event_block is None ==> left == undo_events(
            s,
            events,
        ).state.deposit_blocks,
        ({
            let p = undo_events(s, events);
            let log = p.state.withdrawal_bundle_event_blocks;
            &&& p.bundle_event_block is Some ==> {
                &&& log.contains_key(last)
                &&& forall|q: u32| #[trigger] log.contains_key(q) ==> q <= last
                &&& p.state.deposit_blocks.contains_key(last)
            }
            &&& p.deposit_block is Some ==> {
                &&& left.contains_key(last_deposit)
                &&& forall|q: u32| #[trigger] left.contains_key(q) ==> q <= last_deposit
            }
        }),
    ensures
        ({
            let p = undo_events(s, events);
            let t = p.state;
            let log = t.withdrawal_bundle_event_blocks;
            let last_failure: int = match t.latest_failed_withdrawal_bundle {
                Some(all) => all.last().height as int,
                None => 0,
            };
            let lost = t.pending_withdrawal_bundle is Some && block_height - last_failure
                > WITHDRAWAL_BUNDLE_FAILURE_GAP && !t.withdrawal_bundles.contains_key(
                t.pending_withdrawal_bundle->0,
            );
            disconnect_consistent(s, events) <==> {
                &&& undo_events_consistent(s, block_height, events)
                &&& p.bundle_event_block matches Some(hash) ==> log[last].0 == hash && log[last].1
                    == block_height - 1
                &&& last_failure <= block_height
                &&& !lost ==> (p.deposit_block matches Some(hash) ==> left[last_deposit].0 == hash
                    && left[last_deposit].1 == block_height - 1)
            }
        }),
{
    let p = undo_events(s, events);
    let t = p.state;
    let log = t.withdrawal_bundle_event_blocks;
    if p.bundle_event_block is Some {
        assert(is_last_index(log, last));
        assert(is_last_index(log, last_index(log)));
        assert(log != Map::<u32, (BlockHash, u32)>::empty());
    }
    if p.deposit_block is Some {
        assert(is_last_index(left, last_deposit));
        assert(is_last_index(left, last_index(left)));
        assert(left != Map::<u32, (BlockHash, u32)>::empty());
    }
}

} // verus!
