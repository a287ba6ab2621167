//! What disconnecting undoes.

use crate::connect::{
    confirmation_consistent, confirmed, connect_event, connect_events, event_consistent, failed,
    failure_consistent, start, submission_consistent, submitted, Progress,
};
use crate::data::{EventView, WithdrawalBundleEventStatus};
use crate::disconnect::{
    unconfirmation_consistent, unconfirmed, undo_event, undo_event_consistent, undo_events,
    undo_events_consistent, unfailed, unfailure_consistent, unsubmission_consistent, unsubmitted,
};
use crate::error::{Error, NoUtxo};
use crate::order::before;
use crate::output::{BlockHash, M6id, OutPoint, OutputView};
use crate::rollback::HeightStamped;
use crate::state::{
    is_last_absent, keys_after, last_absent, last_present, lemma_last_absent,
    lemma_last_absent_exists, InfoView, StateView, WithdrawalBundleStatus,
};
use vstd::prelude::*;

verus! {

/// Whether every bundle that there is a record of has a status, and the list of failed bundles, if
/// there is one, has an entry. Every state is like this.
pub open spec fn has_statuses(s: StateView) -> bool {
    &&& forall|m6id: M6id| #[trigger]
        s.withdrawal_bundles.contains_key(m6id) ==> s.withdrawal_bundles[m6id].1.len() > 0
    &&& s.latest_failed_withdrawal_bundle matches Some(all) ==> all.len() > 0
}

/// Whether outputs are unspent just as they are listed, and not spent.
pub open spec fn held(s: StateView, outputs: Map<OutPoint, OutputView>) -> bool {
    &&& outputs.submap_of(s.utxos)
    &&& outputs.dom().disjoint(s.stxos.dom())
}

/// Undoing the submission of a bundle at the height at which it was connected gives back the state
/// before it. What the bundle spends has to be unspent as it lists it.
pub proof fn law_submission_undone(
    s: StateView,
    block_height: u32,
    event_block_hash: BlockHash,
    m6id: M6id,
)
    requires
        has_statuses(s),
        submission_consistent(s, block_height, event_block_hash, m6id),
        submitted(s, block_height, event_block_hash, m6id).1 is Ok,
        s.pending_withdrawal_bundle == Some(m6id) ==> held(
            s,
            s.withdrawal_bundles[m6id].0->Known_0.spend_utxos,
        ),
    ensures
        ({
            let after = submitted(s, block_height, event_block_hash, m6id).0;
            &&& unsubmission_consistent(after, block_height, m6id)
            &&& unsubmitted(after, m6id) == (s, Ok::<(), Error>(()))
        }),
{
    let after = submitted(s, block_height, event_block_hash, m6id).0;
    let (info, statuses) = after.withdrawal_bundles[m6id];
    if s.withdrawal_bundles.contains_key(m6id) {
        assert(statuses.drop_last() =~= s.withdrawal_bundles[m6id].1);
    } else {
        assert(statuses.drop_last() =~= Seq::empty());
    }
    assert(unsubmitted(after, m6id).0 =~= s);
}

/// Undoing the confirmation of a bundle at the height at which it was connected gives back the
/// state before it. The bundle must not have been confirmed before, what it spends then has to be
/// unspent as it lists it, and if it is not known no output may be both unspent and spent.
pub proof fn law_confirmation_undone(
    s: StateView,
    block_height: u32,
    event_block_hash: BlockHash,
    m6id: M6id,
)
    requires
        has_statuses(s),
        confirmation_consistent(s, block_height, event_block_hash, m6id),
        confirmed(s, block_height, event_block_hash, m6id).1 is Ok,
        s.withdrawal_bundles[m6id].1.last().value != WithdrawalBundleStatus::Confirmed,
        match s.withdrawal_bundles[m6id].0 {
            InfoView::Known(bundle) => s.withdrawal_bundles[m6id].1.last().value
                == WithdrawalBundleStatus::SubmittedUnexpected ==> held(s, bundle.spend_utxos),
            _ => held(s, s.utxos),
        },
    ensures
        ({
            let after = confirmed(s, block_height, event_block_hash, m6id).0;
            &&& unconfirmation_consistent(after, block_height, m6id)
            &&& unconfirmed(after, m6id) == (s, Ok::<(), Error>(()))
        }),
{
    let after = confirmed(s, block_height, event_block_hash, m6id).0;
    let statuses = after.withdrawal_bundles[m6id].1;
    assert(statuses.drop_last() =~= s.withdrawal_bundles[m6id].1);
    assert(unconfirmed(after, m6id).0 =~= s);
}

/// Undoing the failure of a bundle at the height at which it was connected gives back the state
/// before it. The bundle must not have failed before, and if it is known and was submitted as
/// expected it must spend nothing.
pub proof fn law_failure_undone(s: StateView, block_height: u32, m6id: M6id)
    requires
        has_statuses(s),
        failure_consistent(s, block_height, m6id),
        failed(s, block_height, m6id).1 is Ok,
        s.withdrawal_bundles[m6id].1.last().value != WithdrawalBundleStatus::Failed,
        s.withdrawal_bundles[m6id].0 matches InfoView::Known(bundle)
            ==> s.withdrawal_bundles[m6id].1.last().value
            == WithdrawalBundleStatus::SubmittedUnexpected || bundle.spend_utxos == Map::<
            OutPoint,
            OutputView,
        >::empty(),
    ensures
        ({
            let after = failed(s, block_height, m6id).0;
            &&& unfailure_consistent(after, block_height, m6id)
            &&& unfailed(after, m6id) == (s, Ok::<(), Error>(()))
        }),
{
    let after = failed(s, block_height, m6id).0;
    let statuses = after.withdrawal_bundles[m6id].1;
    assert(statuses.drop_last() =~= s.withdrawal_bundles[m6id].1);
    if let Some(all) = s.latest_failed_withdrawal_bundle {
        assert(all.push(HeightStamped { value: m6id, height: block_height }).drop_last() =~= all);
    }
    assert(unfailed(after, m6id).0 =~= s);
}

/// Undoing the failure of a known bundle that was submitted as expected is refused if any output
/// that the bundle spends is unspent, with the last that is.
pub proof fn law_failure_not_undone_if_unspent(s: StateView, m6id: M6id)
    requires
        s.withdrawal_bundles.contains_key(m6id),
        s.withdrawal_bundles[m6id].0 is Known,
        s.withdrawal_bundles[m6id].1.last().value == WithdrawalBundleStatus::Failed,
        s.withdrawal_bundles[m6id].1.drop_last().last().value == WithdrawalBundleStatus::Submitted,
        s.withdrawal_bundles[m6id].0->Known_0.spend_utxos.dom().finite(),
        !s.withdrawal_bundles[m6id].0->Known_0.spend_utxos.dom().disjoint(s.utxos.dom()),
    ensures
        ({
            let keys = s.withdrawal_bundles[m6id].0->Known_0.spend_utxos.dom();
            let outpoint = last_present(keys, s.utxos.dom());
            &&& keys.contains(outpoint)
            &&& s.utxos.contains_key(outpoint)
            &&& forall|o: OutPoint| #[trigger]
                keys.contains(o) && s.utxos.contains_key(o) ==> !before::<OutPoint>(outpoint, o)
            &&& unfailed(s, m6id).1 == Err::<(), Error>(Error::NoUtxo(NoUtxo { outpoint }))
        }),
{
    let keys = s.withdrawal_bundles[m6id].0->Known_0.spend_utxos.dom();
    let absent = s.utxos.dom().complement();
    assert(!keys.subset_of(absent));
    lemma_last_absent_exists(keys, absent);
    let outpoint = last_present(keys, s.utxos.dom());
    assert forall|o: OutPoint| #[trigger]
        keys.contains(o) && s.utxos.contains_key(o) implies !before::<OutPoint>(outpoint, o) by {
        if before::<OutPoint>(outpoint, o) {
            assert(keys_after(keys, outpoint).contains(o));
        }
    }
}

/// Undoing the failure of a known bundle that was submitted as expected is refused, with the last
/// output that it spends, if it spends any: the failure has made its outputs unspent.
pub proof fn law_known_failure_not_undone(s: StateView, block_height: u32, m6id: M6id)
    requires
        has_statuses(s),
        failure_consistent(s, block_height, m6id),
        s.withdrawal_bundles.contains_key(m6id),
        s.withdrawal_bundles[m6id].0 is Known,
        s.withdrawal_bundles[m6id].1.last().value == WithdrawalBundleStatus::Submitted,
        s.withdrawal_bundles[m6id].0->Known_0.spend_utxos.dom().finite(),
        s.withdrawal_bundles[m6id].0->Known_0.spend_utxos != Map::<OutPoint, OutputView>::empty(),
    ensures
        ({
            let keys = s.withdrawal_bundles[m6id].0->Known_0.spend_utxos.dom();
            let outpoint = last_absent(keys, Set::empty());
            &&& is_last_absent(keys, Set::empty(), outpoint)
            &&& unfailed(failed(s, block_height, m6id).0, m6id).1 == Err::<(), Error>(
                Error::NoUtxo(NoUtxo { outpoint }),
            )
        }),
{
    let after = failed(s, block_height, m6id).0;
    let (info, statuses) = after.withdrawal_bundles[m6id];
    let outputs = info->Known_0.spend_utxos;
    let keys = outputs.dom();
    assert(statuses.drop_last() =~= s.withdrawal_bundles[m6id].1);
    assert(!keys.subset_of(Set::empty())) by {
        if keys.subset_of(Set::empty()) {
            assert(outputs =~= Map::<OutPoint, OutputView>::empty());
        }
    }
    lemma_last_absent_exists(keys, Set::empty());
    let outpoint = last_absent(keys, Set::empty());
    assert(after.utxos.contains_key(outpoint));
    assert(is_last_absent(keys, after.utxos.dom().complement(), outpoint));
    lemma_last_absent(keys, after.utxos.dom().complement(), outpoint);
}

/// Whether connecting an event can be undone.
pub open spec fn undoable(s: StateView, block_height: u32, event: (BlockHash, EventView)) -> bool {
    match event.1 {
        EventView::Deposit { outpoint, .. } => !s.utxos.contains_key(OutPoint::Deposit(outpoint)),
        EventView::WithdrawalBundle(e) => {
            let (info, statuses) = s.withdrawal_bundles[e.m6id];
            match e.status {
                WithdrawalBundleEventStatus::Submitted => {
                    &&& submitted(s, block_height, event.0, e.m6id).1 is Ok
                    &&& s.pending_withdrawal_bundle == Some(e.m6id) ==> held(
                        s,
                        info->Known_0.spend_utxos,
                    )
                },
                WithdrawalBundleEventStatus::Confirmed => {
                    &&& confirmed(s, block_height, event.0, e.m6id).1 is Ok
                    &&& statuses.last().value != WithdrawalBundleStatus::Confirmed
                    &&& match info {
                        InfoView::Known(bundle) => statuses.last().value
                            == WithdrawalBundleStatus::SubmittedUnexpected ==> held(
                            s,
                            bundle.spend_utxos,
                        ),
                        _ => held(s, s.utxos),
                    }
                },
                WithdrawalBundleEventStatus::Failed => {
                    &&& failed(s, block_height, e.m6id).1 is Ok
                    &&& statuses.last().value != WithdrawalBundleStatus::Failed
                    &&& info matches InfoView::Known(bundle) ==> statuses.last().value
                        == WithdrawalBundleStatus::SubmittedUnexpected || bundle.spend_utxos
                        == Map::<OutPoint, OutputView>::empty()
                },
            }
        },
    }
}

/// Undoing an event that can be undone, at the height at which it was connected, gives back the
/// state before it.
pub proof fn law_event_undone(p: Progress, block_height: u32, event: (BlockHash, EventView))
    requires
        has_statuses(p.state),
        p.result is Ok,
        event_consistent(p.state, block_height, event),
        undoable(p.state, block_height, event),
    ensures
        ({
            let q = connect_event(p, block_height, event);
            &&& q.result is Ok
            &&& undo_event_consistent(q.state, block_height, event)
            &&& undo_event(q, event).result is Ok
            &&& undo_event(q, event).state == p.state
        }),
{
    let q = connect_event(p, block_height, event);
    match event.1 {
        EventView::Deposit { outpoint, .. } => {
            assert(undo_event(q, event).state =~= p.state);
        },
        EventView::WithdrawalBundle(e) => {
            match e.status {
                WithdrawalBundleEventStatus::Submitted => {
                    law_submission_undone(p.state, block_height, event.0, e.m6id);
                },
                WithdrawalBundleEventStatus::Confirmed => {
                    law_confirmation_undone(p.state, block_height, event.0, e.m6id);
                },
                WithdrawalBundleEventStatus::Failed => {
                    law_failure_undone(p.state, block_height, e.m6id);
                },
            }
        },
    }
}

/// Connecting an event keeps that every bundle has a status.
proof fn lemma_statuses_kept(p: Progress, block_height: u32, event: (BlockHash, EventView))
    requires
        has_statuses(p.state),
    ensures
        has_statuses(connect_event(p, block_height, event).state),
{
}

/// Whether connecting each of the events can be undone.
pub open spec fn all_undoable(
    s: StateView,
    block_height: u32,
    events: Seq<(BlockHash, EventView)>,
) -> bool
    decreases events.len(),
{
    events.len() > 0 ==> {
        let p = connect_events(s, block_height, events.drop_last());
        &&& all_undoable(s, block_height, events.drop_last())
        &&& event_consistent(p.state, block_height, events.last())
        &&& undoable(p.state, block_height, events.last())
    }
}

/// Undoing events is undoing the last of them and the others after that.
proof fn lemma_undo_last(
    s: StateView,
    block_height: u32,
    events: Seq<(BlockHash, EventView)>,
    last: (BlockHash, EventView),
    p: Progress,
)
    requires
        undo_event_consistent(s, block_height, last),
        p == undo_event(start(s), last),
        p.result is Ok,
    ensures
        undo_events(s, events.push(last)).state == undo_events(p.state, events).state,
        undo_events(s, events.push(last)).result == undo_events(p.state, events).result,
        undo_events_consistent(s, block_height, events.push(last)) == undo_events_consistent(
            p.state,
            block_height,
            events,
        ),
    decreases events.len(),
{
    let all = events.push(last);
    if events.len() == 0 {
        assert(all.drop_first() =~= Seq::empty());
        assert(undo_events(s, all.drop_first()) == start(s));
        assert(undo_events_consistent(s, block_height, all.drop_first()));
    } else {
        let rest = events.drop_first();
        assert(all.drop_first() =~= rest.push(last));
        lemma_undo_last(s, block_height, rest, last, p);
    }
}

/// Undoing events that can be undone, at the height at which they were connected, gives back the
/// state before them.
pub proof fn law_events_undone(
    s: StateView,
    block_height: u32,
    events: Seq<(BlockHash, EventView)>,
)
    requires
        has_statuses(s),
        all_undoable(s, block_height, events),
    ensures
        ({
            let p = connect_events(s, block_height, events);
            &&& p.result is Ok
            &&& has_statuses(p.state)
            &&& undo_events_consistent(p.state, block_height, events)
            &&& undo_events(p.state, events).result is Ok
            &&& undo_events(p.state, events).state == s
        }),
    decreases events.len(),
{
    if events.len() > 0 {
        let init = events.drop_last();
        let p = connect_events(s, block_height, init);
        law_events_undone(s, block_height, init);
        let q = connect_event(p, block_height, events.last());
        law_event_undone(p, block_height, events.last());
        lemma_statuses_kept(p, block_height, events.last());
        let r = undo_event(start(q.state), events.last());
        assert(r.state == p.state && r.result is Ok);
        lemma_undo_last(q.state, block_height, init, events.last(), r);
        assert(init.push(events.last()) =~= events);
    }
}

} // verus!
