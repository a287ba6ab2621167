//! What bundles that are on their way spend.

use crate::bundle::{m6id_of, transaction_id, BundleView};
use crate::collect::collected;
use crate::connect::{
    confirmation_consistent, confirmed, connect_consistent, connect_event, connect_events,
    connected, event_consistent, events_consistent, failed, failure_consistent,
    submission_consistent, submitted, Progress,
};
use crate::data::EventView;
use crate::error::Error;
use crate::laws::round_trip::{deposited, deposits_to};
use crate::output::{BlockHash, M6id, OutPoint};
use crate::rollback::HeightStamped;
use crate::state::{InfoView, StateView, WithdrawalBundleStatus, WITHDRAWAL_BUNDLE_FAILURE_GAP};
use vstd::prelude::*;

verus! {

/// Whether a bundle is known, and its latest status is that it was submitted as expected.
pub open spec fn on_its_way(s: StateView, m6id: M6id) -> bool {
    &&& s.withdrawal_bundles.contains_key(m6id)
    &&& s.withdrawal_bundles[m6id].0 is Known
    &&& s.withdrawal_bundles[m6id].1.last().value == WithdrawalBundleStatus::Submitted
}

/// Whether a bundle is known and lists an output.
pub open spec fn knows(s: StateView, m6id: M6id, o: OutPoint) -> bool {
    &&& s.withdrawal_bundles.contains_key(m6id)
    &&& s.withdrawal_bundles[m6id].0 matches InfoView::Known(bundle)
        && bundle.spend_utxos.contains_key(o)
}

/// Whether none of the outputs of bundles that are on their way is unspent, and no output is listed
/// by two of these bundles.
pub open spec fn ways_apart(s: StateView) -> bool {
    &&& forall|m6id: M6id, o: OutPoint|
        on_its_way(s, m6id) && #[trigger] knows(s, m6id, o) ==> !s.utxos.contains_key(o)
    &&& forall|a: M6id, b: M6id, o: OutPoint|
        on_its_way(s, a) && on_its_way(s, b) && #[trigger] knows(s, a, o) && #[trigger] knows(
            s,
            b,
            o,
        ) ==> a == b
}

/// Connecting an event makes no bundle known.
proof fn lemma_event_knows(p: Progress, block_height: u32, event: (BlockHash, EventView))
    ensures
        forall|m6id: M6id, o: OutPoint| #[trigger]
            knows(connect_event(p, block_height, event).state, m6id, o) ==> knows(
                p.state,
                m6id,
                o,
            ),
{
    let after = connect_event(p, block_height, event).state;
    assert forall|m6id: M6id, o: OutPoint| #[trigger] knows(after, m6id, o) implies knows(
        p.state,
        m6id,
        o,
    ) by {
        assert(after.withdrawal_bundles[m6id].0 == p.state.withdrawal_bundles[m6id].0);
    }
}

/// Connecting an event keeps it so that none of the outputs of bundles that are on their way is
/// unspent, unless it deposits to such an output, and that no output is listed by two of them. A
/// bundle is on its way after a submission only if it was the pending one.
pub proof fn law_event_keeps_ways_apart(
    p: Progress,
    block_height: u32,
    event: (BlockHash, EventView),
)
    requires
        ways_apart(p.state),
        event_consistent(p.state, block_height, event),
        event.1 is Deposit ==> forall|m6id: M6id| !#[trigger]
            knows(p.state, m6id, deposited(event)),
    ensures
        ways_apart(connect_event(p, block_height, event).state),
        forall|m6id: M6id| #[trigger]
            on_its_way(connect_event(p, block_height, event).state, m6id) ==> on_its_way(
                p.state,
                m6id,
            ) || p.state.pending_withdrawal_bundle == Some(m6id),
{
    let s = p.state;
    let after = connect_event(p, block_height, event).state;
    lemma_event_knows(p, block_height, event);
    match event.1 {
        EventView::Deposit { .. } => {
            assert forall|m6id: M6id, o: OutPoint|
                on_its_way(after, m6id) && #[trigger] knows(
                    after,
                    m6id,
                    o,
                ) implies !after.utxos.contains_key(o) by {
                assert(on_its_way(s, m6id) && knows(s, m6id, o));
            }
            assert forall|a: M6id, b: M6id, o: OutPoint|
                on_its_way(after, a) && on_its_way(after, b) && #[trigger] knows(after, a, o)
                    && #[trigger] knows(after, b, o) implies a == b by {
                assert(knows(s, a, o) && knows(s, b, o));
            }
        },
        EventView::WithdrawalBundle(e) => {
            let mine = e.m6id;
            assert(forall|m6id: M6id|
                m6id != mine ==> #[trigger] on_its_way(after, m6id) == on_its_way(s, m6id));
            assert(on_its_way(after, mine) ==> on_its_way(s, mine)
                || s.pending_withdrawal_bundle == Some(mine));
            assert forall|m6id: M6id, o: OutPoint|
                on_its_way(after, m6id) && #[trigger] knows(
                    after,
                    m6id,
                    o,
                ) implies !after.utxos.contains_key(o) by {
                assert(knows(s, m6id, o));
                if after.utxos.contains_key(o) && !s.utxos.contains_key(o) {
                    assert(knows(s, mine, o) && on_its_way(s, mine));
                }
            }
            assert forall|a: M6id, b: M6id, o: OutPoint|
                on_its_way(after, a) && on_its_way(after, b) && #[trigger] knows(after, a, o)
                    && #[trigger] knows(after, b, o) implies a == b by {
                assert(knows(s, a, o) && knows(s, b, o));
            }
        },
    }
}

proof fn lemma_events_keep_ways_apart(
    s: StateView,
    block_height: u32,
    events: Seq<(BlockHash, EventView)>,
)
    requires
        ways_apart(s),
        events_consistent(s, block_height, events),
        forall|m6id: M6id, o: OutPoint| #[trigger]
            knows(s, m6id, o) ==> !deposits_to(events, o),
    ensures
        ways_apart(connect_events(s, block_height, events).state),
        forall|m6id: M6id, o: OutPoint| #[trigger]
            knows(connect_events(s, block_height, events).state, m6id, o) ==> knows(s, m6id, o),
    decreases events.len(),
{
    if events.len() > 0 {
        let init = events.drop_last();
        let event = events.last();
        assert forall|m6id: M6id, o: OutPoint| #[trigger] knows(s, m6id, o) implies !deposits_to(
            init,
            o,
        ) by {
            assert forall|i: int| 0 <= i < init.len() implies init[i] == events[i] by {}
            assert(!deposits_to(events, o));
        }
        lemma_events_keep_ways_apart(s, block_height, init);
        let p = connect_events(s, block_height, init);
        if p.result is Ok {
            if event.1 is Deposit {
                assert forall|m6id: M6id| !#[trigger] knows(p.state, m6id, deposited(event)) by {
                    if knows(p.state, m6id, deposited(event)) {
                        assert(knows(s, m6id, deposited(event)));
                        assert(events[events.len() - 1] == event);
                    }
                }
            }
            law_event_keeps_ways_apart(p, block_height, event);
            lemma_event_knows(p, block_height, event);
        }
    }
}

/// Connecting keeps it so that none of the outputs of bundles that are on their way is unspent, if
/// no deposit is to an output that a known bundle lists, and that no output is listed by two of
/// them.
pub proof fn law_connecting_keeps_ways_apart(s: StateView, events: Seq<(BlockHash, EventView)>)
    requires
        ways_apart(s),
        connect_consistent(s, events),
        forall|m6id: M6id, o: OutPoint| #[trigger]
            knows(s, m6id, o) ==> !deposits_to(events, o),
    ensures
        ways_apart(connected(s, events).0),
{
    if let Some(block_height) = s.height {
        lemma_events_keep_ways_apart(s, block_height, events);
        let p = connect_events(s, block_height, events);
        let t = p.state;
        let after = connected(s, events).0;
        assert forall|m6id: M6id| #[trigger] on_its_way(after, m6id) implies on_its_way(t, m6id)
            && after.withdrawal_bundles[m6id] == t.withdrawal_bundles[m6id] by {}
        assert forall|m6id: M6id, o: OutPoint|
            on_its_way(after, m6id) && #[trigger] knows(
                after,
                m6id,
                o,
            ) implies !after.utxos.contains_key(o) by {
            assert(knows(t, m6id, o));
        }
        assert forall|a: M6id, b: M6id, o: OutPoint|
            on_its_way(after, a) && on_its_way(after, b) && #[trigger] knows(after, a, o)
                && #[trigger] knows(after, b, o) implies a == b by {
            assert(knows(t, a, o) && knows(t, b, o));
        }
    }
}

/// The record that a bundle has after some statuses were added to it.
pub open spec fn has_added(
    after: StateView,
    s: StateView,
    m6id: M6id,
    bundle: BundleView,
    added: Seq<HeightStamped<WithdrawalBundleStatus>>,
) -> bool {
    &&& after.withdrawal_bundles.contains_key(m6id)
    &&& after.withdrawal_bundles[m6id].0 == InfoView::Known(bundle)
    &&& s.withdrawal_bundles.contains_key(m6id) ==> after.withdrawal_bundles[m6id].1
        == s.withdrawal_bundles[m6id].1 + added
    &&& !s.withdrawal_bundles.contains_key(m6id) ==> after.withdrawal_bundles[m6id].1 == added
}

/// A bundle is made, submitted and confirmed, or submitted and failed. All of it succeeds, and each
/// step adds its status to the bundle's record, after whatever was there.
///
/// The submission takes the bundle's outputs from the unspent ones. The confirmation leaves outputs
/// as they are. The failure makes those of the bundle unspent again and is noted.
pub proof fn law_life_of_bundle(
    s: StateView,
    bundle: BundleView,
    made_height: u32,
    submitted_height: u32,
    final_height: u32,
    submitted_hash: BlockHash,
    confirmed_hash: BlockHash,
)
    requires
        s.height == Some(made_height),
        s.pending_withdrawal_bundle is None,
        s.latest_failed_withdrawal_bundle matches Some(all) ==> made_height - all.last().height
            >= WITHDRAWAL_BUNDLE_FAILURE_GAP,
        s.latest_failed_withdrawal_bundle is None ==> made_height >= WITHDRAWAL_BUNDLE_FAILURE_GAP,
        collected(s.utxos, made_height) == Ok::<_, Error>(Some(bundle)),
        made_height <= submitted_height <= final_height,
    ensures
        ({
            let m6id = M6id(
                transaction_id(bundle.tx.version, bundle.tx.lock_time, bundle.tx.outputs),
            );
            let pending = HeightStamped {
                value: WithdrawalBundleStatus::Pending,
                height: made_height,
            };
            let sent = HeightStamped {
                value: WithdrawalBundleStatus::Submitted,
                height: submitted_height,
            };
            let (a, made) = connected(s, Seq::empty());
            let (b, was_submitted) = submitted(a, submitted_height, submitted_hash, m6id);
            let (c, was_confirmed) = confirmed(b, final_height, confirmed_hash, m6id);
            let (d, has_failed) = failed(b, final_height, m6id);
            &&& made is Ok && was_submitted is Ok && was_confirmed is Ok && has_failed is Ok
            &&& submission_consistent(a, submitted_height, submitted_hash, m6id)
            &&& confirmation_consistent(b, final_height, confirmed_hash, m6id)
            &&& failure_consistent(b, final_height, m6id)
            &&& a.pending_withdrawal_bundle == Some(m6id)
            &&& b.pending_withdrawal_bundle is None
            &&& c.pending_withdrawal_bundle is None
            &&& d.pending_withdrawal_bundle is None
            &&& has_added(a, s, m6id, bundle, seq![pending])
            &&& has_added(b, s, m6id, bundle, seq![pending, sent])
            &&& has_added(
                c,
                s,
                m6id,
                bundle,
                seq![
                    pending,
                    sent,
                    HeightStamped {
                        value: WithdrawalBundleStatus::Confirmed,
                        height: final_height,
                    },
                ],
            )
            &&& has_added(
                d,
                s,
                m6id,
                bundle,
                seq![
                    pending,
                    sent,
                    HeightStamped { value: WithdrawalBundleStatus::Failed, height: final_height },
                ],
            )
            &&& a.utxos == s.utxos && a.stxos == s.stxos
            &&& bundle.spend_utxos.submap_of(s.utxos)
            &&& forall|o: OutPoint| #[trigger]
                b.utxos.contains_key(o) <==> s.utxos.contains_key(o)
                    && !bundle.spend_utxos.contains_key(o)
            &&& c.utxos == b.utxos && c.stxos == b.stxos
            &&& d.utxos == s.utxos
            &&& d.latest_failed_withdrawal_bundle matches Some(all) && all.last()
                == (HeightStamped { value: m6id, height: final_height })
        }),
{
    let m6id = m6id_of(bundle);
    let pending = HeightStamped { value: WithdrawalBundleStatus::Pending, height: made_height };
    let sent = HeightStamped {
        value: WithdrawalBundleStatus::Submitted,
        height: submitted_height,
    };
    let a = connected(s, Seq::empty()).0;
    let b = submitted(a, submitted_height, submitted_hash, m6id).0;
    let c = confirmed(b, final_height, confirmed_hash, m6id).0;
    let d = failed(b, final_height, m6id).0;
    let earlier = if s.withdrawal_bundles.contains_key(m6id) {
        s.withdrawal_bundles[m6id].1
    } else {
        Seq::empty()
    };
    assert(bundle.spend_utxos.submap_of(s.utxos));
    assert(a.withdrawal_bundles[m6id].1 == earlier.push(pending));
    assert(b.withdrawal_bundles[m6id].1 == earlier.push(pending).push(sent));
    assert(earlier.push(pending) =~= earlier + seq![pending]);
    assert(earlier.push(pending).push(sent) =~= earlier + seq![pending, sent]);
    let last = c.withdrawal_bundles[m6id].1.last();
    assert(earlier.push(pending).push(sent).push(last) =~= earlier + seq![pending, sent, last]);
    let fails = d.withdrawal_bundles[m6id].1.last();
    assert(earlier.push(pending).push(sent).push(fails) =~= earlier + seq![pending, sent, fails]);
    if !s.withdrawal_bundles.contains_key(m6id) {
        assert(earlier + seq![pending] =~= seq![pending]);
        assert(earlier + seq![pending, sent] =~= seq![pending, sent]);
        assert(earlier + seq![pending, sent, last] =~= seq![pending, sent, last]);
        assert(earlier + seq![pending, sent, fails] =~= seq![pending, sent, fails]);
    }
    assert(d.utxos =~= s.utxos);
}

} // verus!
