//! Connecting two-way peg data.

use crate::bundle::{m6id_of, BundleView, WithdrawalBundle};
use crate::collect::{collect_withdrawal_bundle, collectable, collected};
use crate::data::{
    block_events, events_of, lemma_blocks_grow, lemma_events_grow, lemma_events_prefix, BlockEvent,
    EventView, TwoWayPegData, WithdrawalBundleEvent, WithdrawalBundleEventStatus,
};
use crate::error::{ConnectWithdrawalBundleSubmitted, Error, NoUtxo, PendingWithdrawalBundleUnknown};
use crate::guard::can_connect_event;
use crate::order::{before, lex_before, same, Duplicate, Key};
use crate::output::{BlockHash, M6id, OutPoint};
use crate::rollback::{HeightStamped, RollBack};
use crate::state::{
    first_absent, keys_before, spent, unspent, InfoView, State, StateView, Statuses,
    WithdrawalBundleInfo, WithdrawalBundleStatus, WITHDRAWAL_BUNDLE_FAILURE_GAP,
};
use crate::table::Table;
use vstd::prelude::*;

verus! {

/// The statuses of a bundle with one more.
pub open spec fn with_status(
    statuses: Seq<HeightStamped<WithdrawalBundleStatus>>,
    value: WithdrawalBundleStatus,
    height: u32,
) -> Seq<HeightStamped<WithdrawalBundleStatus>> {
    statuses.push(HeightStamped { value, height })
}

/// The state with a new record of a bundle.
pub open spec fn recorded(
    s: StateView,
    m6id: M6id,
    info: InfoView,
    statuses: Seq<HeightStamped<WithdrawalBundleStatus>>,
) -> StateView {
    StateView { withdrawal_bundles: s.withdrawal_bundles.insert(m6id, (info, statuses)), ..s }
}

/// Whether a status says that a bundle is on its way on the mainchain.
pub open spec fn is_submitted(status: WithdrawalBundleStatus) -> bool {
    status == WithdrawalBundleStatus::Submitted || status
        == WithdrawalBundleStatus::SubmittedUnexpected
}

/// Why a bundle that is not the pending one cannot be submitted, if it cannot.
pub open spec fn submission_refused(
    info: InfoView,
    latest: HeightStamped<WithdrawalBundleStatus>,
    event_block_hash: BlockHash,
    m6id: M6id,
) -> Option<ConnectWithdrawalBundleSubmitted> {
    match (latest.value, info) {
        (WithdrawalBundleStatus::Confirmed, _) => Some(
            ConnectWithdrawalBundleSubmitted::ConfirmedResubmitted { event_block_hash, m6id },
        ),
        (WithdrawalBundleStatus::Submitted, _) => Some(
            ConnectWithdrawalBundleSubmitted::Resubmitted {
                event_block_hash,
                m6id,
                submitted_block_height: latest.height,
            },
        ),
        (WithdrawalBundleStatus::SubmittedUnexpected, _) => Some(
            ConnectWithdrawalBundleSubmitted::Resubmitted {
                event_block_hash,
                m6id,
                submitted_block_height: latest.height,
            },
        ),
        (WithdrawalBundleStatus::Dropped, InfoView::Known(_)) => None,
        (WithdrawalBundleStatus::Dropped, _) => Some(
            ConnectWithdrawalBundleSubmitted::UnknownDropped {
                m6id,
                dropped_block_height: latest.height,
            },
        ),
        (WithdrawalBundleStatus::Pending, InfoView::Known(_)) => Some(
            ConnectWithdrawalBundleSubmitted::DroppedPending(m6id),
        ),
        (WithdrawalBundleStatus::Pending, _) => Some(
            ConnectWithdrawalBundleSubmitted::UnknownPending {
                m6id,
                pending_block_height: latest.height,
            },
        ),
        (WithdrawalBundleStatus::Failed, InfoView::UnknownConfirmed { .. }) => Some(
            ConnectWithdrawalBundleSubmitted::UnknownConfirmedFailed {
                m6id,
                failed_block_height: latest.height,
            },
        ),
        (WithdrawalBundleStatus::Failed, _) => None,
    }
}

/// What the submission of a bundle does.
///
/// The pending bundle has to be known. What it spends has to be unspent; then it is spent, and no
/// bundle is pending any more. Another bundle that there is a record of can only be submitted if it
/// was dropped or has failed. A bundle without a record is recorded as unknown.
pub open spec fn submitted(
    s: StateView,
    block_height: u32,
    event_block_hash: BlockHash,
    m6id: M6id,
) -> (StateView, Result<(), ConnectWithdrawalBundleSubmitted>) {
    let (info, statuses) = s.withdrawal_bundles[m6id];
    if s.pending_withdrawal_bundle == Some(m6id) {
        if !s.withdrawal_bundles.contains_key(m6id) || info !is Known {
            (
                s,
                Err(
                    ConnectWithdrawalBundleSubmitted::PendingWithdrawalBundleUnknown(
                        PendingWithdrawalBundleUnknown(m6id),
                    ),
                ),
            )
        } else {
            let outputs = info->Known_0.spend_utxos;
            let keys = outputs.dom();
            if keys.subset_of(s.utxos.dom()) {
                let after = spent(s, outputs, keys, m6id);
                (
                    StateView {
                        pending_withdrawal_bundle: None,
                        ..recorded(
                            after,
                            m6id,
                            info,
                            with_status(statuses, WithdrawalBundleStatus::Submitted, block_height),
                        )
                    },
                    Ok(()),
                )
            } else {
                let outpoint = first_absent(keys, s.utxos.dom());
                (
                    spent(s, outputs, keys_before(keys, outpoint), m6id),
                    Err(ConnectWithdrawalBundleSubmitted::NoUtxo(NoUtxo { outpoint })),
                )
            }
        }
    } else if s.withdrawal_bundles.contains_key(m6id) {
        match submission_refused(info, statuses.last(), event_block_hash, m6id) {
            Some(e) => (s, Err(e)),
            None => (
                recorded(
                    s,
                    m6id,
                    info,
                    with_status(
                        statuses,
                        WithdrawalBundleStatus::SubmittedUnexpected,
                        block_height,
                    ),
                ),
                Ok(()),
            ),
        }
    } else {
        (
            recorded(
                s,
                m6id,
                InfoView::Unknown,
                with_status(Seq::empty(), WithdrawalBundleStatus::Submitted, block_height),
            ),
            Ok(()),
        )
    }
}

/// Whether the record of a bundle allows that its submission is connected, where it is: the bundle
/// is pending if it is the pending one, and its record is not from a later height.
pub open spec fn submission_consistent(
    s: StateView,
    block_height: u32,
    event_block_hash: BlockHash,
    m6id: M6id,
) -> bool {
    let latest = s.withdrawal_bundles[m6id].1.last();
    s.withdrawal_bundles.contains_key(m6id) && submitted(
        s,
        block_height,
        event_block_hash,
        m6id,
    ).1 is Ok ==> {
        &&& latest.height <= block_height
        &&& s.pending_withdrawal_bundle == Some(m6id) ==> latest.value
            == WithdrawalBundleStatus::Pending
    }
}

/// What the confirmation of a bundle does.
///
/// A bundle that is confirmed already is left as it is. The outputs of a bundle that was submitted
/// unexpectedly have to be unspent; then they are spent. A bundle that is not known can only be
/// confirmed at height 0, and then it spends all outputs.
pub open spec fn confirmed(
    s: StateView,
    block_height: u32,
    event_block_hash: BlockHash,
    m6id: M6id,
) -> (StateView, Result<(), Error>) {
    let (info, statuses) = s.withdrawal_bundles[m6id];
    let now = with_status(statuses, WithdrawalBundleStatus::Confirmed, block_height);
    if !s.withdrawal_bundles.contains_key(m6id) {
        (s, Err(Error::UnknownWithdrawalBundle { m6id }))
    } else if statuses.last().value == WithdrawalBundleStatus::Confirmed {
        (s, Ok(()))
    } else {
        match info {
            InfoView::UnknownConfirmed { .. } => (
                s,
                Err(Error::UnknownWithdrawalBundleReconfirmed { event_block_hash, m6id }),
            ),
            InfoView::Unknown => if block_height == 0 {
                let after = spent(s, s.utxos, s.utxos.dom(), m6id);
                (
                    recorded(
                        after,
                        m6id,
                        InfoView::UnknownConfirmed { spend_utxos: s.utxos },
                        now,
                    ),
                    Ok(()),
                )
            } else {
                (s, Err(Error::UnknownWithdrawalBundleConfirmed { event_block_hash, m6id }))
            },
            InfoView::Known(bundle) => {
                let outputs = bundle.spend_utxos;
                let keys = outputs.dom();
                if statuses.last().value != WithdrawalBundleStatus::SubmittedUnexpected {
                    (recorded(s, m6id, info, now), Ok(()))
                } else if keys.subset_of(s.utxos.dom()) {
                    (recorded(spent(s, outputs, keys, m6id), m6id, info, now), Ok(()))
                } else {
                    let outpoint = first_absent(keys, s.utxos.dom());
                    (
                        spent(s, outputs, keys_before(keys, outpoint), m6id),
                        Err(
                            Error::UnexpectedWithdrawalBundleInsolvency {
                                event_block_hash,
                                m6id,
                                outpoint,
                            },
                        ),
                    )
                }
            },
        }
    }
}

/// Whether the record of a bundle allows that its confirmation is connected, where it is: the
/// bundle is confirmed already, or it is submitted, and not at a later height if that is to be
/// recorded.
pub open spec fn confirmation_consistent(
    s: StateView,
    block_height: u32,
    event_block_hash: BlockHash,
    m6id: M6id,
) -> bool {
    let latest = s.withdrawal_bundles[m6id].1.last();
    s.withdrawal_bundles.contains_key(m6id) ==> {
        ||| latest.value == WithdrawalBundleStatus::Confirmed
        ||| is_submitted(latest.value) && (confirmed(
            s,
            block_height,
            event_block_hash,
            m6id,
        ).1 is Ok ==> latest.height <= block_height)
    }
}

/// The bundles that failed, with one more.
pub open spec fn with_failed(
    failed: Option<Seq<HeightStamped<M6id>>>,
    m6id: M6id,
    height: u32,
) -> Option<Seq<HeightStamped<M6id>>> {
    let entry = HeightStamped { value: m6id, height };
    match failed {
        Some(earlier) => Some(earlier.push(entry)),
        None => Some(seq![entry]),
    }
}

/// What the failure of a bundle does.
///
/// A bundle that has failed already is left as it is. If a known bundle was submitted as expected,
/// what it spent is unspent again, and it is the bundle that failed last.
pub open spec fn failed(s: StateView, block_height: u32, m6id: M6id) -> (
    StateView,
    Result<(), Error>,
) {
    let (info, statuses) = s.withdrawal_bundles[m6id];
    let now = with_status(statuses, WithdrawalBundleStatus::Failed, block_height);
    if !s.withdrawal_bundles.contains_key(m6id) {
        (s, Err(Error::UnknownWithdrawalBundle { m6id }))
    } else if statuses.last().value == WithdrawalBundleStatus::Failed {
        (s, Ok(()))
    } else if info is Known && statuses.last().value
        != WithdrawalBundleStatus::SubmittedUnexpected {
        let outputs = info->Known_0.spend_utxos;
        let after = unspent(s, outputs, outputs.dom(), outputs.dom());
        (
            StateView {
                latest_failed_withdrawal_bundle: with_failed(
                    s.latest_failed_withdrawal_bundle,
                    m6id,
                    block_height,
                ),
                ..recorded(after, m6id, info, now)
            },
            Ok(()),
        )
    } else {
        (recorded(s, m6id, info, now), Ok(()))
    }
}

/// Whether the record of a bundle allows that its failure is connected, where it is: the bundle has
/// failed already, or it is submitted, and neither that nor the last failure that is to be followed
/// is at a later height.
pub open spec fn failure_consistent(s: StateView, block_height: u32, m6id: M6id) -> bool {
    let (info, statuses) = s.withdrawal_bundles[m6id];
    let latest = statuses.last();
    s.withdrawal_bundles.contains_key(m6id) ==> {
        ||| latest.value == WithdrawalBundleStatus::Failed
        ||| {
            &&& is_submitted(latest.value)
            &&& latest.height <= block_height
            &&& info is Known && latest.value == WithdrawalBundleStatus::Submitted
                && s.latest_failed_withdrawal_bundle is Some
                ==> s.latest_failed_withdrawal_bundle->0.last().height <= block_height
        }
    }
}

/// What an event of a withdrawal bundle does.
pub open spec fn bundle_event(
    s: StateView,
    block_height: u32,
    event_block_hash: BlockHash,
    event: WithdrawalBundleEvent,
) -> (StateView, Result<(), Error>) {
    match event.status {
        WithdrawalBundleEventStatus::Submitted => {
            let (after, r) = submitted(s, block_height, event_block_hash, event.m6id);
            (
                after,
                match r {
                    Ok(()) => Ok(()),
                    Err(e) => Err(Error::ConnectWithdrawalBundleSubmitted(e)),
                },
            )
        },
        WithdrawalBundleEventStatus::Confirmed => confirmed(
            s,
            block_height,
            event_block_hash,
            event.m6id,
        ),
        WithdrawalBundleEventStatus::Failed => failed(s, block_height, event.m6id),
    }
}

/// Whether the record of a bundle allows that an event of it is connected.
pub open spec fn bundle_event_consistent(
    s: StateView,
    block_height: u32,
    event_block_hash: BlockHash,
    event: WithdrawalBundleEvent,
) -> bool {
    match event.status {
        WithdrawalBundleEventStatus::Submitted => submission_consistent(
            s,
            block_height,
            event_block_hash,
            event.m6id,
        ),
        WithdrawalBundleEventStatus::Confirmed => confirmation_consistent(
            s,
            block_height,
            event_block_hash,
            event.m6id,
        ),
        WithdrawalBundleEventStatus::Failed => failure_consistent(s, block_height, event.m6id),
    }
}

/// Where the handling of events stands: the state, the blocks of the last deposit and of the last
/// bundle event, and whether an event could not be handled.
#[verifier::ext_equal]
pub struct Progress {
    pub state: StateView,
    pub deposit_block: Option<BlockHash>,
    pub bundle_event_block: Option<BlockHash>,
    pub result: Result<(), Error>,
}

/// The start of the handling of events.
pub open spec fn start(state: StateView) -> Progress {
    Progress { state, deposit_block: None, bundle_event_block: None, result: Ok(()) }
}

/// What connecting an event does. A deposit makes its output unspent.
pub open spec fn connect_event(
    p: Progress,
    block_height: u32,
    event: (BlockHash, EventView),
) -> Progress {
    let (hash, e) = event;
    match e {
        EventView::Deposit { outpoint, output } => Progress {
            state: StateView {
                utxos: p.state.utxos.insert(OutPoint::Deposit(outpoint), output),
                ..p.state
            },
            deposit_block: Some(hash),
            ..p
        },
        EventView::WithdrawalBundle(e) => {
            let (state, result) = bundle_event(p.state, block_height, hash, e);
            Progress {
                state,
                bundle_event_block: if result is Ok {
                    Some(hash)
                } else {
                    p.bundle_event_block
                },
                result,
                ..p
            }
        },
    }
}

/// Whether an event is consistent with the state that it is connected to.
pub open spec fn event_consistent(
    s: StateView,
    block_height: u32,
    event: (BlockHash, EventView),
) -> bool {
    match event.1 {
        EventView::Deposit { .. } => true,
        EventView::WithdrawalBundle(e) => bundle_event_consistent(s, block_height, event.0, e),
    }
}

/// What connecting events does, one after the other, up to the first that cannot be connected.
pub open spec fn connect_events(
    s: StateView,
    block_height: u32,
    events: Seq<(BlockHash, EventView)>,
) -> Progress
    decreases events.len(),
{
    if events.len() == 0 {
        start(s)
    } else {
        let p = connect_events(s, block_height, events.drop_last());
        if p.result is Ok {
            connect_event(p, block_height, events.last())
        } else {
            p
        }
    }
}

/// Whether each event that is connected is consistent with the state that it is connected to.
pub open spec fn events_consistent(
    s: StateView,
    block_height: u32,
    events: Seq<(BlockHash, EventView)>,
) -> bool
    decreases events.len(),
{
    events.len() > 0 ==> {
        let p = connect_events(s, block_height, events.drop_last());
        &&& events_consistent(s, block_height, events.drop_last())
        &&& p.result is Ok ==> event_consistent(p.state, block_height, events.last())
    }
}

/// Whether `k` is the last number in a log of blocks.
pub open spec fn is_last_index(log: Map<u32, (BlockHash, u32)>, k: u32) -> bool {
    &&& log.contains_key(k)
    &&& forall|q: u32| #[trigger] log.contains_key(q) ==> q <= k
}

/// The last number in a log of blocks.
pub open spec fn last_index(log: Map<u32, (BlockHash, u32)>) -> u32 {
    choose|k: u32| is_last_index(log, k)
}

/// The number that a new block gets in a log.
pub open spec fn next_index(log: Map<u32, (BlockHash, u32)>) -> int {
    if log == Map::<u32, (BlockHash, u32)>::empty() {
        0
    } else {
        last_index(log) + 1
    }
}

/// A log with one more block, if there is one.
pub open spec fn logged(
    log: Map<u32, (BlockHash, u32)>,
    block: Option<BlockHash>,
    block_height: u32,
) -> Map<u32, (BlockHash, u32)> {
    match block {
        Some(hash) => log.insert(next_index(log) as u32, (hash, block_height)),
        None => log,
    }
}

/// The state after the blocks of the last deposit and of the last bundle event are noted.
pub open spec fn checkpointed(p: Progress, block_height: u32) -> StateView {
    StateView {
        deposit_blocks: logged(p.state.deposit_blocks, p.deposit_block, block_height),
        withdrawal_bundle_event_blocks: logged(
            p.state.withdrawal_bundle_event_blocks,
            p.bundle_event_block,
            block_height,
        ),
        ..p.state
    }
}

/// Whether there are numbers left for the blocks that are to be noted.
pub open spec fn indices_left(p: Progress) -> bool {
    &&& p.deposit_block is Some ==> next_index(p.state.deposit_blocks) <= u32::MAX
    &&& p.bundle_event_block is Some ==> next_index(p.state.withdrawal_bundle_event_blocks)
        <= u32::MAX
}

/// The height at which the last bundle failed, or 0.
pub open spec fn last_failure_height(s: StateView) -> u32 {
    match s.latest_failed_withdrawal_bundle {
        Some(failed) => failed.last().height,
        None => 0,
    }
}

/// Whether it is time to make a bundle: none is pending and none has failed lately.
pub open spec fn bundle_due(s: StateView, block_height: u32) -> bool {
    &&& block_height - last_failure_height(s) >= WITHDRAWAL_BUNDLE_FAILURE_GAP
    &&& s.pending_withdrawal_bundle is None
}

/// The state after a bundle is made the pending one.
pub open spec fn with_pending(s: StateView, block_height: u32, bundle: BundleView) -> StateView {
    let m6id = m6id_of(bundle);
    let statuses = if s.withdrawal_bundles.contains_key(m6id) {
        s.withdrawal_bundles[m6id].1
    } else {
        Seq::empty()
    };
    StateView {
        pending_withdrawal_bundle: Some(m6id),
        ..recorded(
            s,
            m6id,
            InfoView::Known(bundle),
            with_status(statuses, WithdrawalBundleStatus::Pending, block_height),
        )
    }
}

/// What making a bundle does, if it is time to make one.
pub open spec fn bundled(s: StateView, block_height: u32) -> (StateView, Result<(), Error>) {
    if bundle_due(s, block_height) {
        match collected(s.utxos, block_height) {
            Ok(Some(bundle)) => (with_pending(s, block_height, bundle), Ok(())),
            Ok(None) => (s, Ok(())),
            Err(e) => (s, Err(e)),
        }
    } else {
        (s, Ok(()))
    }
}

/// Whether the state allows that a bundle is made, if it is time to make one: the last failure is
/// not at a later height, the fees can be summed, and neither is an earlier record of the bundle at
/// a later height.
pub open spec fn bundling_consistent(s: StateView, block_height: u32) -> bool {
    &&& last_failure_height(s) <= block_height
    &&& bundle_due(s, block_height) ==> {
        &&& collectable(s.utxos)
        &&& collected(s.utxos, block_height) matches Ok(Some(bundle)) ==> {
            let m6id = m6id_of(bundle);
            s.withdrawal_bundles.contains_key(m6id) ==> s.withdrawal_bundles[m6id].1.last().height
                <= block_height
        }
    }
}

/// What connecting two-way peg data does: its events are connected in order, the blocks of the last
/// deposit and the last bundle event are noted, and a bundle is made if it is time.
pub open spec fn connected(s: StateView, events: Seq<(BlockHash, EventView)>) -> (
    StateView,
    Result<(), Error>,
) {
    match s.height {
        None => (s, Err(Error::NoTip)),
        Some(block_height) => {
            let p = connect_events(s, block_height, events);
            if p.result is Ok {
                bundled(checkpointed(p, block_height), block_height)
            } else {
                (p.state, p.result)
            }
        },
    }
}

/// Whether two-way peg data is consistent with the state that it is connected to.
pub open spec fn connect_consistent(s: StateView, events: Seq<(BlockHash, EventView)>) -> bool {
    s.height matches Some(block_height) ==> {
        let p = connect_events(s, block_height, events);
        &&& events_consistent(s, block_height, events)
        &&& p.result is Ok ==> {
            &&& indices_left(p)
            &&& bundling_consistent(checkpointed(p, block_height), block_height)
        }
    }
}

/// Adds a status that is not from an earlier height.
pub fn push_status(statuses: &mut Statuses, status: WithdrawalBundleStatus, height: u32)
    requires
        old(statuses)@.last().height <= height,
    ensures
        final(statuses)@ == with_status(old(statuses)@, status, height),
{
    match statuses.push(status, height) {
        Ok(()) => {},
        Err(_) => {
            assert(false);
        },
    }
}

/// Why a bundle that is not the pending one cannot be submitted, if it cannot.
pub fn refuse_submission(
    info: &WithdrawalBundleInfo,
    latest: HeightStamped<WithdrawalBundleStatus>,
    event_block_hash: &BlockHash,
    m6id: M6id,
) -> (refused: Option<ConnectWithdrawalBundleSubmitted>)
    ensures
        refused == submission_refused(info@, latest, *event_block_hash, m6id),
{
    match latest.value {
        WithdrawalBundleStatus::Confirmed => {
            Some(
                ConnectWithdrawalBundleSubmitted::ConfirmedResubmitted {
                    event_block_hash: *event_block_hash,
                    m6id,
                },
            )
        },
        WithdrawalBundleStatus::Submitted | WithdrawalBundleStatus::SubmittedUnexpected => {
            Some(
                ConnectWithdrawalBundleSubmitted::Resubmitted {
                    event_block_hash: *event_block_hash,
                    m6id,
                    submitted_block_height: latest.height,
                },
            )
        },
        WithdrawalBundleStatus::Dropped => match info {
            WithdrawalBundleInfo::Known(_) => None,
            _ => Some(
                ConnectWithdrawalBundleSubmitted::UnknownDropped {
                    m6id,
                    dropped_block_height: latest.height,
                },
            ),
        },
        WithdrawalBundleStatus::Pending => match info {
            WithdrawalBundleInfo::Known(_) => {
                Some(ConnectWithdrawalBundleSubmitted::DroppedPending(m6id))
            },
            _ => Some(
                ConnectWithdrawalBundleSubmitted::UnknownPending {
                    m6id,
                    pending_block_height: latest.height,
                },
            ),
        },
        WithdrawalBundleStatus::Failed => match info {
            WithdrawalBundleInfo::UnknownConfirmed { .. } => {
                Some(
                    ConnectWithdrawalBundleSubmitted::UnknownConfirmedFailed {
                        m6id,
                        failed_block_height: latest.height,
                    },
                )
            },
            _ => None,
        },
    }
}

/// Connects the submission of a bundle.
pub fn connect_withdrawal_bundle_submitted(
    state: &mut State,
    block_height: u32,
    event_block_hash: &BlockHash,
    m6id: M6id,
) -> (r: Result<(), ConnectWithdrawalBundleSubmitted>)
    requires
        submission_consistent(old(state)@, block_height, *event_block_hash, m6id),
    ensures
        (final(state)@, r) == submitted(old(state)@, block_height, *event_block_hash, m6id),
{
    let ghost s = state@;
    let pending = match &state.pending_withdrawal_bundle {
        Some(p) => same(p, &m6id),
        None => false,
    };
    let record = state.withdrawal_bundles.remove(&m6id);
    if pending {
        let (info, mut statuses) = match record {
            Some(record) => record,
            None => {
                assert(state@ =~= s);
                let e = PendingWithdrawalBundleUnknown(m6id);
                return Err(ConnectWithdrawalBundleSubmitted::PendingWithdrawalBundleUnknown(e));
            },
        };
        let bundle = match info {
            WithdrawalBundleInfo::Known(bundle) => bundle,
            other => {
                state.withdrawal_bundles.put(m6id, (other, statuses));
                assert(state@ =~= s);
                let e = PendingWithdrawalBundleUnknown(m6id);
                return Err(ConnectWithdrawalBundleSubmitted::PendingWithdrawalBundleUnknown(e));
            },
        };
        match state.spend(bundle.spend_utxos(), m6id) {
            Ok(()) => {},
            Err(outpoint) => {
                state.withdrawal_bundles.put(m6id, (WithdrawalBundleInfo::Known(bundle), statuses));
                assert(state@ =~= submitted(s, block_height, *event_block_hash, m6id).0);
                return Err(ConnectWithdrawalBundleSubmitted::NoUtxo(NoUtxo { outpoint }));
            },
        }
        push_status(&mut statuses, WithdrawalBundleStatus::Submitted, block_height);
        state.withdrawal_bundles.put(m6id, (WithdrawalBundleInfo::Known(bundle), statuses));
        state.pending_withdrawal_bundle = None;
    } else if let Some((info, mut statuses)) = record {
        let latest = *statuses.latest();
        let refused = refuse_submission(&info, latest, event_block_hash, m6id);
        if let Some(e) = refused {
            state.withdrawal_bundles.put(m6id, (info, statuses));
            assert(state@ =~= s);
            return Err(e);
        }
        push_status(&mut statuses, WithdrawalBundleStatus::SubmittedUnexpected, block_height);
        state.withdrawal_bundles.put(m6id, (info, statuses));
    } else {
        let statuses = RollBack::<HeightStamped<WithdrawalBundleStatus>>::new(
            WithdrawalBundleStatus::Submitted,
            block_height,
        );
        assert(statuses@ =~= with_status(
            Seq::empty(),
            WithdrawalBundleStatus::Submitted,
            block_height,
        ));
        state.withdrawal_bundles.put(m6id, (WithdrawalBundleInfo::Unknown, statuses));
    }
    assert(state@ =~= submitted(s, block_height, *event_block_hash, m6id).0);
    Ok(())
}

/// Connects the confirmation of a bundle.
pub fn connect_withdrawal_bundle_confirmed(
    state: &mut State,
    block_height: u32,
    event_block_hash: &BlockHash,
    m6id: M6id,
) -> (r: Result<(), Error>)
    requires
        confirmation_consistent(old(state)@, block_height, *event_block_hash, m6id),
    ensures
        (final(state)@, r) == confirmed(old(state)@, block_height, *event_block_hash, m6id),
{
    let ghost s = state@;
    let (mut info, mut statuses) = match state.withdrawal_bundles.remove(&m6id) {
        Some(record) => record,
        None => {
            assert(state@ =~= s);
            return Err(Error::UnknownWithdrawalBundle { m6id });
        },
    };
    let latest = statuses.latest().value;
    if latest == WithdrawalBundleStatus::Confirmed {
        // Already applied
        state.withdrawal_bundles.put(m6id, (info, statuses));
        assert(state@ =~= s);
        return Ok(());
    }
    match &info {
        WithdrawalBundleInfo::UnknownConfirmed { .. } => {
            state.withdrawal_bundles.put(m6id, (info, statuses));
            assert(state@ =~= s);
            return Err(
                Error::UnknownWithdrawalBundleReconfirmed {
                    event_block_hash: *event_block_hash,
                    m6id,
                },
            );
        },
        WithdrawalBundleInfo::Unknown => {
            // All outputs older than the submission are potentially spent. At height 0 there are
            // no others, and none of them could have been spent yet.
            if block_height != 0 {
                state.withdrawal_bundles.put(m6id, (info, statuses));
                assert(state@ =~= s);
                return Err(
                    Error::UnknownWithdrawalBundleConfirmed {
                        event_block_hash: *event_block_hash,
                        m6id,
                    },
                );
            }
            let spend_utxos = state.spend_all(m6id);
            info = WithdrawalBundleInfo::UnknownConfirmed { spend_utxos };
        },
        WithdrawalBundleInfo::Known(bundle) => {
            if latest == WithdrawalBundleStatus::SubmittedUnexpected {
                // Unless all of its outputs can be spent, the chain is insolvent.
                match state.spend(bundle.spend_utxos(), m6id) {
                    Ok(()) => {},
                    Err(outpoint) => {
                        state.withdrawal_bundles.put(m6id, (info, statuses));
                        assert(state@ =~= confirmed(s, block_height, *event_block_hash, m6id).0);
                        return Err(
                            Error::UnexpectedWithdrawalBundleInsolvency {
                                event_block_hash: *event_block_hash,
                                m6id,
                                outpoint,
                            },
                        );
                    },
                }
            }
        },
    }
    push_status(&mut statuses, WithdrawalBundleStatus::Confirmed, block_height);
    state.withdrawal_bundles.put(m6id, (info, statuses));
    assert(state@ =~= confirmed(s, block_height, *event_block_hash, m6id).0);
    Ok(())
}

/// Connects the failure of a bundle.
pub fn connect_withdrawal_bundle_failed(
    state: &mut State,
    block_height: u32,
    m6id: M6id,
) -> (r: Result<(), Error>)
    requires
        failure_consistent(old(state)@, block_height, m6id),
    ensures
        (final(state)@, r) == failed(old(state)@, block_height, m6id),
{
    let ghost s = state@;
    let (info, mut statuses) = match state.withdrawal_bundles.remove(&m6id) {
        Some(record) => record,
        None => {
            assert(state@ =~= s);
            return Err(Error::UnknownWithdrawalBundle { m6id });
        },
    };
    let latest = statuses.latest().value;
    if latest == WithdrawalBundleStatus::Failed {
        // Already applied
        state.withdrawal_bundles.put(m6id, (info, statuses));
        assert(state@ =~= s);
        return Ok(());
    }
    if let WithdrawalBundleInfo::Known(bundle) = &info {
        if latest != WithdrawalBundleStatus::SubmittedUnexpected {
            state.unspend(bundle.spend_utxos());
            let mut earlier: Option<RollBack<HeightStamped<M6id>>> = None;
            std::mem::swap(&mut earlier, &mut state.latest_failed_withdrawal_bundle);
            let latest_failed = match earlier {
                Some(mut failed) => {
                    match failed.push(m6id, block_height) {
                        Ok(()) => {},
                        Err(_) => {
                            assert(false);
                        },
                    }
                    failed
                },
                None => RollBack::<HeightStamped<M6id>>::new(m6id, block_height),
            };
            state.latest_failed_withdrawal_bundle = Some(latest_failed);
        }
    }
    push_status(&mut statuses, WithdrawalBundleStatus::Failed, block_height);
    state.withdrawal_bundles.put(m6id, (info, statuses));
    assert(state@ =~= failed(s, block_height, m6id).0);
    Ok(())
}

/// Connects an event of a bundle.
pub fn connect_withdrawal_bundle_event(
    state: &mut State,
    block_height: u32,
    event_block_hash: &BlockHash,
    event: &WithdrawalBundleEvent,
) -> (r: Result<(), Error>)
    requires
        bundle_event_consistent(old(state)@, block_height, *event_block_hash, *event),
    ensures
        (final(state)@, r) == bundle_event(old(state)@, block_height, *event_block_hash, *event),
{
    match event.status {
        WithdrawalBundleEventStatus::Submitted => {
            match connect_withdrawal_bundle_submitted(
                state,
                block_height,
                event_block_hash,
                event.m6id,
            ) {
                Ok(()) => Ok(()),
                Err(e) => Err(Error::ConnectWithdrawalBundleSubmitted(e)),
            }
        },
        WithdrawalBundleEventStatus::Confirmed => {
            connect_withdrawal_bundle_confirmed(state, block_height, event_block_hash, event.m6id)
        },
        WithdrawalBundleEventStatus::Failed => {
            connect_withdrawal_bundle_failed(state, block_height, event.m6id)
        },
    }
}

/// Connects an event, and notes its block as that of the last deposit or bundle event.
pub fn connect_2wpd_event(
    state: &mut State,
    block_height: u32,
    latest_deposit_block_hash: &mut Option<BlockHash>,
    latest_withdrawal_bundle_event_block_hash: &mut Option<BlockHash>,
    event_block_hash: BlockHash,
    event: &BlockEvent,
) -> (r: Result<(), Error>)
    requires
        event_consistent(old(state)@, block_height, (event_block_hash, event@)),
    ensures
        (Progress {
            state: final(state)@,
            deposit_block: *final(latest_deposit_block_hash),
            bundle_event_block: *final(latest_withdrawal_bundle_event_block_hash),
            result: r,
        }) == connect_event(
            Progress {
                state: old(state)@,
                deposit_block: *old(latest_deposit_block_hash),
                bundle_event_block: *old(latest_withdrawal_bundle_event_block_hash),
                result: Ok(()),
            },
            block_height,
            (event_block_hash, event@),
        ),
{
    match event {
        BlockEvent::Deposit(deposit) => {
            state.utxos.put(OutPoint::Deposit(deposit.outpoint), deposit.output.duplicate());
            *latest_deposit_block_hash = Some(event_block_hash);
        },
        BlockEvent::WithdrawalBundle(event) => {
            match connect_withdrawal_bundle_event(state, block_height, &event_block_hash, event) {
                Ok(()) => {},
                Err(e) => {
                    return Err(e);
                },
            }
            *latest_withdrawal_bundle_event_block_hash = Some(event_block_hash);
        },
    }
    Ok(())
}

/// Numbers are ordered as keys as they are as numbers.
pub proof fn lemma_number_order(a: u32, b: u32)
    ensures
        before::<u32>(a, b) <==> a < b,
{
    let x = <u32 as Key>::code(a);
    let y = <u32 as Key>::code(b);
    assert(x[0] == a as u64 && y[0] == b as u64);
    assert(!lex_before(x.drop_first(), y.drop_first()));
}

/// Returns the last entry of a log of blocks.
pub fn last_block(log: &Table<u32, (BlockHash, u32)>) -> (entry: Option<
    (u32, (BlockHash, u32)),
>)
    ensures
        match entry {
            Some((k, block)) => {
                &&& log@ != Map::<u32, (BlockHash, u32)>::empty()
                &&& is_last_index(log@, k)
                &&& k == last_index(log@)
                &&& block == log@[k]
            },
            None => log@ == Map::<u32, (BlockHash, u32)>::empty(),
        },
{
    match log.last() {
        Some((k, block)) => {
            proof {
                assert forall|q: u32| #[trigger] log@.contains_key(q) implies q <= *k by {
                    lemma_number_order(q, *k);
                }
                assert(is_last_index(log@, *k));
                let other = last_index(log@);
                assert(log@.contains_key(other));
            }
            Some((*k, (block.0, block.1)))
        },
        None => None,
    }
}

/// Notes a block in a log.
fn log_block(log: &mut Table<u32, (BlockHash, u32)>, hash: BlockHash, block_height: u32)
    requires
        next_index(old(log)@) <= u32::MAX,
    ensures
        final(log)@ == logged(old(log)@, Some(hash), block_height),
{
    let index: u32 = match last_block(log) {
        Some((k, _)) => k + 1,
        None => 0,
    };
    log.put(index, (hash, block_height));
}

impl State {
    /// The height at which the last bundle failed, and the bundle.
    pub fn get_latest_failed_withdrawal_bundle(&self) -> (failed: Option<(u32, M6id)>)
        ensures
            match self@.latest_failed_withdrawal_bundle {
                Some(all) => failed == Some((all.last().height, all.last().value)),
                None => failed is None,
            },
    {
        match &self.latest_failed_withdrawal_bundle {
            Some(all) => {
                let latest = all.latest();
                Some((latest.height, latest.value))
            },
            None => None,
        }
    }
}

/// Makes a bundle the pending one.
fn store_pending(state: &mut State, block_height: u32, bundle: WithdrawalBundle)
    requires
        ({
            let s = old(state)@;
            let m6id = m6id_of(bundle@);
            s.withdrawal_bundles.contains_key(m6id) ==> s.withdrawal_bundles[m6id].1.last().height
                <= block_height
        }),
    ensures
        final(state)@ == with_pending(old(state)@, block_height, bundle@),
{
    let ghost s = state@;
    let m6id = bundle.compute_m6id();
    state.pending_withdrawal_bundle = Some(m6id);
    let statuses = match state.withdrawal_bundles.remove(&m6id) {
        Some((_, mut statuses)) => {
            push_status(&mut statuses, WithdrawalBundleStatus::Pending, block_height);
            statuses
        },
        None => {
            let statuses = RollBack::<HeightStamped<WithdrawalBundleStatus>>::new(
                WithdrawalBundleStatus::Pending,
                block_height,
            );
            assert(statuses@ =~= with_status(
                Seq::empty(),
                WithdrawalBundleStatus::Pending,
                block_height,
            ));
            statuses
        },
    };
    state.withdrawal_bundles.put(m6id, (WithdrawalBundleInfo::Known(bundle), statuses));
    assert(state@ =~= with_pending(s, block_height, bundle@));
}

/// That events are consistent holds of each prefix of them. An error in a prefix is that of all,
/// and then nothing that follows matters.
proof fn lemma_prefix_consistent(
    s: StateView,
    block_height: u32,
    events: Seq<(BlockHash, EventView)>,
    n: int,
)
    requires
        0 <= n <= events.len(),
    ensures
        events_consistent(s, block_height, events) ==> events_consistent(
            s,
            block_height,
            events.take(n),
        ),
        connect_events(s, block_height, events.take(n)).result is Err ==> {
            &&& connect_events(s, block_height, events) == connect_events(
                s,
                block_height,
                events.take(n),
            )
            &&& events_consistent(s, block_height, events.take(n)) ==> events_consistent(
                s,
                block_height,
                events,
            )
        },
    decreases events.len(),
{
    if n == events.len() {
        assert(events.take(n) =~= events);
    } else {
        assert(events.drop_last().take(n) =~= events.take(n));
        lemma_prefix_consistent(s, block_height, events.drop_last(), n);
    }
}

/// Connects all events in order, up to the first that cannot be connected. Returns the blocks of
/// the last deposit and of the last bundle event, and the error if there is one. If `guarded`, each
/// event is first held against the state, and nothing is returned if one is not consistent with it.
pub(crate) fn connect_in_order(
    state: &mut State,
    block_height: u32,
    two_way_peg_data: &TwoWayPegData,
    guarded: bool,
) -> (r: Option<(Option<BlockHash>, Option<BlockHash>, Result<(), Error>)>)
    requires
        guarded || events_consistent(old(state)@, block_height, two_way_peg_data@),
    ensures
        match r {
            Some((deposit_block, bundle_event_block, result)) => {
                &&& events_consistent(old(state)@, block_height, two_way_peg_data@)
                &&& connect_events(old(state)@, block_height, two_way_peg_data@) == (Progress {
                    state: final(state)@,
                    deposit_block,
                    bundle_event_block,
                    result,
                })
            },
            None => !events_consistent(old(state)@, block_height, two_way_peg_data@),
        },
{
    let ghost s = state@;
    let ghost events = two_way_peg_data@;
    let blocks = &two_way_peg_data.block_info;
    let mut latest_deposit_block_hash: Option<BlockHash> = None;
    let mut latest_withdrawal_bundle_event_block_hash: Option<BlockHash> = None;
    let mut i: usize = 0;
    assert(events_of(blocks@.take(0)) =~= Seq::empty());
    while i < blocks.len()
        invariant
            blocks == &two_way_peg_data.block_info,
            events == events_of(blocks@),
            guarded || events_consistent(s, block_height, events),
            events_consistent(s, block_height, events_of(blocks@.take(i as int))),
            s == old(state)@,
            events == two_way_peg_data@,
            i <= blocks@.len(),
            connect_events(s, block_height, events_of(blocks@.take(i as int))) == (Progress {
                state: state@,
                deposit_block: latest_deposit_block_hash,
                bundle_event_block: latest_withdrawal_bundle_event_block_hash,
                result: Ok(()),
            }),
        decreases blocks@.len() - i,
    {
        let block = &blocks[i];
        let block_events_list = &block.1.events;
        let mut j: usize = 0;
        proof {
            lemma_blocks_grow(blocks@, i as int);
        }
        while j < block_events_list.len()
            invariant
                blocks == &two_way_peg_data.block_info,
                events == events_of(blocks@),
                guarded || events_consistent(s, block_height, events),
                events_consistent(
                    s,
                    block_height,
                    events_of(blocks@.take(i as int)) + block_events(*block, j as int),
                ),
                s == old(state)@,
                events == two_way_peg_data@,
                i < blocks@.len(),
                *block == blocks@[i as int],
                block_events_list == &block.1.events,
                j <= block_events_list@.len(),
                connect_events(
                    s,
                    block_height,
                    events_of(blocks@.take(i as int)) + block_events(*block, j as int),
                ) == (Progress {
                    state: state@,
                    deposit_block: latest_deposit_block_hash,
                    bundle_event_block: latest_withdrawal_bundle_event_block_hash,
                    result: Ok(()),
                }),
            decreases block_events_list@.len() - j,
        {
            let event = &block_events_list[j];
            proof {
                let before_event = events_of(blocks@.take(i as int)) + block_events(
                    *block,
                    j as int,
                );
                let upto = events_of(blocks@.take(i as int)) + block_events(*block, j + 1);
                lemma_events_grow(blocks@, i as int, j as int);
                assert(upto.drop_last() =~= before_event);
                lemma_events_prefix(blocks@, i as int, j + 1);
                lemma_prefix_consistent(s, block_height, events, upto.len() as int);
            }
            if guarded && !can_connect_event(state, block_height, &block.0, event) {
                return None;
            }
            match connect_2wpd_event(
                state,
                block_height,
                &mut latest_deposit_block_hash,
                &mut latest_withdrawal_bundle_event_block_hash,
                block.0,
                event,
            ) {
                Ok(()) => {},
                Err(e) => {
                    return Some(
                        (
                            latest_deposit_block_hash,
                            latest_withdrawal_bundle_event_block_hash,
                            Err(e),
                        ),
                    );
                },
            }
            j = j + 1;
        }
        proof {
            lemma_blocks_grow(blocks@, i as int);
        }
        i = i + 1;
    }
    assert(blocks@.take(i as int) =~= blocks@);
    Some((latest_deposit_block_hash, latest_withdrawal_bundle_event_block_hash, Ok(())))
}

/// Notes the blocks of the last deposit and of the last bundle event.
pub(crate) fn note_blocks(
    state: &mut State,
    deposit_block: Option<BlockHash>,
    bundle_event_block: Option<BlockHash>,
    block_height: u32,
)
    requires
        deposit_block is Some ==> next_index(old(state)@.deposit_blocks) <= u32::MAX,
        bundle_event_block is Some ==> next_index(old(state)@.withdrawal_bundle_event_blocks)
            <= u32::MAX,
    ensures
        final(state)@ == checkpointed(
            Progress {
                state: old(state)@,
                deposit_block,
                bundle_event_block,
                result: Ok(()),
            },
            block_height,
        ),
{
    if let Some(hash) = deposit_block {
        log_block(&mut state.deposit_blocks, hash, block_height);
    }
    if let Some(hash) = bundle_event_block {
        log_block(&mut state.withdrawal_bundle_event_blocks, hash, block_height);
    }
}

/// Connects two-way peg data to the state.
pub fn connect(state: &mut State, two_way_peg_data: &TwoWayPegData) -> (r: Result<(), Error>)
    requires
        connect_consistent(old(state)@, two_way_peg_data@),
    ensures
        (final(state)@, r) == connected(old(state)@, two_way_peg_data@),
{
    let block_height = match state.height {
        Some(block_height) => block_height,
        None => {
            return Err(Error::NoTip);
        },
    };
    match connect_in_order(state, block_height, two_way_peg_data, false) {
        Some((deposit_block, bundle_event_block, Ok(()))) => {
            note_blocks(state, deposit_block, bundle_event_block, block_height);
        },
        Some((_, _, Err(e))) => {
            return Err(e);
        },
        None => {
            assert(false);
        },
    }
    let last_withdrawal_bundle_failure_height: u32 =
        match state.get_latest_failed_withdrawal_bundle() {
        Some((height, _)) => height,
        None => 0,
    };
    if block_height - last_withdrawal_bundle_failure_height >= WITHDRAWAL_BUNDLE_FAILURE_GAP
        && state.pending_withdrawal_bundle.is_none() {
        match collect_withdrawal_bundle(state, block_height) {
            Ok(Some(bundle)) => {
                store_pending(state, block_height, bundle);
            },
            Ok(None) => {},
            Err(e) => {
                return Err(e);
            },
        }
    }
    Ok(())
}

} // verus!
