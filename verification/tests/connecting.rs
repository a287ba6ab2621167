use two_way_peg::address::{KnownHrp, MainAddress, WitnessProgram};
use two_way_peg::bundle::{TxOut, WithdrawalBundle};
use two_way_peg::connect::{
    connect, connect_withdrawal_bundle_confirmed, connect_withdrawal_bundle_failed,
    connect_withdrawal_bundle_submitted,
};
use two_way_peg::data::{
    BlockEvent, BlockInfo, Deposit, TwoWayPegData, WithdrawalBundleEvent,
    WithdrawalBundleEventStatus,
};
use two_way_peg::error::{
    AmountOverflowError, ConnectWithdrawalBundleSubmitted, Error, NoUtxo,
    PendingWithdrawalBundleUnknown,
};
use two_way_peg::guard::{can_connect, try_connect};
use two_way_peg::order::Duplicate;
use two_way_peg::output::{
    Address, BitcoinOutputContent, BlockHash, FilledOutput, FilledOutputContent, InPoint, M6id,
    MainOutPoint, OutPoint, SpentOutput, Txid, WithdrawalOutputContent,
};
use two_way_peg::rollback::{HeightStamped, RollBack};
use two_way_peg::state::{
    State, Statuses, WithdrawalBundleInfo, WithdrawalBundleStatus, WITHDRAWAL_BUNDLE_FAILURE_GAP,
};
use two_way_peg::table::Table;

const HASH: BlockHash = BlockHash([0x11; 32]);
const ID: M6id = M6id([0xAA; 32]);

fn state_at(height: u32) -> State {
    let mut state = State::new();
    state.height = Some(height);
    state
}

fn outpoint(b: u8) -> OutPoint {
    OutPoint::Regular { txid: Txid([b; 32]), vout: 0 }
}

fn bitcoin_output(sats: u64) -> FilledOutput {
    FilledOutput {
        address: Address([0u8; 20]),
        content: FilledOutputContent::Bitcoin(BitcoinOutputContent(sats)),
        memo: vec![1, 2],
    }
}

fn withdrawal(value: u64, main_fee: u64) -> FilledOutput {
    let program = WitnessProgram::new(0, vec![5; 20]).unwrap();
    FilledOutput {
        address: Address([0u8; 20]),
        content: FilledOutputContent::BitcoinWithdrawal(WithdrawalOutputContent {
            value,
            main_fee,
            main_address: MainAddress::Segwit { program, hrp: KnownHrp::Regtest },
        }),
        memo: Vec::new(),
    }
}

fn spent(sats: u64) -> SpentOutput {
    SpentOutput { output: bitcoin_output(sats), inpoint: InPoint::Withdrawal { m6id: ID } }
}

// A known bundle that spends outputs 1, 2 and 3, of 100, 200 and 300.
fn known() -> WithdrawalBundleInfo {
    let mut spend_utxos = Table::new();
    for b in 1..4 {
        spend_utxos.put(outpoint(b), bitcoin_output(u64::from(b) * 100));
    }
    let payout = TxOut { value: 600, script_pubkey: Vec::new() };
    WithdrawalBundleInfo::Known(WithdrawalBundle::new(0, 0, spend_utxos, vec![payout]).unwrap())
}

fn unknown_confirmed() -> WithdrawalBundleInfo {
    WithdrawalBundleInfo::UnknownConfirmed { spend_utxos: Table::new() }
}

fn statuses(all: &[(WithdrawalBundleStatus, u32)]) -> Statuses {
    let mut statuses = RollBack::<HeightStamped<WithdrawalBundleStatus>>::new(all[0].0, all[0].1);
    for (status, height) in &all[1..] {
        statuses.push(*status, *height).unwrap();
    }
    statuses
}

fn with_record(
    height: u32,
    info: WithdrawalBundleInfo,
    all: &[(WithdrawalBundleStatus, u32)],
) -> State {
    let mut state = state_at(height);
    state.withdrawal_bundles.put(ID, (info, statuses(all)));
    state
}

fn with_outputs(mut state: State, bytes: &[u8]) -> State {
    for b in bytes {
        state.utxos.put(outpoint(*b), bitcoin_output(u64::from(*b) * 100));
    }
    state
}

fn latest(state: &State) -> HeightStamped<WithdrawalBundleStatus> {
    *state.withdrawal_bundles.get(&ID).unwrap().1.latest()
}

fn stamped(value: WithdrawalBundleStatus, height: u32) -> HeightStamped<WithdrawalBundleStatus> {
    HeightStamped { value, height }
}

fn deposit(b: u8, sats: u64) -> BlockEvent {
    let outpoint = MainOutPoint { txid: [b; 32], vout: 1 };
    BlockEvent::Deposit(Deposit { outpoint, output: bitcoin_output(sats) })
}

fn deposited(b: u8) -> OutPoint {
    OutPoint::Deposit(MainOutPoint { txid: [b; 32], vout: 1 })
}

fn event(status: WithdrawalBundleEventStatus) -> BlockEvent {
    BlockEvent::WithdrawalBundle(WithdrawalBundleEvent { m6id: ID, status })
}

fn data(blocks: Vec<(BlockHash, Vec<BlockEvent>)>) -> TwoWayPegData {
    let mut data = TwoWayPegData::default();
    for (hash, events) in blocks {
        data.block_info.push((hash, BlockInfo { events }));
    }
    data
}

fn submit(state: &mut State, height: u32) -> Result<(), ConnectWithdrawalBundleSubmitted> {
    let event = event(WithdrawalBundleEventStatus::Submitted);
    let mut tip = state.duplicate();
    tip.height = Some(height);
    assert!(can_connect(&tip, &data(vec![(HASH, vec![event])])));
    connect_withdrawal_bundle_submitted(state, height, &HASH, ID)
}

fn confirm(state: &mut State, height: u32) -> Result<(), Error> {
    let event = event(WithdrawalBundleEventStatus::Confirmed);
    let mut tip = state.duplicate();
    tip.height = Some(height);
    assert!(can_connect(&tip, &data(vec![(HASH, vec![event])])));
    connect_withdrawal_bundle_confirmed(state, height, &HASH, ID)
}

fn fail(state: &mut State, height: u32) -> Result<(), Error> {
    let event = event(WithdrawalBundleEventStatus::Failed);
    let mut tip = state.duplicate();
    tip.height = Some(height);
    assert!(can_connect(&tip, &data(vec![(HASH, vec![event])])));
    connect_withdrawal_bundle_failed(state, height, ID)
}

#[test]
fn a_chain_without_blocks_has_no_tip() {
    let mut state = State::new();
    assert_eq!(try_connect(&mut state, &TwoWayPegData::default()), Some(Err(Error::NoTip)));
    assert_eq!(state, State::new());
}

#[test]
fn deposits_are_connected_and_noted() {
    let mut state = state_at(2);
    let other = BlockHash([0x22; 32]);
    let events = data(vec![
        (HASH, vec![deposit(1, 50), deposit(2, 60)]),
        (other, vec![deposit(3, 70)]),
    ]);
    assert_eq!(try_connect(&mut state, &events), Some(Ok(())));
    assert_eq!(state.utxos.len(), 3);
    assert_eq!(state.utxos.get(&deposited(2)), Some(&bitcoin_output(60)));
    assert_eq!(state.deposit_blocks.len(), 1);
    assert_eq!(state.deposit_blocks.get(&0), Some(&(other, 2)));
    assert_eq!(state.withdrawal_bundle_event_blocks.len(), 0);
    assert_eq!(state.height, Some(2));
    state.height = Some(3);
    assert_eq!(try_connect(&mut state, &data(vec![(HASH, vec![deposit(4, 1)])])), Some(Ok(())));
    assert_eq!(state.deposit_blocks.get(&1), Some(&(HASH, 3)));
}

#[test]
fn a_deposit_replaces_an_output() {
    let mut state = state_at(2);
    let events = data(vec![(HASH, vec![deposit(1, 50), deposit(1, 51)])]);
    assert_eq!(connect(&mut state, &events), Ok(()));
    assert_eq!(state.utxos.len(), 1);
    assert_eq!(state.utxos.get(&deposited(1)), Some(&bitcoin_output(51)));
}

#[test]
fn logs_can_be_full() {
    let mut state = state_at(2);
    state.deposit_blocks.put(u32::MAX, (HASH, 1));
    let before = state.duplicate();
    assert_eq!(try_connect(&mut state, &data(vec![(HASH, vec![deposit(1, 50)])])), None);
    assert_eq!(state, before);
    assert_eq!(try_connect(&mut state, &TwoWayPegData::default()), Some(Ok(())));
}

#[test]
fn a_bundle_is_made_when_it_is_time() {
    let mut state = state_at(WITHDRAWAL_BUNDLE_FAILURE_GAP - 1);
    state.utxos.put(outpoint(1), withdrawal(1000, 10));
    assert_eq!(try_connect(&mut state, &TwoWayPegData::default()), Some(Ok(())));
    assert_eq!(state.pending_withdrawal_bundle, None);

    state.height = Some(WITHDRAWAL_BUNDLE_FAILURE_GAP);
    assert_eq!(try_connect(&mut state, &TwoWayPegData::default()), Some(Ok(())));
    let m6id = state.pending_withdrawal_bundle.unwrap();
    let (info, statuses) = state.withdrawal_bundles.get(&m6id).unwrap();
    assert_eq!(
        *statuses.latest(),
        stamped(WithdrawalBundleStatus::Pending, WITHDRAWAL_BUNDLE_FAILURE_GAP)
    );
    assert_eq!(statuses.previous(), None);
    match info {
        WithdrawalBundleInfo::Known(bundle) => {
            assert_eq!(bundle.compute_m6id(), m6id);
            assert_eq!(bundle.tx().output[2].value, 1000);
            assert!(bundle.spend_utxos().contains(&outpoint(1)));
        }
        other => panic!("expected a known bundle, got {other:?}"),
    }
    // Its outputs are not spent before it is submitted.
    assert!(state.utxos.contains(&outpoint(1)));

    // While it is pending no other is made.
    state.height = Some(WITHDRAWAL_BUNDLE_FAILURE_GAP + 5);
    let before = state.duplicate();
    assert_eq!(try_connect(&mut state, &TwoWayPegData::default()), Some(Ok(())));
    assert_eq!(state, before);
}

#[test]
fn a_made_bundle_is_submitted_and_fails() {
    let mut state = state_at(10);
    state.utxos.put(outpoint(1), withdrawal(1000, 10));
    connect(&mut state, &TwoWayPegData::default()).unwrap();
    let m6id = state.pending_withdrawal_bundle.unwrap();
    let unspent = state.utxos.duplicate();

    let submitted = WithdrawalBundleEvent { m6id, status: WithdrawalBundleEventStatus::Submitted };
    let events = data(vec![(HASH, vec![BlockEvent::WithdrawalBundle(submitted)])]);
    state.height = Some(11);
    assert_eq!(try_connect(&mut state, &events), Some(Ok(())));
    assert_eq!(state.pending_withdrawal_bundle, None);
    assert_eq!(state.utxos.len(), 0);
    assert_eq!(
        state.stxos.get(&outpoint(1)).unwrap().inpoint,
        InPoint::Withdrawal { m6id }
    );
    assert_eq!(state.withdrawal_bundle_event_blocks.get(&0), Some(&(HASH, 11)));
    assert!(state.utxos.is_apart_from(&state.stxos));

    let failed = WithdrawalBundleEvent { m6id, status: WithdrawalBundleEventStatus::Failed };
    let events = data(vec![(HASH, vec![BlockEvent::WithdrawalBundle(failed)])]);
    state.height = Some(12);
    assert_eq!(try_connect(&mut state, &events), Some(Ok(())));
    assert_eq!(state.utxos, unspent);
    assert_eq!(state.stxos.len(), 0);
    assert_eq!(state.get_latest_failed_withdrawal_bundle(), Some((12, m6id)));
    // No bundle is made for some blocks after that.
    assert_eq!(state.pending_withdrawal_bundle, None);
    state.height = Some(12 + WITHDRAWAL_BUNDLE_FAILURE_GAP - 1);
    connect(&mut state, &TwoWayPegData::default()).unwrap();
    assert_eq!(state.pending_withdrawal_bundle, None);
    state.height = Some(12 + WITHDRAWAL_BUNDLE_FAILURE_GAP);
    connect(&mut state, &TwoWayPegData::default()).unwrap();
    assert!(state.pending_withdrawal_bundle.is_some());
}

#[test]
fn the_same_bundle_made_again_keeps_its_record() {
    let mut state = state_at(10);
    state.utxos.put(outpoint(1), withdrawal(1000, 10));
    connect(&mut state, &TwoWayPegData::default()).unwrap();
    let m6id = state.pending_withdrawal_bundle.unwrap();
    state.pending_withdrawal_bundle = None;
    connect(&mut state, &TwoWayPegData::default()).unwrap();
    assert_eq!(state.pending_withdrawal_bundle, Some(m6id));
    let (_, statuses) = state.withdrawal_bundles.get(&m6id).unwrap();
    assert_eq!(statuses.previous(), Some(&stamped(WithdrawalBundleStatus::Pending, 10)));
}

#[test]
fn the_pending_bundle_stays_recorded() {
    let mut state = state_at(10);
    state.utxos.put(outpoint(1), withdrawal(1000, 10));
    connect(&mut state, &TwoWayPegData::default()).unwrap();
    let m6id = state.pending_withdrawal_bundle.unwrap();
    let outputs = state.utxos.len();
    let events = data(vec![(
        HASH,
        vec![
            deposit(1, 5),
            event(WithdrawalBundleEventStatus::Submitted),
            event(WithdrawalBundleEventStatus::Failed),
        ],
    )]);
    state.height = Some(11);
    assert_eq!(try_connect(&mut state, &events), Some(Ok(())));
    assert_eq!(state.pending_withdrawal_bundle, Some(m6id));
    let (info, statuses) = state.withdrawal_bundles.get(&m6id).unwrap();
    assert!(matches!(info, WithdrawalBundleInfo::Known(_)));
    assert_eq!(*statuses.latest(), stamped(WithdrawalBundleStatus::Pending, 10));
    // One output came to be, none was lost, and none is both unspent and spent.
    assert_eq!(state.utxos.len() + state.stxos.len(), outputs + 1);
    assert!(state.utxos.is_apart_from(&state.stxos));
}

#[test]
fn errors_of_collecting_are_returned() {
    let mut state = state_at(10);
    state.utxos.put(outpoint(1), withdrawal(u64::MAX, 0));
    state.utxos.put(outpoint(2), withdrawal(1, 0));
    assert_eq!(
        try_connect(&mut state, &data(vec![(HASH, vec![deposit(1, 5)])])),
        Some(Err(Error::AmountOverflow(AmountOverflowError)))
    );
    // The deposit stays connected.
    assert!(state.utxos.contains(&deposited(1)));
    assert_eq!(state.deposit_blocks.len(), 1);
}

#[test]
fn a_failure_above_the_tip_is_not_consistent() {
    let mut state = state_at(10);
    state.latest_failed_withdrawal_bundle =
        Some(RollBack::<HeightStamped<M6id>>::new(ID, 11));
    assert_eq!(try_connect(&mut state, &TwoWayPegData::default()), None);
}

#[test]
fn the_pending_bundle_is_submitted() {
    let mut state = with_record(6, known(), &[(WithdrawalBundleStatus::Pending, 5)]);
    state = with_outputs(state, &[1, 2, 3, 4]);
    state.pending_withdrawal_bundle = Some(ID);
    assert_eq!(submit(&mut state, 6), Ok(()));
    assert_eq!(state.pending_withdrawal_bundle, None);
    assert_eq!(latest(&state), stamped(WithdrawalBundleStatus::Submitted, 6));
    // No output is lost, and none is both unspent and spent.
    assert_eq!(state.utxos.len(), 1);
    assert_eq!(state.stxos.len(), 3);
    assert!(state.utxos.is_apart_from(&state.stxos));
    assert_eq!(state.stxos.get(&outpoint(2)), Some(&spent(200)));
}

#[test]
fn the_pending_bundle_must_be_recorded() {
    let expected = ConnectWithdrawalBundleSubmitted::PendingWithdrawalBundleUnknown(
        PendingWithdrawalBundleUnknown(ID),
    );
    let mut state = state_at(6);
    state.pending_withdrawal_bundle = Some(ID);
    assert_eq!(submit(&mut state, 6), Err(expected));

    for info in [WithdrawalBundleInfo::Unknown, unknown_confirmed()] {
        let mut state = with_record(6, info, &[(WithdrawalBundleStatus::Pending, 5)]);
        state.pending_withdrawal_bundle = Some(ID);
        let before = state.duplicate();
        assert_eq!(submit(&mut state, 6), Err(expected));
        assert_eq!(state, before);
    }
}

#[test]
fn the_pending_bundle_spends_up_to_what_is_missing() {
    let mut state = with_record(6, known(), &[(WithdrawalBundleStatus::Pending, 5)]);
    state = with_outputs(state, &[1, 3]);
    state.pending_withdrawal_bundle = Some(ID);
    let expected = NoUtxo { outpoint: outpoint(2) };
    assert_eq!(submit(&mut state, 6), Err(ConnectWithdrawalBundleSubmitted::NoUtxo(expected)));
    assert_eq!(state.pending_withdrawal_bundle, Some(ID));
    assert_eq!(latest(&state), stamped(WithdrawalBundleStatus::Pending, 5));
    assert!(!state.utxos.contains(&outpoint(1)));
    assert!(state.utxos.contains(&outpoint(3)));
    assert_eq!(state.stxos.len(), 1);
    assert_eq!(state.stxos.get(&outpoint(1)), Some(&spent(100)));
}

#[test]
fn the_pending_bundle_must_have_a_pending_record() {
    let mut state = with_record(6, known(), &[(WithdrawalBundleStatus::Failed, 5)]);
    state = with_outputs(state, &[1, 2, 3]);
    state.pending_withdrawal_bundle = Some(ID);
    let events = data(vec![(HASH, vec![event(WithdrawalBundleEventStatus::Submitted)])]);
    let before = state.duplicate();
    assert_eq!(try_connect(&mut state, &events), None);
    assert_eq!(state, before);
}

#[test]
fn a_bundle_without_a_record_is_recorded_as_unknown() {
    let mut state = state_at(6);
    assert_eq!(submit(&mut state, 6), Ok(()));
    let (info, statuses) = state.withdrawal_bundles.get(&ID).unwrap();
    assert_eq!(*info, WithdrawalBundleInfo::Unknown);
    assert_eq!(*statuses.latest(), stamped(WithdrawalBundleStatus::Submitted, 6));
    // And cannot be submitted again.
    let expected = ConnectWithdrawalBundleSubmitted::Resubmitted {
        event_block_hash: HASH,
        m6id: ID,
        submitted_block_height: 6,
    };
    assert_eq!(submit(&mut state, 8), Err(expected));
}

#[test]
fn submissions_that_are_refused() {
    let resubmitted = ConnectWithdrawalBundleSubmitted::Resubmitted {
        event_block_hash: HASH,
        m6id: ID,
        submitted_block_height: 5,
    };
    let confirmed =
        ConnectWithdrawalBundleSubmitted::ConfirmedResubmitted { event_block_hash: HASH, m6id: ID };
    let dropped =
        ConnectWithdrawalBundleSubmitted::UnknownDropped { m6id: ID, dropped_block_height: 5 };
    let pending =
        ConnectWithdrawalBundleSubmitted::UnknownPending { m6id: ID, pending_block_height: 5 };
    let failed = ConnectWithdrawalBundleSubmitted::UnknownConfirmedFailed {
        m6id: ID,
        failed_block_height: 5,
    };
    let cases = vec![
        (known(), WithdrawalBundleStatus::Confirmed, confirmed),
        (WithdrawalBundleInfo::Unknown, WithdrawalBundleStatus::Confirmed, confirmed),
        (known(), WithdrawalBundleStatus::Submitted, resubmitted),
        (WithdrawalBundleInfo::Unknown, WithdrawalBundleStatus::SubmittedUnexpected, resubmitted),
        (WithdrawalBundleInfo::Unknown, WithdrawalBundleStatus::Dropped, dropped),
        (unknown_confirmed(), WithdrawalBundleStatus::Dropped, dropped),
        (
            known(),
            WithdrawalBundleStatus::Pending,
            ConnectWithdrawalBundleSubmitted::DroppedPending(ID),
        ),
        (WithdrawalBundleInfo::Unknown, WithdrawalBundleStatus::Pending, pending),
        (unknown_confirmed(), WithdrawalBundleStatus::Pending, pending),
        (unknown_confirmed(), WithdrawalBundleStatus::Failed, failed),
    ];
    for (info, status, expected) in cases {
        let mut state = with_record(6, info, &[(status, 5)]);
        let before = state.duplicate();
        assert_eq!(submit(&mut state, 6), Err(expected));
        assert_eq!(state, before);
        let events = data(vec![(HASH, vec![event(WithdrawalBundleEventStatus::Submitted)])]);
        assert_eq!(
            try_connect(&mut state, &events),
            Some(Err(Error::ConnectWithdrawalBundleSubmitted(expected)))
        );
    }
}

#[test]
fn submissions_that_are_unexpected() {
    let cases = vec![
        (known(), WithdrawalBundleStatus::Dropped),
        (known(), WithdrawalBundleStatus::Failed),
        (WithdrawalBundleInfo::Unknown, WithdrawalBundleStatus::Failed),
    ];
    for (info, status) in cases {
        let mut state = with_outputs(with_record(6, info, &[(status, 5)]), &[1, 2, 3]);
        assert_eq!(submit(&mut state, 6), Ok(()));
        assert_eq!(latest(&state), stamped(WithdrawalBundleStatus::SubmittedUnexpected, 6));
        // Nothing is spent before it is confirmed.
        assert_eq!(state.utxos.len(), 3);
        assert_eq!(state.stxos.len(), 0);
    }
}

#[test]
fn a_submission_below_its_record_is_not_consistent() {
    let mut state = with_record(4, known(), &[(WithdrawalBundleStatus::Failed, 5)]);
    let events = data(vec![(HASH, vec![event(WithdrawalBundleEventStatus::Submitted)])]);
    assert_eq!(try_connect(&mut state, &events), None);
}

#[test]
fn an_expected_bundle_is_confirmed() {
    let mut state = with_record(6, known(), &[(WithdrawalBundleStatus::Submitted, 5)]);
    state = with_outputs(state, &[1]);
    assert_eq!(confirm(&mut state, 6), Ok(()));
    assert_eq!(latest(&state), stamped(WithdrawalBundleStatus::Confirmed, 6));
    assert_eq!(state.utxos.len(), 1);
    // Confirming it again changes nothing.
    let before = state.duplicate();
    assert_eq!(confirm(&mut state, 9), Ok(()));
    assert_eq!(state, before);
    // It cannot be submitted again.
    let expected =
        ConnectWithdrawalBundleSubmitted::ConfirmedResubmitted { event_block_hash: HASH, m6id: ID };
    assert_eq!(submit(&mut state, 9), Err(expected));
    assert_eq!(state, before);
}

#[test]
fn an_unexpected_bundle_spends_when_it_is_confirmed() {
    let mut state = with_record(6, known(), &[(WithdrawalBundleStatus::SubmittedUnexpected, 5)]);
    state = with_outputs(state, &[1, 2, 3, 4]);
    assert_eq!(confirm(&mut state, 6), Ok(()));
    assert_eq!(latest(&state), stamped(WithdrawalBundleStatus::Confirmed, 6));
    assert_eq!(state.utxos.len(), 1);
    assert_eq!(state.stxos.len(), 3);
}

#[test]
fn an_unexpected_bundle_can_make_the_chain_insolvent() {
    let mut state = with_record(6, known(), &[(WithdrawalBundleStatus::SubmittedUnexpected, 5)]);
    state = with_outputs(state, &[1, 2]);
    assert_eq!(
        confirm(&mut state, 6),
        Err(Error::UnexpectedWithdrawalBundleInsolvency {
            event_block_hash: HASH,
            m6id: ID,
            outpoint: outpoint(3),
        })
    );
    assert_eq!(latest(&state), stamped(WithdrawalBundleStatus::SubmittedUnexpected, 5));
    assert_eq!(state.utxos.len(), 0);
    assert_eq!(state.stxos.len(), 2);
}

#[test]
fn an_unknown_bundle_spends_all_at_height_zero() {
    let record = [(WithdrawalBundleStatus::Submitted, 0)];
    let mut state = with_outputs(with_record(0, WithdrawalBundleInfo::Unknown, &record), &[1, 4]);
    let unspent = state.utxos.duplicate();
    assert_eq!(confirm(&mut state, 0), Ok(()));
    assert_eq!(state.utxos.len(), 0);
    assert_eq!(state.stxos.get(&outpoint(4)), Some(&spent(400)));
    assert_eq!(
        state.withdrawal_bundles.get(&ID).unwrap().0,
        WithdrawalBundleInfo::UnknownConfirmed { spend_utxos: unspent }
    );
    assert_eq!(latest(&state), stamped(WithdrawalBundleStatus::Confirmed, 0));
}

#[test]
fn confirmations_that_are_refused() {
    let mut state = state_at(6);
    assert_eq!(confirm(&mut state, 6), Err(Error::UnknownWithdrawalBundle { m6id: ID }));

    let record = [(WithdrawalBundleStatus::Submitted, 5)];
    let mut state = with_record(6, WithdrawalBundleInfo::Unknown, &record);
    let before = state.duplicate();
    assert_eq!(
        confirm(&mut state, 6),
        Err(Error::UnknownWithdrawalBundleConfirmed { event_block_hash: HASH, m6id: ID })
    );
    assert_eq!(state, before);

    let mut state = with_record(6, unknown_confirmed(), &record);
    let before = state.duplicate();
    assert_eq!(
        confirm(&mut state, 6),
        Err(Error::UnknownWithdrawalBundleReconfirmed { event_block_hash: HASH, m6id: ID })
    );
    assert_eq!(state, before);
}

#[test]
fn only_submitted_bundles_are_confirmed_or_fail() {
    let confirm = data(vec![(HASH, vec![event(WithdrawalBundleEventStatus::Confirmed)])]);
    let fail = data(vec![(HASH, vec![event(WithdrawalBundleEventStatus::Failed)])]);
    let mut state = with_record(6, known(), &[(WithdrawalBundleStatus::Pending, 5)]);
    assert_eq!(try_connect(&mut state, &confirm), None);
    assert_eq!(try_connect(&mut state, &fail), None);
    let mut state = with_record(6, known(), &[(WithdrawalBundleStatus::Failed, 5)]);
    assert_eq!(try_connect(&mut state, &confirm), None);
    let mut state = with_record(6, known(), &[(WithdrawalBundleStatus::Confirmed, 5)]);
    assert_eq!(try_connect(&mut state, &fail), None);
    // Not below the height of the submission.
    let mut state = with_record(4, known(), &[(WithdrawalBundleStatus::Submitted, 5)]);
    assert_eq!(try_connect(&mut state, &confirm), None);
    assert_eq!(try_connect(&mut state, &fail), None);
}

#[test]
fn an_expected_bundle_fails() {
    let mut state = with_record(6, known(), &[(WithdrawalBundleStatus::Submitted, 5)]);
    state.stxos.put(outpoint(1), spent(100));
    state.stxos.put(outpoint(9), spent(900));
    assert_eq!(fail(&mut state, 6), Ok(()));
    assert_eq!(latest(&state), stamped(WithdrawalBundleStatus::Failed, 6));
    assert_eq!(state.utxos.len(), 3);
    assert_eq!(state.stxos.len(), 1);
    assert_eq!(state.get_latest_failed_withdrawal_bundle(), Some((6, ID)));
    // Failing again changes nothing.
    let before = state.duplicate();
    assert_eq!(fail(&mut state, 7), Ok(()));
    assert_eq!(state, before);
}

#[test]
fn failures_follow_each_other() {
    let other = M6id([0xCC; 32]);
    let mut state = with_record(6, known(), &[(WithdrawalBundleStatus::Submitted, 5)]);
    state.latest_failed_withdrawal_bundle = Some(RollBack::<HeightStamped<M6id>>::new(other, 3));
    assert_eq!(fail(&mut state, 6), Ok(()));
    let all = state.latest_failed_withdrawal_bundle.unwrap();
    assert_eq!(*all.latest(), HeightStamped { value: ID, height: 6 });
    assert_eq!(all.previous(), Some(&HeightStamped { value: other, height: 3 }));
}

#[test]
fn other_bundles_fail_without_giving_back() {
    let cases = vec![
        (known(), WithdrawalBundleStatus::SubmittedUnexpected),
        (WithdrawalBundleInfo::Unknown, WithdrawalBundleStatus::Submitted),
        (unknown_confirmed(), WithdrawalBundleStatus::Submitted),
    ];
    for (info, status) in cases {
        let mut state = with_record(6, info, &[(status, 5)]);
        assert_eq!(fail(&mut state, 6), Ok(()));
        assert_eq!(latest(&state), stamped(WithdrawalBundleStatus::Failed, 6));
        assert_eq!(state.utxos.len(), 0);
        assert_eq!(state.get_latest_failed_withdrawal_bundle(), None);
    }
    let mut state = state_at(6);
    assert_eq!(fail(&mut state, 6), Err(Error::UnknownWithdrawalBundle { m6id: ID }));
}

#[test]
fn events_after_an_error_are_not_connected() {
    let mut state = state_at(6);
    let events = data(vec![
        (HASH, vec![deposit(1, 5), event(WithdrawalBundleEventStatus::Confirmed)]),
        (HASH, vec![deposit(2, 6)]),
    ]);
    assert_eq!(
        try_connect(&mut state, &events),
        Some(Err(Error::UnknownWithdrawalBundle { m6id: ID }))
    );
    assert!(state.utxos.contains(&deposited(1)));
    assert!(!state.utxos.contains(&deposited(2)));
    assert_eq!(state.deposit_blocks.len(), 0);
}

#[test]
fn a_bundle_goes_through_one_block() {
    let mut state = state_at(0);
    let events = data(vec![(
        HASH,
        vec![
            deposit(1, 5),
            event(WithdrawalBundleEventStatus::Submitted),
            event(WithdrawalBundleEventStatus::Confirmed),
            deposit(2, 6),
        ],
    )]);
    assert_eq!(try_connect(&mut state, &events), Some(Ok(())));
    assert_eq!(state.utxos.len(), 1);
    assert!(state.stxos.contains(&deposited(1)));
    assert_eq!(state.deposit_blocks.get(&0), Some(&(HASH, 0)));
    assert_eq!(state.withdrawal_bundle_event_blocks.get(&0), Some(&(HASH, 0)));
}
