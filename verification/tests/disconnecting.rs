use two_way_peg::address::{KnownHrp, MainAddress, WitnessProgram};
use two_way_peg::bundle::{TxOut, WithdrawalBundle};
use two_way_peg::connect::{
    connect, connect_withdrawal_bundle_confirmed, connect_withdrawal_bundle_failed,
    connect_withdrawal_bundle_submitted,
};
use two_way_peg::data::{
    BlockEvent, BlockInfo, Deposit, TwoWayPegData, WithdrawalBundleEvent,
    WithdrawalBundleEventStatus,
};
use two_way_peg::disconnect::{
    disconnect, disconnect_withdrawal_bundle_confirmed, disconnect_withdrawal_bundle_failed,
    disconnect_withdrawal_bundle_submitted,
};
use two_way_peg::error::{Error, NoUtxo, PendingWithdrawalBundleUnknown};
use two_way_peg::guard::{can_disconnect, try_connect, try_disconnect};
use two_way_peg::order::Duplicate;
use two_way_peg::output::{
    Address, BitcoinOutputContent, BlockHash, FilledOutput, FilledOutputContent, InPoint, M6id,
    MainOutPoint, OutPoint, SpentOutput, Txid, WithdrawalOutputContent,
};
use two_way_peg::rollback::{HeightStamped, RollBack};
use two_way_peg::state::{State, Statuses, WithdrawalBundleInfo, WithdrawalBundleStatus};
use two_way_peg::table::Table;

const HASH: BlockHash = BlockHash([0x11; 32]);
const ID: M6id = M6id([0xAA; 32]);

fn block_hash(b: u8) -> BlockHash {
    BlockHash([b; 32])
}

fn m6id(b: u8) -> M6id {
    M6id([b; 32])
}

fn bitcoin_output(sats: u64) -> FilledOutput {
    FilledOutput {
        address: Address([0u8; 20]),
        content: FilledOutputContent::Bitcoin(BitcoinOutputContent(sats)),
        memo: Vec::new(),
    }
}

// Build a failed-bundle rollback status: Submitted at H-1, Failed at H.
fn failed_status(height: u32) -> RollBack<HeightStamped<WithdrawalBundleStatus>> {
    let mut status = RollBack::<HeightStamped<WithdrawalBundleStatus>>::new(
        WithdrawalBundleStatus::Submitted,
        height - 1,
    );
    status.push(WithdrawalBundleStatus::Failed, height).expect("push failed status");
    status
}

fn two_way_peg_data_with_bundle_event(evt_block: BlockHash, m6id: M6id) -> TwoWayPegData {
    let mut block_info = BlockInfo::default();
    block_info.events.push(BlockEvent::WithdrawalBundle(WithdrawalBundleEvent {
        m6id,
        status: WithdrawalBundleEventStatus::Failed,
    }));
    let mut twpd = TwoWayPegData::default();
    twpd.block_info.push((evt_block, block_info));
    twpd
}

fn state_at(height: u32) -> State {
    let mut state = State::new();
    state.height = Some(height);
    state
}

fn outpoint(b: u8) -> OutPoint {
    OutPoint::Regular { txid: Txid([b; 32]), vout: 0 }
}

fn withdrawal(value: u64, main_fee: u64) -> FilledOutput {
    let program = WitnessProgram::new(0, vec![5; 20]).unwrap();
    FilledOutput {
        address: Address([0u8; 20]),
        content: FilledOutputContent::BitcoinWithdrawal(WithdrawalOutputContent {
            value,
            main_fee,
            main_address: MainAddress::Segwit { program, hrp: KnownHrp::Regtest },
        }),
        memo: Vec::new(),
    }
}

fn spent(sats: u64) -> SpentOutput {
    SpentOutput { output: bitcoin_output(sats), inpoint: InPoint::Withdrawal { m6id: ID } }
}

fn bundle(bytes: &[u8]) -> WithdrawalBundle {
    let mut spend_utxos = Table::new();
    for b in bytes {
        spend_utxos.put(outpoint(*b), bitcoin_output(u64::from(*b) * 100));
    }
    let payout = TxOut { value: 600, script_pubkey: Vec::new() };
    WithdrawalBundle::new(0, 0, spend_utxos, vec![payout]).unwrap()
}

// A known bundle that spends outputs 1, 2 and 3, of 100, 200 and 300.
fn known() -> WithdrawalBundleInfo {
    WithdrawalBundleInfo::Known(bundle(&[1, 2, 3]))
}

fn statuses(all: &[(WithdrawalBundleStatus, u32)]) -> Statuses {
    let mut statuses = RollBack::<HeightStamped<WithdrawalBundleStatus>>::new(all[0].0, all[0].1);
    for (status, height) in &all[1..] {
        statuses.push(*status, *height).unwrap();
    }
    statuses
}

fn with_record(
    height: u32,
    info: WithdrawalBundleInfo,
    all: &[(WithdrawalBundleStatus, u32)],
) -> State {
    let mut state = state_at(height);
    state.withdrawal_bundles.put(ID, (info, statuses(all)));
    state
}

fn with_unspent(mut state: State, bytes: &[u8]) -> State {
    for b in bytes {
        state.utxos.put(outpoint(*b), bitcoin_output(u64::from(*b) * 100));
    }
    state
}

fn with_spent(mut state: State, bytes: &[u8]) -> State {
    for b in bytes {
        state.stxos.put(outpoint(*b), spent(u64::from(*b) * 100));
    }
    state
}

fn latest(state: &State) -> HeightStamped<WithdrawalBundleStatus> {
    *state.withdrawal_bundles.get(&ID).unwrap().1.latest()
}

fn stamped(value: WithdrawalBundleStatus, height: u32) -> HeightStamped<WithdrawalBundleStatus> {
    HeightStamped { value, height }
}

fn deposit(b: u8, sats: u64) -> BlockEvent {
    let outpoint = MainOutPoint { txid: [b; 32], vout: 1 };
    BlockEvent::Deposit(Deposit { outpoint, output: bitcoin_output(sats) })
}

fn deposited(b: u8) -> OutPoint {
    OutPoint::Deposit(MainOutPoint { txid: [b; 32], vout: 1 })
}

fn event(status: WithdrawalBundleEventStatus) -> BlockEvent {
    BlockEvent::WithdrawalBundle(WithdrawalBundleEvent { m6id: ID, status })
}

fn data(blocks: Vec<(BlockHash, Vec<BlockEvent>)>) -> TwoWayPegData {
    let mut data = TwoWayPegData::default();
    for (hash, events) in blocks {
        data.block_info.push((hash, BlockInfo { events }));
    }
    data
}

fn one(status: WithdrawalBundleEventStatus) -> TwoWayPegData {
    data(vec![(HASH, vec![event(status)])])
}

#[test]
fn failed_withdrawal_disconnect_inverted_delete() {
    let mut state = State::new();

    let height: u32 = 10;
    let id = m6id(0xAA);
    let evt_block = block_hash(0x01);

    // A known bundle that spent one UTXO.
    let spend_outpoint = OutPoint::Regular { txid: Txid([9u8; 32]), vout: 0 };
    let spend_output = bitcoin_output(5000);
    let mut spend_utxos = Table::new();
    spend_utxos.put(spend_outpoint, spend_output.duplicate());
    let txout = TxOut { value: 5000, script_pubkey: Vec::new() };
    let bundle = WithdrawalBundle::new(0, 0, spend_utxos, vec![txout]).expect("bundle");

    state.height = Some(height);
    state
        .withdrawal_bundles
        .put(id, (WithdrawalBundleInfo::Known(bundle), failed_status(height)));
    state.latest_failed_withdrawal_bundle =
        Some(RollBack::<HeightStamped<M6id>>::new(id, height));
    // The spent UTXO is live again on the to-be-disconnected branch.
    state.utxos.put(spend_outpoint, spend_output);

    let twpd = two_way_peg_data_with_bundle_event(evt_block, id);
    assert!(can_disconnect(&state, &twpd));
    let result = disconnect(&mut state, &twpd);

    match result {
        Err(Error::NoUtxo(_)) => {}
        other => panic!("expected NoUtxo from the inverted delete check, got {other:?}"),
    }
    assert_eq!(result, Err(Error::NoUtxo(NoUtxo { outpoint: spend_outpoint })));
}

#[test]
fn withdrawal_event_reorg_deletes_wrong_db() {
    let mut state = State::new();

    let height: u32 = 10;
    let id = m6id(0xBB);
    let evt_block = block_hash(0x02);
    let seq_idx: u32 = 0;

    state.height = Some(height);
    state.withdrawal_bundles.put(id, (WithdrawalBundleInfo::Unknown, failed_status(height)));
    state.withdrawal_bundle_event_blocks.put(seq_idx, (evt_block, height - 1));
    // A deposit checkpoint at the same number.
    let unrelated_deposit_block = block_hash(0);
    state.deposit_blocks.put(seq_idx, (unrelated_deposit_block, height - 1));

    let twpd = two_way_peg_data_with_bundle_event(evt_block, id);
    assert!(can_disconnect(&state, &twpd));
    disconnect(&mut state, &twpd).expect("disconnect ok");

    let wbe = state.withdrawal_bundle_event_blocks.get(&seq_idx);
    let dep = state.deposit_blocks.get(&seq_idx);
    assert!(wbe.is_some(), "stale withdrawal-event checkpoint left in place");
    assert!(dep.is_none(), "unrelated deposit checkpoint was wrongly deleted");
    assert_eq!(wbe, Some(&(evt_block, height - 1)));
}

#[test]
fn deposits_go_back_one_block_later() {
    let mut state = state_at(2);
    state.utxos.put(outpoint(7), bitcoin_output(7));
    state.deposit_blocks.put(4, (block_hash(3), 1));
    let mut before = state.duplicate();
    before.height = Some(3);
    let events = data(vec![(HASH, vec![deposit(1, 50), deposit(2, 60)])]);
    assert_eq!(connect(&mut state, &events), Ok(()));
    assert_eq!(state.deposit_blocks.get(&5), Some(&(HASH, 2)));
    state.height = Some(3);
    assert_eq!(try_disconnect(&mut state, &events), Some(Ok(())));
    assert_eq!(state, before);
}

#[test]
fn a_bundle_made_with_deposits_goes_back_with_them() {
    let mut state = state_at(8);
    state.utxos.put(outpoint(7), withdrawal(70, 1));
    let mut before = state.duplicate();
    before.height = Some(9);
    let events = data(vec![(HASH, vec![deposit(1, 50)])]);
    assert_eq!(connect(&mut state, &events), Ok(()));
    assert!(state.pending_withdrawal_bundle.is_some());
    assert_eq!(state.withdrawal_bundles.len(), 1);
    state.height = Some(9);
    assert_eq!(try_disconnect(&mut state, &events), Some(Ok(())));
    assert_eq!(state, before);
}

#[test]
fn a_bundle_made_again_goes_back_to_its_record() {
    let mut state = state_at(8);
    state.utxos.put(outpoint(7), withdrawal(70, 1));
    connect(&mut state, &TwoWayPegData::default()).unwrap();
    let m6id = state.pending_withdrawal_bundle.unwrap();
    state.pending_withdrawal_bundle = None;
    let mut before = state.duplicate();
    before.height = Some(9);
    connect(&mut state, &TwoWayPegData::default()).unwrap();
    assert_eq!(state.pending_withdrawal_bundle, Some(m6id));
    state.height = Some(9);
    assert_eq!(try_disconnect(&mut state, &TwoWayPegData::default()), Some(Ok(())));
    assert_eq!(state, before);
}

#[test]
fn an_older_pending_bundle_stays() {
    let mut state = with_record(10, known(), &[(WithdrawalBundleStatus::Pending, 5)]);
    state.pending_withdrawal_bundle = Some(ID);
    let before = state.duplicate();
    assert_eq!(try_disconnect(&mut state, &TwoWayPegData::default()), Some(Ok(())));
    assert_eq!(state, before);
}

#[test]
fn a_pending_bundle_stays_after_a_late_failure() {
    let mut state = with_record(10, known(), &[(WithdrawalBundleStatus::Pending, 9)]);
    state.pending_withdrawal_bundle = Some(ID);
    state.latest_failed_withdrawal_bundle =
        Some(RollBack::<HeightStamped<M6id>>::new(m6id(1), 6));
    let before = state.duplicate();
    assert_eq!(try_disconnect(&mut state, &TwoWayPegData::default()), Some(Ok(())));
    assert_eq!(state, before);
    // One block earlier it would have gone.
    state.latest_failed_withdrawal_bundle =
        Some(RollBack::<HeightStamped<M6id>>::new(m6id(1), 5));
    assert_eq!(try_disconnect(&mut state, &TwoWayPegData::default()), Some(Ok(())));
    assert_eq!(state.pending_withdrawal_bundle, None);
    assert_eq!(state.withdrawal_bundles.len(), 0);
}

#[test]
fn a_pending_bundle_must_be_recorded() {
    let mut state = state_at(10);
    state.pending_withdrawal_bundle = Some(ID);
    assert_eq!(
        try_disconnect(&mut state, &TwoWayPegData::default()),
        Some(Err(Error::PendingWithdrawalBundleUnknown(PendingWithdrawalBundleUnknown(ID))))
    );
}

#[test]
fn disconnecting_below_a_failure_is_not_consistent() {
    let mut state = state_at(10);
    state.latest_failed_withdrawal_bundle = Some(RollBack::<HeightStamped<M6id>>::new(ID, 11));
    assert_eq!(try_disconnect(&mut state, &TwoWayPegData::default()), None);
}

#[test]
fn without_a_tip_nothing_is_disconnected() {
    let mut state = State::new();
    assert_eq!(try_disconnect(&mut state, &TwoWayPegData::default()), None);
    assert_eq!(state, State::new());
}

#[test]
fn deposits_of_two_blocks_do_not_go_back() {
    let mut state = state_at(2);
    let events =
        data(vec![(HASH, vec![deposit(1, 50)]), (block_hash(0x22), vec![deposit(2, 60)])]);
    assert_eq!(connect(&mut state, &events), Ok(()));
    state.height = Some(3);
    let before = state.duplicate();
    assert_eq!(try_disconnect(&mut state, &events), None);
    assert_eq!(state, before);
}

#[test]
fn deposits_do_not_go_back_at_their_height() {
    let mut state = state_at(2);
    let events = data(vec![(HASH, vec![deposit(1, 50)])]);
    assert_eq!(connect(&mut state, &events), Ok(()));
    assert_eq!(try_disconnect(&mut state, &events), None);
}

#[test]
fn events_of_bundles_do_not_go_back_one_block_later() {
    let mut state = state_at(2);
    let events = one(WithdrawalBundleEventStatus::Submitted);
    assert_eq!(try_connect(&mut state, &events), Some(Ok(())));
    state.height = Some(3);
    assert_eq!(try_disconnect(&mut state, &events), None);
}

#[test]
fn a_deposit_must_be_unspent() {
    let mut state = state_at(3);
    state.utxos.put(deposited(2), bitcoin_output(60));
    let events = data(vec![(HASH, vec![deposit(1, 50), deposit(2, 60)])]);
    let expected = NoUtxo { outpoint: deposited(1) };
    assert_eq!(try_disconnect(&mut state, &events), Some(Err(Error::NoUtxo(expected))));
    // The last is undone first.
    assert_eq!(state.utxos.len(), 0);
}

#[test]
fn a_deposit_block_must_be_noted() {
    let mut state = state_at(3);
    state.utxos.put(deposited(1), bitcoin_output(50));
    let events = data(vec![(HASH, vec![deposit(1, 50)])]);
    assert_eq!(try_disconnect(&mut state, &events), Some(Err(Error::NoDepositBlock)));
}

#[test]
fn a_bundle_event_block_must_be_noted() {
    let events = one(WithdrawalBundleEventStatus::Submitted);
    let record = [(WithdrawalBundleStatus::Submitted, 3)];
    let mut state = with_record(3, WithdrawalBundleInfo::Unknown, &record);
    assert_eq!(
        try_disconnect(&mut state, &events),
        Some(Err(Error::NoWithdrawalBundleEventBlock))
    );
    // Its number must be in the log of deposit blocks too.
    let mut state = with_record(3, WithdrawalBundleInfo::Unknown, &record);
    state.withdrawal_bundle_event_blocks.put(6, (HASH, 2));
    state.deposit_blocks.put(5, (HASH, 2));
    assert_eq!(
        try_disconnect(&mut state, &events),
        Some(Err(Error::NoWithdrawalBundleEventBlock))
    );
    let mut state = with_record(3, WithdrawalBundleInfo::Unknown, &record);
    state.withdrawal_bundle_event_blocks.put(6, (HASH, 2));
    state.deposit_blocks.put(6, (HASH, 2));
    assert_eq!(try_disconnect(&mut state, &events), Some(Ok(())));
    assert_eq!(state.withdrawal_bundle_event_blocks.len(), 1);
    assert_eq!(state.deposit_blocks.len(), 0);
    // The last note must be of the block, at the height before.
    let mut state = with_record(3, WithdrawalBundleInfo::Unknown, &record);
    state.withdrawal_bundle_event_blocks.put(6, (block_hash(9), 2));
    assert_eq!(try_disconnect(&mut state, &events), None);
    let mut state = with_record(3, WithdrawalBundleInfo::Unknown, &record);
    state.withdrawal_bundle_event_blocks.put(6, (HASH, 3));
    assert_eq!(try_disconnect(&mut state, &events), None);
}

#[test]
fn a_submission_is_undone() {
    let mut state = with_record(6, known(), &[(WithdrawalBundleStatus::Pending, 5)]);
    state = with_unspent(state, &[1, 2, 3, 4]);
    state.pending_withdrawal_bundle = Some(ID);
    let before = state.duplicate();
    connect_withdrawal_bundle_submitted(&mut state, 6, &HASH, ID).unwrap();
    assert_ne!(state, before);
    assert_eq!(disconnect_withdrawal_bundle_submitted(&mut state, 6, ID), Ok(()));
    assert_eq!(state, before);

    let mut state = with_record(6, known(), &[(WithdrawalBundleStatus::Failed, 5)]);
    let before = state.duplicate();
    connect_withdrawal_bundle_submitted(&mut state, 6, &HASH, ID).unwrap();
    assert_eq!(disconnect_withdrawal_bundle_submitted(&mut state, 6, ID), Ok(()));
    assert_eq!(state, before);

    let mut state = state_at(6);
    connect_withdrawal_bundle_submitted(&mut state, 6, &HASH, ID).unwrap();
    assert_eq!(disconnect_withdrawal_bundle_submitted(&mut state, 6, ID), Ok(()));
    assert_eq!(state, state_at(6));
}

#[test]
fn a_submission_that_is_not_recorded() {
    let mut state = state_at(6);
    assert_eq!(
        disconnect_withdrawal_bundle_submitted(&mut state, 6, ID),
        Err(Error::UnknownWithdrawalBundle { m6id: ID })
    );
    state.pending_withdrawal_bundle = Some(ID);
    let before = state.duplicate();
    assert_eq!(disconnect_withdrawal_bundle_submitted(&mut state, 6, ID), Ok(()));
    assert_eq!(state, before);
}

#[test]
fn a_submission_is_undone_down_to_what_is_missing() {
    let all = [(WithdrawalBundleStatus::Pending, 5), (WithdrawalBundleStatus::Submitted, 6)];
    let mut state = with_spent(with_record(6, known(), &all), &[1, 3]);
    assert_eq!(
        disconnect_withdrawal_bundle_submitted(&mut state, 6, ID),
        Err(Error::NoStxo { outpoint: outpoint(2) })
    );
    assert_eq!(state.pending_withdrawal_bundle, None);
    assert_eq!(latest(&state), stamped(WithdrawalBundleStatus::Submitted, 6));
    assert_eq!(state.utxos.get(&outpoint(3)), Some(&bitcoin_output(300)));
    assert_eq!(state.utxos.len(), 1);
    assert_eq!(state.stxos.len(), 1);
}

#[test]
fn only_submissions_at_the_tip_are_undone() {
    let events = one(WithdrawalBundleEventStatus::Submitted);
    let record = [(WithdrawalBundleStatus::Submitted, 5)];
    let mut state = with_record(6, WithdrawalBundleInfo::Unknown, &record);
    assert_eq!(try_disconnect(&mut state, &events), None);
    let record = [(WithdrawalBundleStatus::Failed, 6)];
    let mut state = with_record(6, WithdrawalBundleInfo::Unknown, &record);
    assert_eq!(try_disconnect(&mut state, &events), None);
}

#[test]
fn a_confirmation_is_undone() {
    let record = [(WithdrawalBundleStatus::SubmittedUnexpected, 5)];
    let mut state = with_unspent(with_record(6, known(), &record), &[1, 2, 3, 4]);
    let before = state.duplicate();
    connect_withdrawal_bundle_confirmed(&mut state, 6, &HASH, ID).unwrap();
    assert_ne!(state, before);
    assert_eq!(disconnect_withdrawal_bundle_confirmed(&mut state, 6, ID), Ok(()));
    assert_eq!(state, before);
    // A bundle that is submitted is left as it is.
    assert_eq!(disconnect_withdrawal_bundle_confirmed(&mut state, 6, ID), Ok(()));
    assert_eq!(state, before);

    let record = [(WithdrawalBundleStatus::Submitted, 5)];
    let mut state = with_record(6, known(), &record);
    let before = state.duplicate();
    connect_withdrawal_bundle_confirmed(&mut state, 6, &HASH, ID).unwrap();
    assert_eq!(disconnect_withdrawal_bundle_confirmed(&mut state, 6, ID), Ok(()));
    assert_eq!(state, before);

    let record = [(WithdrawalBundleStatus::Submitted, 0)];
    let mut state = with_unspent(with_record(0, WithdrawalBundleInfo::Unknown, &record), &[1, 4]);
    let before = state.duplicate();
    connect_withdrawal_bundle_confirmed(&mut state, 0, &HASH, ID).unwrap();
    assert_eq!(state.utxos.len(), 0);
    assert_eq!(disconnect_withdrawal_bundle_confirmed(&mut state, 0, ID), Ok(()));
    assert_eq!(state, before);
}

#[test]
fn confirmations_that_are_not_undone() {
    let mut state = state_at(6);
    assert_eq!(
        disconnect_withdrawal_bundle_confirmed(&mut state, 6, ID),
        Err(Error::UnknownWithdrawalBundle { m6id: ID })
    );

    // The first that is not spent is made unspent all the same.
    let all = [
        (WithdrawalBundleStatus::SubmittedUnexpected, 5),
        (WithdrawalBundleStatus::Confirmed, 6),
    ];
    let mut state = with_spent(with_record(6, known(), &all), &[1, 3]);
    assert_eq!(
        disconnect_withdrawal_bundle_confirmed(&mut state, 6, ID),
        Err(Error::NoStxo { outpoint: outpoint(2) })
    );
    assert_eq!(latest(&state), stamped(WithdrawalBundleStatus::Confirmed, 6));
    assert!(state.utxos.contains(&outpoint(1)));
    assert!(state.utxos.contains(&outpoint(2)));
    assert!(!state.utxos.contains(&outpoint(3)));
    assert_eq!(state.stxos.len(), 1);

    let events = one(WithdrawalBundleEventStatus::Confirmed);
    let cases = vec![
        vec![(WithdrawalBundleStatus::Confirmed, 6)],
        vec![(WithdrawalBundleStatus::Submitted, 4), (WithdrawalBundleStatus::Confirmed, 5)],
        vec![(WithdrawalBundleStatus::Pending, 4), (WithdrawalBundleStatus::Confirmed, 6)],
        vec![(WithdrawalBundleStatus::Submitted, 4), (WithdrawalBundleStatus::Failed, 6)],
    ];
    for all in cases {
        let mut state = with_record(6, known(), &all);
        assert_eq!(try_disconnect(&mut state, &events), None);
    }
}

#[test]
fn a_failure_is_undone_where_nothing_was_given_back() {
    let cases = vec![
        (known(), WithdrawalBundleStatus::SubmittedUnexpected),
        (WithdrawalBundleInfo::Unknown, WithdrawalBundleStatus::Submitted),
        (WithdrawalBundleInfo::Known(bundle(&[])), WithdrawalBundleStatus::Submitted),
    ];
    for (info, status) in cases {
        let mut state = with_record(6, info, &[(status, 5)]);
        state.latest_failed_withdrawal_bundle =
            Some(RollBack::<HeightStamped<M6id>>::new(m6id(1), 2));
        let before = state.duplicate();
        connect_withdrawal_bundle_failed(&mut state, 6, ID).unwrap();
        assert_ne!(state, before);
        assert_eq!(disconnect_withdrawal_bundle_failed(&mut state, 6, ID), Ok(()));
        assert_eq!(state, before);
    }
    let record = [(WithdrawalBundleStatus::Submitted, 5)];
    let mut state = with_record(6, WithdrawalBundleInfo::Known(bundle(&[])), &record);
    let before = state.duplicate();
    connect_withdrawal_bundle_failed(&mut state, 6, ID).unwrap();
    assert!(state.latest_failed_withdrawal_bundle.is_some());
    assert_eq!(disconnect_withdrawal_bundle_failed(&mut state, 6, ID), Ok(()));
    assert_eq!(state, before);
    // A bundle that is submitted is left as it is.
    assert_eq!(disconnect_withdrawal_bundle_failed(&mut state, 6, ID), Ok(()));
    assert_eq!(state, before);
}

#[test]
fn the_failure_of_a_known_bundle_is_not_undone() {
    let mut state = with_record(6, known(), &[(WithdrawalBundleStatus::Submitted, 5)]);
    state = with_spent(state, &[1, 2, 3]);
    connect_withdrawal_bundle_failed(&mut state, 6, ID).unwrap();
    assert_eq!(state.utxos.len(), 3);
    assert_eq!(
        disconnect_withdrawal_bundle_failed(&mut state, 6, ID),
        Err(Error::NoUtxo(NoUtxo { outpoint: outpoint(3) }))
    );
    assert_eq!(latest(&state), stamped(WithdrawalBundleStatus::Failed, 6));
    assert_eq!(state.utxos.len(), 2);
    assert_eq!(state.stxos.get(&outpoint(3)), Some(&spent(300)));
}

#[test]
fn the_failure_of_a_known_bundle_is_undone_if_its_outputs_are_gone() {
    let all = [(WithdrawalBundleStatus::Submitted, 5), (WithdrawalBundleStatus::Failed, 6)];
    let mut state = with_record(6, known(), &all);
    state.latest_failed_withdrawal_bundle = Some(RollBack::<HeightStamped<M6id>>::new(ID, 6));
    assert_eq!(disconnect_withdrawal_bundle_failed(&mut state, 6, ID), Ok(()));
    assert_eq!(latest(&state), stamped(WithdrawalBundleStatus::Submitted, 5));
    assert_eq!(state.stxos.len(), 3);
    assert_eq!(state.latest_failed_withdrawal_bundle, None);
}

#[test]
fn failures_that_are_not_undone() {
    let mut state = state_at(6);
    assert_eq!(
        disconnect_withdrawal_bundle_failed(&mut state, 6, ID),
        Err(Error::UnknownWithdrawalBundle { m6id: ID })
    );
    let events = one(WithdrawalBundleEventStatus::Failed);
    let cases = vec![
        vec![(WithdrawalBundleStatus::Failed, 6)],
        vec![(WithdrawalBundleStatus::Submitted, 4), (WithdrawalBundleStatus::Failed, 5)],
        vec![(WithdrawalBundleStatus::Pending, 4), (WithdrawalBundleStatus::Failed, 6)],
        vec![(WithdrawalBundleStatus::SubmittedUnexpected, 6)],
        // It is not the bundle that failed last.
        vec![(WithdrawalBundleStatus::Submitted, 5), (WithdrawalBundleStatus::Failed, 6)],
    ];
    for all in cases {
        let mut state = with_record(6, known(), &all);
        assert_eq!(try_disconnect(&mut state, &events), None);
        state.latest_failed_withdrawal_bundle =
            Some(RollBack::<HeightStamped<M6id>>::new(m6id(1), 6));
        assert_eq!(try_disconnect(&mut state, &events), None);
    }
}

#[test]
fn events_are_undone_from_the_last() {
    let record = [(WithdrawalBundleStatus::Submitted, 3)];
    let mut state = with_record(3, WithdrawalBundleInfo::Unknown, &record);
    state.utxos.put(deposited(1), bitcoin_output(50));
    state.utxos.put(deposited(2), bitcoin_output(60));
    state.withdrawal_bundle_event_blocks.put(0, (HASH, 2));
    state.deposit_blocks.put(0, (block_hash(7), 2));
    state.deposit_blocks.put(1, (HASH, 2));
    let events = data(vec![(
        HASH,
        vec![deposit(1, 50), event(WithdrawalBundleEventStatus::Submitted), deposit(2, 60)],
    )]);
    assert_eq!(try_disconnect(&mut state, &events), Some(Ok(())));
    assert_eq!(state.utxos.len(), 0);
    assert_eq!(state.withdrawal_bundles.len(), 0);
    // Both notes of deposit blocks are gone: one by the number of the bundle events' block.
    assert_eq!(state.deposit_blocks.len(), 0);
    assert_eq!(state.withdrawal_bundle_event_blocks.len(), 1);
    assert_eq!(state.height, Some(3));
}
