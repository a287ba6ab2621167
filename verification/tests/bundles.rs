use two_way_peg::address::{KnownHrp, MainAddress, NetworkKind, WitnessProgram};
use two_way_peg::bundle::{Transaction, TxOut, WithdrawalBundle, MAX_STANDARD_TX_WEIGHT};
use two_way_peg::collect::{collect_withdrawal_bundle, fees_fit, MAX_BUNDLE_OUTPUTS};
use two_way_peg::error::{AmountOverflowError, Error};
use two_way_peg::output::{
    Address, BitcoinOutputContent, FilledOutput, FilledOutputContent, M6id, MainOutPoint, OutPoint,
    Txid, WithdrawalOutputContent,
};
use two_way_peg::state::State;
use two_way_peg::table::Table;

fn p2wpkh(hash: [u8; 20]) -> MainAddress {
    let program = WitnessProgram::new(0, hash.to_vec()).unwrap();
    MainAddress::Segwit { program, hrp: KnownHrp::Regtest }
}

// Distinct mainchain P2WPKH address per index.
fn unique_main_address(i: u32) -> MainAddress {
    let mut bytes = [0u8; 20];
    bytes[..4].copy_from_slice(&i.to_be_bytes());
    p2wpkh(bytes)
}

fn numbered(i: u32) -> OutPoint {
    let mut txid_bytes = [0u8; 32];
    txid_bytes[..4].copy_from_slice(&i.to_be_bytes());
    OutPoint::Regular { txid: Txid(txid_bytes), vout: 0 }
}

fn withdrawal(value: u64, main_fee: u64, main_address: MainAddress) -> FilledOutput {
    FilledOutput {
        address: Address([0u8; 20]),
        content: FilledOutputContent::BitcoinWithdrawal(WithdrawalOutputContent {
            value,
            main_fee,
            main_address,
        }),
        memo: Vec::new(),
    }
}

fn bitcoin_output(sats: u64) -> FilledOutput {
    FilledOutput {
        address: Address([0u8; 20]),
        content: FilledOutputContent::Bitcoin(BitcoinOutputContent(sats)),
        memo: Vec::new(),
    }
}

fn collect(state: &State, block_height: u32) -> Result<Option<WithdrawalBundle>, Error> {
    assert!(fees_fit(&state.utxos));
    collect_withdrawal_bundle(state, block_height)
}

#[test]
fn bundle_output_off_by_one() {
    let mut state = State::new();

    // Seed MAX_BUNDLE_OUTPUTS + 1 unique-destination withdrawal UTXOs.
    let n = MAX_BUNDLE_OUTPUTS + 1;
    assert_eq!(MAX_BUNDLE_OUTPUTS, 3121);
    for i in 0..n as u32 {
        state.utxos.put(numbered(i), withdrawal(1000, 1, unique_main_address(i)));
    }

    let bundle = collect(&state, 0)
        .expect("collect_withdrawal_bundle ok")
        .expect("a bundle was produced");
    // The bundle tx carries the withdrawal outputs plus the mainchain-fee
    // and inputs-commitment OP_RETURN outputs (2 extra).
    let withdrawal_outputs = bundle.tx().output.len() - 2;
    assert_eq!(
        withdrawal_outputs,
        MAX_BUNDLE_OUTPUTS + 1,
        "off-by-one must over-include one output past the cap"
    );
    assert!(withdrawal_outputs > MAX_BUNDLE_OUTPUTS, "collector exceeded MAX_BUNDLE_OUTPUTS");
}

#[test]
fn claims_past_the_limit_are_left() {
    let mut state = State::new();
    let n = MAX_BUNDLE_OUTPUTS + 3;
    for i in 0..n as u32 {
        state.utxos.put(numbered(i), withdrawal(1000, u64::from(i), unique_main_address(i)));
    }
    let bundle = collect(&state, 0).unwrap().unwrap();
    assert_eq!(bundle.tx().output.len() - 2, MAX_BUNDLE_OUTPUTS + 1);
    assert_eq!(bundle.spend_utxos().len(), MAX_BUNDLE_OUTPUTS + 1);
    // Those that offer the least are left.
    assert!(!bundle.spend_utxos().contains(&numbered(0)));
    assert!(!bundle.spend_utxos().contains(&numbered(1)));
    assert!(bundle.spend_utxos().contains(&numbered(2)));
    assert_eq!(bundle.tx().output[2].script_pubkey[2..6], (n as u32 - 1).to_be_bytes());
}

#[test]
fn nothing_to_collect() {
    let mut state = State::new();
    assert_eq!(collect(&state, 3), Ok(None));
    state.utxos.put(numbered(1), bitcoin_output(70));
    assert_eq!(collect(&state, 3), Ok(None));
}

#[test]
fn other_outputs_have_no_influence() {
    let mut state = State::new();
    state.utxos.put(numbered(2), withdrawal(100, 5, p2wpkh([7; 20])));
    state.utxos.put(numbered(4), withdrawal(200, 6, p2wpkh([8; 20])));
    let bundle = collect(&state, 9).unwrap().unwrap();
    for i in [1, 3, 5] {
        state.utxos.put(numbered(i), bitcoin_output(u64::MAX));
    }
    assert_eq!(collect(&state, 9).unwrap().unwrap(), bundle);
}

#[test]
fn withdrawals_to_an_address_are_summed() {
    let mut state = State::new();
    state.utxos.put(numbered(1), withdrawal(100, 5, p2wpkh([7; 20])));
    state.utxos.put(numbered(2), withdrawal(900, 6, p2wpkh([8; 20])));
    state.utxos.put(numbered(3), withdrawal(250, 7, p2wpkh([7; 20])));
    state.utxos.put(numbered(4), bitcoin_output(1));
    let bundle = collect(&state, 0).unwrap().unwrap();
    let output = &bundle.tx().output;
    assert_eq!(output.len(), 4);
    // Fees of 12 come before fees of 6.
    assert_eq!(output[2].value, 350);
    assert_eq!(output[3].value, 900);
    let mut script = vec![0x00, 0x14];
    script.extend([7; 20]);
    assert_eq!(output[2].script_pubkey, script);
    // The fees of the bundle, 18.
    assert_eq!(output[0].value, 0);
    assert_eq!(output[0].script_pubkey, vec![0x6a, 8, 0, 0, 0, 0, 0, 0, 0, 18]);
    assert_eq!(bundle.spend_utxos().len(), 3);
    assert!(!bundle.spend_utxos().contains(&numbered(4)));
    // What is paid is what was asked for.
    let paid: u64 = output.iter().map(|o| o.value).sum();
    assert_eq!(paid, 100 + 900 + 250);
}

#[test]
fn claims_are_ranked_by_fee_then_value_then_address() {
    let mut state = State::new();
    state.utxos.put(numbered(1), withdrawal(10, 1, p2wpkh([1; 20])));
    state.utxos.put(numbered(2), withdrawal(20, 1, p2wpkh([2; 20])));
    state.utxos.put(numbered(3), withdrawal(20, 1, p2wpkh([3; 20])));
    state.utxos.put(numbered(4), withdrawal(5, 2, p2wpkh([0; 20])));
    let bundle = collect(&state, 0).unwrap().unwrap();
    let ranked: Vec<(u64, u8)> =
        bundle.tx().output[2..].iter().map(|o| (o.value, o.script_pubkey[2])).collect();
    assert_eq!(ranked, vec![(5, 0), (20, 3), (20, 2), (10, 1)]);
}

#[test]
fn values_that_overflow_are_refused() {
    let mut state = State::new();
    state.utxos.put(numbered(1), withdrawal(u64::MAX, 0, p2wpkh([1; 20])));
    assert!(collect(&state, 0).unwrap().is_some());
    state.utxos.put(numbered(2), withdrawal(1, 0, p2wpkh([1; 20])));
    assert_eq!(collect(&state, 0), Err(Error::AmountOverflow(AmountOverflowError)));
}

#[test]
fn fees_that_overflow_are_refused() {
    let mut state = State::new();
    state.utxos.put(numbered(1), withdrawal(0, u64::MAX, p2wpkh([1; 20])));
    state.utxos.put(numbered(2), withdrawal(0, 1, p2wpkh([1; 20])));
    assert_eq!(collect(&state, 0), Err(Error::AmountOverflow(AmountOverflowError)));
}

#[test]
fn fees_of_several_addresses_must_fit() {
    let mut state = State::new();
    state.utxos.put(numbered(1), withdrawal(0, u64::MAX, p2wpkh([1; 20])));
    assert!(fees_fit(&state.utxos));
    state.utxos.put(numbered(2), withdrawal(0, 1, p2wpkh([2; 20])));
    assert!(!fees_fit(&state.utxos));
}

#[test]
fn a_heavy_bundle_is_refused() {
    // Payouts to 32 byte programs weigh more than those to 20 byte programs.
    let mut state = State::new();
    for i in 0..MAX_BUNDLE_OUTPUTS as u32 {
        let mut bytes = [0u8; 32];
        bytes[..4].copy_from_slice(&i.to_be_bytes());
        let program = WitnessProgram::new(1, bytes.to_vec()).unwrap();
        let address = MainAddress::Segwit { program, hrp: KnownHrp::Mainnet };
        state.utxos.put(numbered(i), withdrawal(1000, 1, address));
    }
    // 9 bytes, 3 for the count, 62 for the first two outputs, 43 for each payout.
    let weight = 4 * (9 + 3 + 62 + 43 * MAX_BUNDLE_OUTPUTS as u64) + 2;
    assert_eq!(
        collect(&state, 0),
        Err(Error::BundleTooHeavy { weight, max_weight: MAX_STANDARD_TX_WEIGHT })
    );
}

#[test]
fn scripts_of_addresses() {
    let mut p2pkh = vec![0x76, 0xa9, 0x14];
    p2pkh.extend([3; 20]);
    p2pkh.extend([0x88, 0xac]);
    let address = MainAddress::P2pkh { hash: [3; 20], network: NetworkKind::Main };
    assert_eq!(address.script_pubkey(), p2pkh);

    let mut p2sh = vec![0xa9, 0x14];
    p2sh.extend([4; 20]);
    p2sh.push(0x87);
    let address = MainAddress::P2sh { hash: [4; 20], network: NetworkKind::Test };
    assert_eq!(address.script_pubkey(), p2sh);

    let mut p2wpkh_script = vec![0x00, 0x14];
    p2wpkh_script.extend([5; 20]);
    assert_eq!(p2wpkh([5; 20]).script_pubkey(), p2wpkh_script);

    let mut p2tr = vec![0x51, 0x20];
    p2tr.extend([6; 32]);
    let program = WitnessProgram::new(1, vec![6; 32]).unwrap();
    let address = MainAddress::Segwit { program, hrp: KnownHrp::Testnets };
    assert_eq!(address.script_pubkey(), p2tr);

    let program = WitnessProgram::new(16, vec![1, 2]).unwrap();
    let address = MainAddress::Segwit { program, hrp: KnownHrp::Mainnet };
    assert_eq!(address.script_pubkey(), vec![0x60, 2, 1, 2]);
}

#[test]
fn scripts_are_those_of_bitcoin_addresses() {
    let hash = bitcoin::hashes::Hash::from_byte_array([9; 20]);
    let key_hash = bitcoin::PubkeyHash::from_raw_hash(hash);
    let address = bitcoin::Address::p2pkh(key_hash, bitcoin::Network::Bitcoin);
    let ours = MainAddress::P2pkh { hash: [9; 20], network: NetworkKind::Main };
    assert_eq!(ours.script_pubkey(), address.script_pubkey().into_bytes());
    let script = bitcoin::ScriptBuf::new_p2wpkh(&bitcoin::WPubkeyHash::from_raw_hash(hash));
    let address = bitcoin::Address::from_script(&script, bitcoin::Network::Regtest).unwrap();
    assert_eq!(p2wpkh([9; 20]).script_pubkey(), address.script_pubkey().into_bytes());
}

#[test]
fn witness_programs_are_checked() {
    assert!(WitnessProgram::new(0, vec![0; 20]).is_some());
    assert!(WitnessProgram::new(0, vec![0; 32]).is_some());
    assert!(WitnessProgram::new(0, vec![0; 21]).is_none());
    assert!(WitnessProgram::new(1, vec![0; 1]).is_none());
    assert!(WitnessProgram::new(1, vec![0; 2]).is_some());
    assert!(WitnessProgram::new(1, vec![0; 40]).is_some());
    assert!(WitnessProgram::new(1, vec![0; 41]).is_none());
    assert!(WitnessProgram::new(17, vec![0; 32]).is_none());
}

#[test]
fn a_bundle_commits_to_what_it_spends() {
    let mut spend_utxos = Table::new();
    let deposit = OutPoint::Deposit(MainOutPoint { txid: [5; 32], vout: 1 });
    spend_utxos.put(deposit, bitcoin_output(1));
    spend_utxos.put(OutPoint::Regular { txid: Txid([1; 32]), vout: 3 }, bitcoin_output(2));
    let mut script_pubkey = vec![0x00, 0x14];
    script_pubkey.extend(0..20);
    let payout = TxOut { value: 1500, script_pubkey };
    let bundle = WithdrawalBundle::new(7, 258, spend_utxos, vec![payout]).unwrap();
    assert_eq!(bundle.tx().version, 2);
    assert_eq!(bundle.tx().lock_time, 0);
    let output = &bundle.tx().output;
    assert_eq!(output.len(), 3);
    assert_eq!(output[0].script_pubkey, vec![0x6a, 0x08, 0, 0, 0, 0, 0, 0, 0x01, 0x02]);
    assert_eq!(
        output[1].script_pubkey,
        vec![
            0x6a, 0x20, 0x95, 0xe4, 0x4b, 0xbe, 0x94, 0xed, 0x14, 0xe8, 0xd7, 0x7b, 0x3c, 0x88,
            0x1f, 0xc9, 0x12, 0x00, 0xfc, 0xe3, 0x63, 0xd9, 0x98, 0x43, 0xef, 0x8c, 0x91, 0x30,
            0xf2, 0x37, 0xa5, 0x05, 0x51, 0x55,
        ]
    );
    assert_eq!(
        bundle.compute_m6id(),
        M6id([
            0xf5, 0x39, 0x6b, 0x30, 0x57, 0xf8, 0x57, 0x4d, 0xb9, 0xb5, 0xf2, 0x2b, 0xc6, 0x06,
            0x14, 0xc3, 0xff, 0x70, 0x94, 0x1c, 0x1c, 0x7f, 0x9e, 0xb7, 0x39, 0x28, 0xa8, 0xab,
            0xcc, 0xaf, 0x7f, 0xe7,
        ])
    );
    // 4 * (9 + 1 + 62 + 31) + 2
    assert_eq!(bundle.tx().weight(), 414);
}

#[test]
fn weight_and_id_of_an_empty_transaction() {
    let tx = Transaction { version: 2, lock_time: 0, output: Vec::new() };
    assert_eq!(tx.weight(), 42);
    assert_eq!(
        tx.compute_txid(),
        [
            0x1a, 0x62, 0x40, 0x82, 0x3d, 0xe4, 0xc8, 0xd6, 0xaa, 0xf8, 0x26, 0x85, 0x1b, 0xdf,
            0x2b, 0x0e, 0x8d, 0x5a, 0xcf, 0x7c, 0x31, 0xe8, 0x57, 0x8c, 0xff, 0x4c, 0x39, 0x4b,
            0x5a, 0x32, 0xbd, 0x4e,
        ]
    );
    let other = Transaction { version: 1, lock_time: 0, output: Vec::new() };
    assert_ne!(other.compute_txid(), tx.compute_txid());
    let other = Transaction { version: 2, lock_time: 1, output: Vec::new() };
    assert_ne!(other.compute_txid(), tx.compute_txid());
}

#[test]
fn weight_of_long_scripts_and_many_outputs() {
    let long = TxOut { value: 1, script_pubkey: vec![0; 253] };
    let tx = Transaction { version: 2, lock_time: 0, output: vec![long] };
    assert_eq!(tx.weight(), 4 * (9 + 1 + 8 + 3 + 253) + 2);
    let output = (0..253).map(|_| TxOut { value: 1, script_pubkey: Vec::new() }).collect();
    let tx = Transaction { version: 2, lock_time: 0, output };
    assert_eq!(tx.weight(), 4 * (9 + 3 + 9 * 253) + 2);
}

#[test]
fn the_greatest_weight_is_that_of_the_relay_policy() {
    assert_eq!(MAX_STANDARD_TX_WEIGHT, u64::from(bitcoin::policy::MAX_STANDARD_TX_WEIGHT));
}

#[test]
fn a_bundle_of_a_heavy_payout_is_refused() {
    let payout = TxOut { value: 1, script_pubkey: vec![0; 100_000] };
    let weight = 4 * (9 + 1 + 62 + 8 + 5 + 100_000) + 2;
    assert_eq!(
        WithdrawalBundle::new(0, 0, Table::new(), vec![payout]),
        Err(Error::BundleTooHeavy { weight, max_weight: 400_000 })
    );
}
