//! What values hold is all that is in them.

use crate::address::{valid_witness_program, MainAddress, MainAddressView};
use crate::bundle::{
    m6id_of, transaction_id, BundleView, Transaction, TxOut, WithdrawalBundle,
    MAX_STANDARD_TX_WEIGHT,
};
use crate::collect::MAX_BUNDLE_OUTPUTS;
use crate::output::{
    ContentView, FilledOutput, FilledOutputContent, M6id, SpentOutput, WithdrawalOutputContent,
};
use crate::state::{InfoView, State, WithdrawalBundleInfo, WITHDRAWAL_BUNDLE_FAILURE_GAP};
use vstd::prelude::*;

verus! {

/// The limits of bundles.
pub proof fn law_limits()
    ensures
        WITHDRAWAL_BUNDLE_FAILURE_GAP == 4,
        MAX_STANDARD_TX_WEIGHT == 400_000,
        MAX_BUNDLE_OUTPUTS == 3121,
{
}

/// The state is viewed field by field.
pub proof fn law_state_viewed(state: State)
    ensures
        state@.height == state.height,
        state@.utxos == state.utxos@,
        state@.stxos == state.stxos@,
        state@.pending_withdrawal_bundle == state.pending_withdrawal_bundle,
        state.latest_failed_withdrawal_bundle is None
            <==> state@.latest_failed_withdrawal_bundle is None,
        state.latest_failed_withdrawal_bundle matches Some(all)
            ==> state@.latest_failed_withdrawal_bundle == Some(all@),
        state@.withdrawal_bundles == state.withdrawal_bundles@,
        state@.withdrawal_bundle_event_blocks == state.withdrawal_bundle_event_blocks@,
        state@.deposit_blocks == state.deposit_blocks@,
{
}

/// What is known of a bundle is viewed as what it is.
pub proof fn law_info_viewed(info: WithdrawalBundleInfo)
    ensures
        info matches WithdrawalBundleInfo::Known(bundle) ==> info@ == InfoView::Known(bundle@),
        info is Unknown ==> info@ is Unknown,
        info matches WithdrawalBundleInfo::UnknownConfirmed { spend_utxos } ==> info@
            == (InfoView::UnknownConfirmed { spend_utxos: spend_utxos@ }),
{
}

/// A bundle is viewed with what it spends and with its transaction, and that output by output.
pub proof fn law_bundle_viewed(bundle: WithdrawalBundle, tx: Transaction, output: TxOut, i: int)
    ensures
        bundle@.spend_utxos == bundle.spend_utxos@,
        bundle@.tx == bundle.tx@,
        tx@.version == tx.version,
        tx@.lock_time == tx.lock_time,
        tx@.outputs.len() == tx.output@.len(),
        0 <= i < tx.output@.len() ==> tx@.outputs[i] == tx.output@[i]@,
        output@.0 == output.value,
        output@.1 == output.script_pubkey@,
{
}

/// The id of a bundle is that of its transaction.
pub proof fn law_bundle_identified(bundle: BundleView)
    ensures
        m6id_of(bundle) == M6id(
            transaction_id(bundle.tx.version, bundle.tx.lock_time, bundle.tx.outputs),
        ),
{
}

/// Outputs are viewed with all that they hold.
pub proof fn law_output_viewed(
    output: FilledOutput,
    withdrawal: WithdrawalOutputContent,
    spent: SpentOutput,
)
    ensures
        output@.address == output.address,
        output@.memo == output.memo@,
        output@.content == output.content@,
        output.content matches FilledOutputContent::Bitcoin(content) ==> output@.content
            == ContentView::Bitcoin(content),
        output.content matches FilledOutputContent::BitcoinWithdrawal(content) ==> output@.content
            == ContentView::BitcoinWithdrawal(content@),
        output.content matches FilledOutputContent::Other(bytes) ==> output@.content
            == ContentView::Other(bytes@),
        withdrawal@.value == withdrawal.value,
        withdrawal@.main_fee == withdrawal.main_fee,
        withdrawal@.main_address == withdrawal.main_address@,
        spent@.output == spent.output@,
        spent@.inpoint == spent.inpoint,
{
}

/// Addresses are viewed with all that they hold.
pub proof fn law_address_viewed(address: MainAddress)
    ensures
        address matches MainAddress::P2pkh { hash, network } ==> address@
            == (MainAddressView::P2pkh { hash, network }),
        address matches MainAddress::P2sh { hash, network } ==> address@
            == (MainAddressView::P2sh { hash, network }),
        address matches MainAddress::Segwit { program, hrp } ==> address@
            == (MainAddressView::Segwit {
            version: program.spec_version(),
            program: program.spec_program(),
            hrp,
        }),
{
}

/// Which versions and programs make a witness program.
pub proof fn law_witness_programs(version: u8, program: Seq<u8>)
    ensures
        version > 16 ==> !valid_witness_program(version, program),
        program.len() < 2 || program.len() > 40 ==> !valid_witness_program(version, program),
        valid_witness_program(0, program) <==> program.len() == 20 || program.len() == 32,
        1 <= version <= 16 ==> (valid_witness_program(version, program) <==> 2 <= program.len()
            <= 40),
{
}

} // verus!
