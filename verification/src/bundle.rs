//! Withdrawal bundles.

use crate::error::Error;
use crate::output::{
    outpoint_hash, outpoint_tag, outpoint_vout, FilledOutput, M6id, OutPoint, OutputView,
};
use crate::table::{in_order, Table};
use vstd::prelude::*;

verus! {

/// The greatest weight of a transaction that most nodes relay.
pub const MAX_STANDARD_TX_WEIGHT: u64 = 400_000;

/// An output of a mainchain transaction, the value in satoshi.
#[derive(Debug, PartialEq, Eq)]
pub struct TxOut {
    pub value: u64,
    pub script_pubkey: Vec<u8>,
}

impl View for TxOut {
    type V = (u64, Seq<u8>);

    open spec fn view(&self) -> (u64, Seq<u8>) {
        (self.value, self.script_pubkey@)
    }
}

/// The views of outputs.
pub open spec fn txouts_view(outputs: Seq<TxOut>) -> Seq<(u64, Seq<u8>)> {
    Seq::new(outputs.len(), |i: int| outputs[i]@)
}

/// A mainchain transaction without inputs.
#[derive(Debug, PartialEq, Eq)]
pub struct Transaction {
    pub version: i32,
    pub lock_time: u32,
    pub output: Vec<TxOut>,
}

/// What a `Transaction` holds.
#[verifier::ext_equal]
pub struct TransactionView {
    pub version: i32,
    pub lock_time: u32,
    pub outputs: Seq<(u64, Seq<u8>)>,
}

impl View for Transaction {
    type V = TransactionView;

    open spec fn view(&self) -> TransactionView {
        TransactionView {
            version: self.version,
            lock_time: self.lock_time,
            outputs: txouts_view(self.output@),
        }
    }
}

/// The number of bytes in which a transaction writes a count.
pub open spec fn count_size(n: int) -> int {
    if n < 0xfd {
        1
    } else if n <= 0xffff {
        3
    } else if n <= 0xffff_ffff {
        5
    } else {
        9
    }
}

/// The number of bytes of an output: its value, the length of its script and its script.
pub open spec fn txout_size(output: (u64, Seq<u8>)) -> int {
    8 + count_size(output.1.len() as int) + output.1.len()
}

/// The number of bytes of outputs.
pub open spec fn txouts_size(outputs: Seq<(u64, Seq<u8>)>) -> int
    decreases outputs.len(),
{
    if outputs.len() == 0 {
        0
    } else {
        txouts_size(outputs.drop_last()) + txout_size(outputs.last())
    }
}

/// The weight of a transaction with these outputs and no inputs. Its version and its lock time
/// have four bytes each and its count of inputs has one. A byte weighs four, but the marker and
/// the flag that a transaction without inputs is written with weigh one each.
pub open spec fn transaction_weight(outputs: Seq<(u64, Seq<u8>)>) -> int {
    4 * (9 + count_size(outputs.len() as int) + txouts_size(outputs)) + 2
}

/// The id of a transaction of this version, with this lock time and these outputs and no inputs.
pub uninterp spec fn transaction_id(
    version: i32,
    lock_time: u32,
    outputs: Seq<(u64, Seq<u8>)>,
) -> [u8; 32];

/// The id of a transaction.
pub open spec fn id_of(tx: TransactionView) -> [u8; 32] {
    transaction_id(tx.version, tx.lock_time, tx.outputs)
}

/// The SHA-256 digest of a byte string.
pub uninterp spec fn sha256_digest(bytes: Seq<u8>) -> [u8; 32];

/// The script that only carries data, up to 75 bytes: `OP_RETURN` and a push of the data.
pub open spec fn op_return_of(data: Seq<u8>) -> Seq<u8> {
    seq![0x6au8, data.len() as u8] + data
}

/// Reads `bitcoin::policy::MAX_STANDARD_TX_WEIGHT`. Claimed of it: its value.
#[verifier::external_body]
fn max_standard_tx_weight() -> (weight: u64)
    ensures
        weight == MAX_STANDARD_TX_WEIGHT,
{
    u64::from(bitcoin::policy::MAX_STANDARD_TX_WEIGHT)
}

/// Calls `bitcoin::Transaction::weight`. Claimed of it: the weight is that of BIP 141, three times
/// the size without witness data and once the size with it, as `transaction_weight` spells out for
/// a transaction without inputs, whatever its version and lock time. The sizes are summed in
/// `usize`, so the weight has to fit there.
#[verifier::external_body]
fn weigh(version: i32, lock_time: u32, output: &Vec<TxOut>) -> (weight: u64)
    requires
        transaction_weight(txouts_view(output@)) <= usize::MAX,
    ensures
        weight == transaction_weight(txouts_view(output@)),
{
    let output = output.iter().map(|o| bitcoin::TxOut {
        value: bitcoin::Amount::from_sat(o.value),
        script_pubkey: bitcoin::ScriptBuf::from_bytes(o.script_pubkey.to_vec()),
    });
    let tx = bitcoin::Transaction {
        version: bitcoin::transaction::Version(version),
        lock_time: bitcoin::absolute::LockTime::from_consensus(lock_time),
        input: Vec::new(),
        output: output.collect(),
    };
    tx.weight().to_wu()
}

/// Calls `bitcoin::Transaction::compute_txid`. Claimed of it: the id is a function of the version,
/// the lock time and the outputs, there being no inputs. What function it is, a double SHA-256 of
/// the encoded transaction, is left unsaid.
#[verifier::external_body]
fn identify(version: i32, lock_time: u32, output: &Vec<TxOut>) -> (id: [u8; 32])
    ensures
        id == transaction_id(version, lock_time, txouts_view(output@)),
{
    let output = output.iter().map(|o| bitcoin::TxOut {
        value: bitcoin::Amount::from_sat(o.value),
        script_pubkey: bitcoin::ScriptBuf::from_bytes(o.script_pubkey.to_vec()),
    });
    let tx = bitcoin::Transaction {
        version: bitcoin::transaction::Version(version),
        lock_time: bitcoin::absolute::LockTime::from_consensus(lock_time),
        input: Vec::new(),
        output: output.collect(),
    };
    bitcoin::hashes::Hash::to_byte_array(tx.compute_txid())
}

/// Calls `bitcoin::hashes::sha256::Hash::hash`. Claimed of it: the digest is a function of the
/// bytes. What function it is, is left unsaid.
#[verifier::external_body]
fn digest(bytes: &Vec<u8>) -> (d: [u8; 32])
    ensures
        d == sha256_digest(bytes@),
{
    let hash: bitcoin::hashes::sha256::Hash = bitcoin::hashes::Hash::hash(bytes);
    bitcoin::hashes::Hash::to_byte_array(hash)
}

/// Calls `bitcoin::ScriptBuf::new_op_return`. Claimed of it: the script is the opcode 0x6a, the
/// length of the data as the opcode of a short push, and the data.
#[verifier::external_body]
fn op_return(data: &Vec<u8>) -> (script: Vec<u8>)
    requires
        data@.len() <= 75,
    ensures
        script@ == op_return_of(data@),
{
    let data: &bitcoin::script::PushBytes = data.as_slice().try_into().unwrap();
    bitcoin::ScriptBuf::new_op_return(data).into_bytes()
}

impl Transaction {
    /// The weight of this transaction.
    pub fn weight(&self) -> (weight: u64)
        requires
            transaction_weight(self@.outputs) <= usize::MAX,
        ensures
            weight == transaction_weight(self@.outputs),
    {
        weigh(self.version, self.lock_time, &self.output)
    }

    /// The id of this transaction.
    pub fn compute_txid(&self) -> (id: [u8; 32])
        ensures
            id == id_of(self@),
    {
        identify(self.version, self.lock_time, &self.output)
    }
}

/// The bytes of a number, the most significant first.
pub open spec fn be32(n: u32) -> Seq<u8> {
    seq![
        (n / 0x100_0000) as u8,
        (n / 0x1_0000 % 0x100) as u8,
        (n / 0x100 % 0x100) as u8,
        (n % 0x100) as u8,
    ]
}

/// The bytes of a number, the most significant first.
pub open spec fn be64(n: u64) -> Seq<u8> {
    be32((n / 0x1_0000_0000) as u32) + be32((n % 0x1_0000_0000) as u32)
}

/// The bytes of an outpoint: its kind, its 32 bytes and its index.
pub open spec fn outpoint_bytes(tag: u8, hash: Seq<u8>, vout: u32) -> Seq<u8> {
    seq![tag] + hash + be32(vout)
}

/// The bytes of outpoints, one after the other.
pub open spec fn outpoints_bytes(outpoints: Seq<OutPoint>) -> Seq<u8>
    decreases outpoints.len(),
{
    if outpoints.len() == 0 {
        Seq::empty()
    } else {
        let o = outpoints.last();
        outpoints_bytes(outpoints.drop_last()) + outpoint_bytes(
            outpoint_tag(o),
            outpoint_hash(o)@,
            outpoint_vout(o),
        )
    }
}

/// What a bundle commits to: the outpoints that it spends, in order, and the height at which it
/// was made, written as an outpoint with all its bytes zero.
pub open spec fn commitment_bytes(spent: Set<OutPoint>, block_height: u32) -> Seq<u8> {
    outpoints_bytes(in_order::<OutPoint>(spent)) + outpoint_bytes(
        0,
        Seq::new(32, |i: int| 0u8),
        block_height,
    )
}

fn push_be32(bytes: &mut Vec<u8>, n: u32)
    ensures
        final(bytes)@ == old(bytes)@ + be32(n),
{
    bytes.push((n / 0x100_0000) as u8);
    bytes.push((n / 0x1_0000 % 0x100) as u8);
    bytes.push((n / 0x100 % 0x100) as u8);
    bytes.push((n % 0x100) as u8);
    assert(bytes@ =~= old(bytes)@ + be32(n));
}

fn push_outpoint(bytes: &mut Vec<u8>, tag: u8, hash: &[u8; 32], vout: u32)
    ensures
        final(bytes)@ == old(bytes)@ + outpoint_bytes(tag, hash@, vout),
{
    bytes.push(tag);
    push_array(bytes, hash);
    push_be32(bytes, vout);
    assert(bytes@ =~= old(bytes)@ + outpoint_bytes(tag, hash@, vout));
}

fn push_array(bytes: &mut Vec<u8>, array: &[u8; 32])
    ensures
        final(bytes)@ == old(bytes)@ + array@,
{
    let mut i: usize = 0;
    while i < 32
        invariant
            i <= 32,
            bytes@ == old(bytes)@ + array@.take(i as int),
        decreases 32 - i,
    {
        bytes.push(array[i]);
        assert(array@.take(i + 1) =~= array@.take(i as int).push(array@[i as int]));
        assert(bytes@ =~= old(bytes)@ + array@.take(i + 1));
        i = i + 1;
    }
    assert(array@.take(32) =~= array@);
}

/// A bundle of withdrawals: the outputs of the sidechain that it spends, and the transaction that
/// pays them out on the mainchain.
#[derive(Debug, PartialEq, Eq)]
pub struct WithdrawalBundle {
    pub spend_utxos: Table<OutPoint, FilledOutput>,
    pub tx: Transaction,
}

/// What a `WithdrawalBundle` holds.
#[verifier::ext_equal]
pub struct BundleView {
    pub spend_utxos: Map<OutPoint, OutputView>,
    pub tx: TransactionView,
}

impl View for WithdrawalBundle {
    type V = BundleView;

    open spec fn view(&self) -> BundleView {
        BundleView { spend_utxos: self.spend_utxos@, tx: self.tx@ }
    }
}

/// The version of a bundle's transaction.
pub const BUNDLE_TX_VERSION: i32 = 2;

/// The lock time of a bundle's transaction.
pub const BUNDLE_TX_LOCK_TIME: u32 = 0;

/// The bundle that spends `spend_utxos` and pays `payouts`. Before the payouts its transaction has
/// two outputs without value: one carries the mainchain fee, the other a commitment to what is
/// spent.
pub open spec fn bundle_of(
    block_height: u32,
    fee: u64,
    spend_utxos: Map<OutPoint, OutputView>,
    payouts: Seq<(u64, Seq<u8>)>,
) -> BundleView {
    let commitment = sha256_digest(commitment_bytes(spend_utxos.dom(), block_height))@;
    BundleView {
        spend_utxos,
        tx: TransactionView {
            version: BUNDLE_TX_VERSION,
            lock_time: BUNDLE_TX_LOCK_TIME,
            outputs: seq![(0u64, op_return_of(be64(fee))), (0u64, op_return_of(commitment))]
                + payouts,
        },
    }
}

/// The weight of the transaction of a bundle with these payouts. The two outputs before them have
/// 62 bytes, whatever they carry.
pub open spec fn bundle_weight(payouts: Seq<(u64, Seq<u8>)>) -> int {
    4 * (9 + count_size(payouts.len() as int + 2) + 62 + txouts_size(payouts)) + 2
}

/// What outputs before others add to their size.
proof fn lemma_txouts_size_split(a: Seq<(u64, Seq<u8>)>, b: Seq<(u64, Seq<u8>)>)
    ensures
        txouts_size(a + b) == txouts_size(a) + txouts_size(b),
    decreases b.len(),
{
    if b.len() == 0 {
        assert(a + b =~= a);
    } else {
        lemma_txouts_size_split(a, b.drop_last());
        assert((a + b).drop_last() =~= a + b.drop_last());
    }
}

/// The weight of a bundle's transaction depends on nothing but its payouts.
pub proof fn lemma_bundle_weight(
    block_height: u32,
    fee: u64,
    spend_utxos: Map<OutPoint, OutputView>,
    payouts: Seq<(u64, Seq<u8>)>,
)
    ensures
        transaction_weight(bundle_of(block_height, fee, spend_utxos, payouts).tx.outputs)
            == bundle_weight(payouts),
{
    let commitment = sha256_digest(commitment_bytes(spend_utxos.dom(), block_height))@;
    let fixed = seq![(0u64, op_return_of(be64(fee))), (0u64, op_return_of(commitment))];
    assert(fixed.drop_last() =~= seq![fixed[0]]);
    assert(seq![fixed[0]].drop_last() =~= Seq::empty());
    assert(txouts_size(Seq::empty()) == 0);
    assert(txout_size(fixed[0]) == 19);
    assert(txouts_size(seq![fixed[0]]) == 19);
    assert(txout_size(fixed[1]) == 43);
    lemma_txouts_size_split(fixed, payouts);
}

/// The id of a bundle.
pub open spec fn m6id_of(bundle: BundleView) -> M6id {
    M6id(id_of(bundle.tx))
}

impl WithdrawalBundle {
    /// Makes a bundle, unless its transaction would be too heavy to be relayed.
    pub fn new(
        block_height: u32,
        fee: u64,
        spend_utxos: Table<OutPoint, FilledOutput>,
        bundle_outputs: Vec<TxOut>,
    ) -> (r: Result<WithdrawalBundle, Error>)
        requires
            bundle_weight(txouts_view(bundle_outputs@)) <= usize::MAX,
        ensures
            ({
                let bundle = bundle_of(
                    block_height,
                    fee,
                    spend_utxos@,
                    txouts_view(bundle_outputs@),
                );
                let weight = bundle_weight(txouts_view(bundle_outputs@));
                match r {
                    Ok(b) => weight <= MAX_STANDARD_TX_WEIGHT && b@ == bundle,
                    Err(e) => weight > MAX_STANDARD_TX_WEIGHT && e == (Error::BundleTooHeavy {
                        weight: weight as u64,
                        max_weight: MAX_STANDARD_TX_WEIGHT,
                    }),
                }
            }),
    {
        let ghost spent = spend_utxos@.dom();
        let n = spend_utxos.len();
        let mut committed: Vec<u8> = Vec::new();
        let mut i: usize = 0;
        assert(committed@ =~= outpoints_bytes(spend_utxos.keys().take(0)));
        while i < n
            invariant
                n == spend_utxos.keys().len(),
                i <= n,
                committed@ == outpoints_bytes(spend_utxos.keys().take(i as int)),
            decreases n - i,
        {
            let o = spend_utxos.key_at(i);
            push_outpoint(&mut committed, o.tag(), &o.hash_bytes(), o.vout());
            proof {
                let upto = spend_utxos.keys().take(i + 1);
                assert(upto.drop_last() =~= spend_utxos.keys().take(i as int));
                assert(upto.last() == *o);
            }
            i = i + 1;
        }
        let zeros: [u8; 32] = [0; 32];
        push_outpoint(&mut committed, 0, &zeros, block_height);
        proof {
            assert(spend_utxos.keys().take(n as int) =~= spend_utxos.keys());
            assert(zeros@ =~= Seq::new(32, |i: int| 0u8));
            assert(committed@ == commitment_bytes(spent, block_height));
        }
        let commitment = digest(&committed);
        let mut commitment_data: Vec<u8> = Vec::new();
        push_array(&mut commitment_data, &commitment);
        let mut fee_data: Vec<u8> = Vec::new();
        push_be32(&mut fee_data, (fee / 0x1_0000_0000) as u32);
        push_be32(&mut fee_data, (fee % 0x1_0000_0000) as u32);
        proof {
            assert(commitment_data@ =~= commitment@);
            assert(fee_data@ =~= be64(fee));
        }
        let mut output: Vec<TxOut> = Vec::new();
        output.push(TxOut { value: 0, script_pubkey: op_return(&fee_data) });
        output.push(TxOut { value: 0, script_pubkey: op_return(&commitment_data) });
        let ghost payouts = bundle_outputs@;
        let mut bundle_outputs = bundle_outputs;
        output.append(&mut bundle_outputs);
        let tx = Transaction {
            version: BUNDLE_TX_VERSION,
            lock_time: BUNDLE_TX_LOCK_TIME,
            output,
        };
        let bundle = WithdrawalBundle { spend_utxos, tx };
        assert(bundle.tx@ =~= bundle_of(
            block_height,
            fee,
            spend_utxos@,
            txouts_view(payouts),
        ).tx);
        proof {
            lemma_bundle_weight(block_height, fee, spend_utxos@, txouts_view(payouts));
        }
        let weight = bundle.tx.weight();
        let max_weight = max_standard_tx_weight();
        if weight > max_weight {
            return Err(Error::BundleTooHeavy { weight, max_weight });
        }
        Ok(bundle)
    }

    /// The outputs that this bundle spends.
    pub fn spend_utxos(&self) -> (utxos: &Table<OutPoint, FilledOutput>)
        ensures
            *utxos == self.spend_utxos,
    {
        &self.spend_utxos
    }

    /// The transaction of this bundle.
    pub fn tx(&self) -> (tx: &Transaction)
        ensures
            *tx == self.tx,
    {
        &self.tx
    }

    /// The id of this bundle.
    pub fn compute_m6id(&self) -> (m6id: M6id)
        ensures
            m6id == m6id_of(self@),
    {
        M6id(self.tx.compute_txid())
    }
}

} // verus!
