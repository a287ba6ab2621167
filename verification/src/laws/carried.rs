//! What the transaction of a bundle carries, byte by byte.

use crate::address::{script_of, KnownHrp, MainAddressView, NetworkKind};
use crate::bundle::{
    be32, be64, bundle_of, bundle_weight, commitment_bytes, count_size, lemma_bundle_weight,
    outpoint_bytes, outpoints_bytes, sha256_digest, transaction_weight, txouts_size,
};
use crate::order::before;
use crate::output::{outpoint_hash, outpoint_tag, outpoint_vout, OutPoint, OutputView};
use crate::table::{in_order, lemma_in_order};
use vstd::prelude::*;

verus! {

/// Four bytes spell a number with the most significant byte first.
pub proof fn law_four_bytes(n: u32)
    ensures
        be32(n).len() == 4,
        be32(n)[0] * 0x100_0000 + be32(n)[1] * 0x1_0000 + be32(n)[2] * 0x100 + be32(n)[3] == n,
{
}

/// Eight bytes spell a number with the most significant byte first.
pub proof fn law_eight_bytes(n: u64)
    ensures
        be64(n).len() == 8,
        be64(n)[0] * 0x100_0000_0000_0000 + be64(n)[1] * 0x1_0000_0000_0000 + be64(n)[2]
            * 0x100_0000_0000 + be64(n)[3] * 0x1_0000_0000 + be64(n)[4] * 0x100_0000 + be64(n)[5]
            * 0x1_0000 + be64(n)[6] * 0x100 + be64(n)[7] == n,
{
    let high = (n / 0x1_0000_0000) as u32;
    let low = (n % 0x1_0000_0000) as u32;
    law_four_bytes(high);
    law_four_bytes(low);
    let bytes = be64(n);
    assert(bytes[0] == be32(high)[0] && bytes[1] == be32(high)[1]);
    assert(bytes[2] == be32(high)[2] && bytes[3] == be32(high)[3]);
    assert(bytes[4] == be32(low)[0] && bytes[5] == be32(low)[1]);
    assert(bytes[6] == be32(low)[2] && bytes[7] == be32(low)[3]);
}

/// The output script of an address, byte by byte. It does not depend on the network.
pub proof fn law_scripts(
    hash: [u8; 20],
    network: NetworkKind,
    version: u8,
    program: Seq<u8>,
    hrp: KnownHrp,
)
    ensures
        ({
            let script = script_of(MainAddressView::P2pkh { hash, network });
            &&& script.len() == 25
            &&& script[0] == 0x76 && script[1] == 0xa9 && script[2] == 20
            &&& script.subrange(3, 23) == hash@
            &&& script[23] == 0x88 && script[24] == 0xac
        }),
        ({
            let script = script_of(MainAddressView::P2sh { hash, network });
            &&& script.len() == 23
            &&& script[0] == 0xa9 && script[1] == 20
            &&& script.subrange(2, 22) == hash@
            &&& script[22] == 0x87
        }),
        version <= 16 && program.len() <= 40 ==> {
            let script = script_of(MainAddressView::Segwit { version, program, hrp });
            &&& script.len() == program.len() + 2
            &&& version == 0 ==> script[0] == 0
            &&& version > 0 ==> script[0] == 80 + version
            &&& script[1] == program.len()
            &&& script.skip(2) == program
        },
{
    assert(script_of(MainAddressView::P2pkh { hash, network }).subrange(3, 23) =~= hash@);
    assert(script_of(MainAddressView::P2sh { hash, network }).subrange(2, 22) =~= hash@);
    assert(script_of(MainAddressView::Segwit { version, program, hrp }).skip(2) =~= program);
}

proof fn lemma_outpoint_bytes(o: OutPoint)
    ensures
        ({
            let bytes = outpoint_bytes(outpoint_tag(o), outpoint_hash(o)@, outpoint_vout(o));
            &&& bytes.len() == 37
            &&& bytes[0] == outpoint_tag(o)
            &&& bytes.subrange(1, 33) == outpoint_hash(o)@
            &&& bytes[33] * 0x100_0000 + bytes[34] * 0x1_0000 + bytes[35] * 0x100 + bytes[36]
                == outpoint_vout(o)
        }),
{
    let bytes = outpoint_bytes(outpoint_tag(o), outpoint_hash(o)@, outpoint_vout(o));
    let vout = be32(outpoint_vout(o));
    law_four_bytes(outpoint_vout(o));
    assert(bytes.subrange(1, 33) =~= outpoint_hash(o)@);
    assert(bytes[33] == vout[0] && bytes[34] == vout[1]);
    assert(bytes[35] == vout[2] && bytes[36] == vout[3]);
}

proof fn lemma_outpoints_bytes(order: Seq<OutPoint>, i: int)
    ensures
        outpoints_bytes(order).len() == 37 * order.len(),
        0 <= i < order.len() ==> outpoints_bytes(order).subrange(37 * i, 37 * i + 37)
            == outpoint_bytes(
            outpoint_tag(order[i]),
            outpoint_hash(order[i])@,
            outpoint_vout(order[i]),
        ),
    decreases order.len(),
{
    if order.len() > 0 {
        let init = order.drop_last();
        let o = order.last();
        let bytes = outpoint_bytes(outpoint_tag(o), outpoint_hash(o)@, outpoint_vout(o));
        lemma_outpoints_bytes(init, i);
        lemma_outpoint_bytes(o);
        if 0 <= i < init.len() {
            assert(outpoints_bytes(order).subrange(37 * i, 37 * i + 37) =~= outpoints_bytes(
                init,
            ).subrange(37 * i, 37 * i + 37));
        } else if i == init.len() {
            assert(outpoints_bytes(order).subrange(37 * i, 37 * i + 37) =~= bytes);
        }
    }
}

/// What a bundle commits to: 37 bytes for each outpoint that it spends, in their order, and 37 for
/// the height. Those of an outpoint are its kind, its 32 bytes and its index; those of the height
/// are 33 zeros and the height.
pub proof fn law_committed_bytes(spent: Set<OutPoint>, block_height: u32, i: int) -> (order: Seq<
    OutPoint,
>)
    requires
        spent.finite(),
    ensures
        order.len() == spent.len(),
        forall|o: OutPoint| #[trigger] spent.contains(o) <==> order.contains(o),
        forall|j: int, k: int|
            0 <= j < k < order.len() ==> before::<OutPoint>(
                #[trigger] order[j],
                #[trigger] order[k],
            ),
        ({
            let bytes = commitment_bytes(spent, block_height);
            let n = 37 * order.len();
            &&& bytes.len() == n + 37
            &&& 0 <= i < order.len() ==> {
                let part = bytes.subrange(37 * i, 37 * i + 37);
                &&& part[0] == outpoint_tag(order[i])
                &&& part.subrange(1, 33) == outpoint_hash(order[i])@
                &&& part[33] * 0x100_0000 + part[34] * 0x1_0000 + part[35] * 0x100 + part[36]
                    == outpoint_vout(order[i])
            }
            &&& forall|j: int| 0 <= j < 33 ==> #[trigger] bytes.skip(n as int)[j] == 0
            &&& bytes.skip(n as int)[33] * 0x100_0000 + bytes.skip(n as int)[34] * 0x1_0000
                + bytes.skip(n as int)[35] * 0x100 + bytes.skip(n as int)[36] == block_height
        }),
{
    lemma_in_order::<OutPoint>(spent);
    let order = in_order::<OutPoint>(spent);
    let bytes = commitment_bytes(spent, block_height);
    let tail = outpoint_bytes(0, Seq::new(32, |i: int| 0u8), block_height);
    let n = 37 * order.len() as int;
    lemma_outpoints_bytes(order, i);
    law_four_bytes(block_height);
    assert(bytes.skip(n) =~= tail);
    assert(tail[33] == be32(block_height)[0] && tail[34] == be32(block_height)[1]);
    assert(tail[35] == be32(block_height)[2] && tail[36] == be32(block_height)[3]);
    if 0 <= i < order.len() {
        lemma_outpoint_bytes(order[i]);
        assert(bytes.subrange(37 * i, 37 * i + 37) =~= outpoints_bytes(order).subrange(
            37 * i,
            37 * i + 37,
        ));
    }
    order
}

/// The transaction of a bundle is of version 2 and has no lock time. Its first two outputs have no
/// value: one carries the fee in eight bytes, the most significant first, the other the digest of
/// what the bundle commits to. Its other outputs are the payouts.
pub proof fn law_bundle_transaction(
    block_height: u32,
    fee: u64,
    spend_utxos: Map<OutPoint, OutputView>,
    payouts: Seq<(u64, Seq<u8>)>,
)
    ensures
        ({
            let bundle = bundle_of(block_height, fee, spend_utxos, payouts);
            let outputs = bundle.tx.outputs;
            let carried = outputs[0].1;
            let committed = outputs[1].1;
            &&& bundle.spend_utxos == spend_utxos
            &&& bundle.tx.version == 2
            &&& bundle.tx.lock_time == 0
            &&& outputs.len() == payouts.len() + 2
            &&& outputs.skip(2) == payouts
            &&& outputs[0].0 == 0
            &&& carried.len() == 10
            &&& carried[0] == 0x6a && carried[1] == 8
            &&& carried[2] * 0x100_0000_0000_0000 + carried[3] * 0x1_0000_0000_0000 + carried[4]
                * 0x100_0000_0000 + carried[5] * 0x1_0000_0000 + carried[6] * 0x100_0000
                + carried[7] * 0x1_0000 + carried[8] * 0x100 + carried[9] == fee
            &&& outputs[1].0 == 0
            &&& committed.len() == 34
            &&& committed[0] == 0x6a && committed[1] == 32
            &&& committed.skip(2) == sha256_digest(
                commitment_bytes(spend_utxos.dom(), block_height),
            )@
        }),
{
    let outputs = bundle_of(block_height, fee, spend_utxos, payouts).tx.outputs;
    law_eight_bytes(fee);
    assert(outputs.skip(2) =~= payouts);
    let bytes = be64(fee);
    let carried = outputs[0].1;
    assert(carried[2] == bytes[0] && carried[3] == bytes[1] && carried[4] == bytes[2]);
    assert(carried[5] == bytes[3] && carried[6] == bytes[4] && carried[7] == bytes[5]);
    assert(carried[8] == bytes[6] && carried[9] == bytes[7]);
    assert(outputs[1].1.skip(2) =~= sha256_digest(
        commitment_bytes(spend_utxos.dom(), block_height),
    )@);
}

/// Bundles with different fees have different transactions.
pub proof fn law_fees_told_apart(
    block_height: u32,
    fee: u64,
    other_fee: u64,
    spend_utxos: Map<OutPoint, OutputView>,
    payouts: Seq<(u64, Seq<u8>)>,
)
    requires
        fee != other_fee,
    ensures
        bundle_of(block_height, fee, spend_utxos, payouts).tx.outputs[0] != bundle_of(
            block_height,
            other_fee,
            spend_utxos,
            payouts,
        ).tx.outputs[0],
{
    law_bundle_transaction(block_height, fee, spend_utxos, payouts);
    law_bundle_transaction(block_height, other_fee, spend_utxos, payouts);
}

/// What a transaction weighs without outputs, and what one more output adds: four for each byte of
/// its value, of its script, of the count that tells the script's length, and for what the count of
/// outputs grows by. A count below 253 has one byte, a greater one three, five or nine.
pub proof fn law_weight_of_outputs(outputs: Seq<(u64, Seq<u8>)>, output: (u64, Seq<u8>))
    ensures
        transaction_weight(Seq::empty()) == 42,
        transaction_weight(outputs.push(output)) - transaction_weight(outputs) == 4 * (8
            + count_size(output.1.len() as int) + output.1.len() + count_size(
            outputs.len() as int + 1,
        ) - count_size(outputs.len() as int)),
        forall|n: int| 0 <= n < 253 ==> #[trigger] count_size(n) == 1,
        forall|n: int| 253 <= n <= 0xffff ==> #[trigger] count_size(n) == 3,
        forall|n: int| 0xffff < n <= 0xffff_ffff ==> #[trigger] count_size(n) == 5,
        forall|n: int| 0xffff_ffff < n ==> #[trigger] count_size(n) == 9,
{
    assert(outputs.push(output).drop_last() =~= outputs);
    assert(txouts_size(Seq::empty()) == 0);
}

/// A bundle weighs what its transaction weighs.
pub proof fn law_weight_of_bundle(
    block_height: u32,
    fee: u64,
    spend_utxos: Map<OutPoint, OutputView>,
    payouts: Seq<(u64, Seq<u8>)>,
)
    ensures
        bundle_weight(payouts) == transaction_weight(
            bundle_of(block_height, fee, spend_utxos, payouts).tx.outputs,
        ),
        bundle_weight(Seq::empty()) == 290,
{
    lemma_bundle_weight(block_height, fee, spend_utxos, payouts);
    assert(txouts_size(Seq::empty()) == 0);
}

} // verus!
