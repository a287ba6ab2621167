//! What the mainchain tells the sidechain.

use crate::output::{BlockHash, FilledOutput, M6id, MainOutPoint, OutputView};
use vstd::prelude::*;

verus! {

/// A deposit: the mainchain output that made it, and the sidechain output that it makes.
#[derive(Debug, PartialEq, Eq)]
pub struct Deposit {
    pub outpoint: MainOutPoint,
    pub output: FilledOutput,
}

/// What happened to a withdrawal bundle on the mainchain.
#[derive(Clone, Copy, Debug, PartialEq, Eq, Structural)]
pub enum WithdrawalBundleEventStatus {
    Submitted,
    Confirmed,
    Failed,
}

/// Something that happened to a withdrawal bundle on the mainchain.
#[derive(Clone, Copy, Debug, PartialEq, Eq)]
pub struct WithdrawalBundleEvent {
    pub m6id: M6id,
    pub status: WithdrawalBundleEventStatus,
}

/// Something that happened in a mainchain block.
#[derive(Debug, PartialEq, Eq)]
pub enum BlockEvent {
    Deposit(Deposit),
    WithdrawalBundle(WithdrawalBundleEvent),
}

/// What happened in a mainchain block, in order.
#[derive(Debug, PartialEq, Eq)]
pub struct BlockInfo {
    pub events: Vec<BlockEvent>,
}

/// What happened in mainchain blocks, in order.
#[derive(Debug, PartialEq, Eq)]
pub struct TwoWayPegData {
    pub block_info: Vec<(BlockHash, BlockInfo)>,
}

impl Default for BlockInfo {
    fn default() -> (info: BlockInfo)
        ensures
            info.events@.len() == 0,
    {
        BlockInfo { events: Vec::new() }
    }
}

impl Default for TwoWayPegData {
    fn default() -> (data: TwoWayPegData)
        ensures
            data.block_info@.len() == 0,
    {
        TwoWayPegData { block_info: Vec::new() }
    }
}

/// What a `BlockEvent` holds.
#[verifier::ext_equal]
pub enum EventView {
    Deposit { outpoint: MainOutPoint, output: OutputView },
    WithdrawalBundle(WithdrawalBundleEvent),
}

impl View for BlockEvent {
    type V = EventView;

    open spec fn view(&self) -> EventView {
        match *self {
            BlockEvent::Deposit(deposit) => EventView::Deposit {
                outpoint: deposit.outpoint,
                output: deposit.output@,
            },
            BlockEvent::WithdrawalBundle(event) => EventView::WithdrawalBundle(event),
        }
    }
}

/// The first `n` events of a block, each with the hash of the block.
pub open spec fn block_events(block: (BlockHash, BlockInfo), n: int) -> Seq<
    (BlockHash, EventView),
> {
    Seq::new(n as nat, |i: int| (block.0, block.1.events@[i]@))
}

/// The events of blocks, one block after the other.
pub open spec fn events_of(blocks: Seq<(BlockHash, BlockInfo)>) -> Seq<(BlockHash, EventView)>
    decreases blocks.len(),
{
    if blocks.len() == 0 {
        Seq::empty()
    } else {
        let block = blocks.last();
        events_of(blocks.drop_last()) + block_events(block, block.1.events@.len() as int)
    }
}

impl View for TwoWayPegData {
    type V = Seq<(BlockHash, EventView)>;

    /// All events in order, each with the hash of its block.
    open spec fn view(&self) -> Seq<(BlockHash, EventView)> {
        events_of(self.block_info@)
    }
}

/// What one more event, and one more block, adds to the events before it.
pub proof fn lemma_events_grow(blocks: Seq<(BlockHash, BlockInfo)>, i: int, j: int)
    requires
        0 <= i < blocks.len(),
        0 <= j < blocks[i].1.events@.len(),
    ensures
        events_of(blocks.take(i)) + block_events(blocks[i], j + 1) == (events_of(blocks.take(i))
            + block_events(blocks[i], j)).push((blocks[i].0, blocks[i].1.events@[j]@)),
{
    assert(events_of(blocks.take(i)) + block_events(blocks[i], j + 1) =~= (events_of(
        blocks.take(i),
    ) + block_events(blocks[i], j)).push((blocks[i].0, blocks[i].1.events@[j]@)));
}

/// A block adds its events to those of the blocks before it.
pub proof fn lemma_blocks_grow(blocks: Seq<(BlockHash, BlockInfo)>, i: int)
    requires
        0 <= i < blocks.len(),
    ensures
        events_of(blocks.take(i + 1)) == events_of(blocks.take(i)) + block_events(
            blocks[i],
            blocks[i].1.events@.len() as int,
        ),
        events_of(blocks.take(i)) + block_events(blocks[i], 0) == events_of(blocks.take(i)),
{
    assert(blocks.take(i + 1).drop_last() =~= blocks.take(i));
    assert(events_of(blocks.take(i)) + block_events(blocks[i], 0) =~= events_of(blocks.take(i)));
}

/// Events up to a position of a block are a prefix of all events.
pub proof fn lemma_events_prefix(blocks: Seq<(BlockHash, BlockInfo)>, i: int, j: int)
    requires
        0 <= i < blocks.len(),
        0 <= j <= blocks[i].1.events@.len(),
    ensures
        ({
            let upto = events_of(blocks.take(i)) + block_events(blocks[i], j);
            upto.len() <= events_of(blocks).len() && upto == events_of(blocks).take(
                upto.len() as int,
            )
        }),
    decreases blocks.len(),
{
    let upto = events_of(blocks.take(i)) + block_events(blocks[i], j);
    let n = blocks.len() - 1;
    let last = blocks[n];
    if i == n {
        assert(blocks.take(i) =~= blocks.drop_last());
        assert(upto =~= events_of(blocks).take(upto.len() as int));
    } else {
        let init = blocks.drop_last();
        lemma_events_prefix(init, i, j);
        assert(init.take(i) =~= blocks.take(i));
        assert(upto =~= events_of(blocks).take(upto.len() as int));
    }
}

} // verus!
