//! Outputs of the sidechain and what points to them.

use crate::address::{
    bytes_code, duplicate_bytes, lemma_bytes_code_injective, MainAddress, MainAddressView,
};
use crate::order::{Duplicate, Key};
use vstd::prelude::*;

verus! {

/// The id of a sidechain transaction.
#[derive(Clone, Copy, Debug, PartialEq, Eq, PartialOrd, Ord, Hash)]
pub struct Txid(pub [u8; 32]);

/// The merkle root of a block body.
#[derive(Clone, Copy, Debug, PartialEq, Eq, PartialOrd, Ord, Hash)]
pub struct MerkleRoot(pub [u8; 32]);

/// The hash of a mainchain block.
#[derive(Clone, Copy, Debug, PartialEq, Eq, PartialOrd, Ord, Hash)]
pub struct BlockHash(pub [u8; 32]);

/// The id of a withdrawal bundle: that of its mainchain transaction.
#[derive(Clone, Copy, Debug, PartialEq, Eq, PartialOrd, Ord, Hash)]
pub struct M6id(pub [u8; 32]);

/// An address on the sidechain.
#[derive(Clone, Copy, Debug, PartialEq, Eq, PartialOrd, Ord, Hash)]
pub struct Address(pub [u8; 20]);

/// An output of a mainchain transaction.
#[derive(Clone, Copy, Debug, PartialEq, Eq, PartialOrd, Ord, Hash)]
pub struct MainOutPoint {
    pub txid: [u8; 32],
    pub vout: u32,
}

/// Where an output of the sidechain comes from.
#[derive(Clone, Copy, Debug, PartialEq, Eq, PartialOrd, Ord, Hash)]
pub enum OutPoint {
    /// Created by a transaction.
    Regular { txid: Txid, vout: u32 },
    /// Created by a block body.
    Coinbase { merkle_root: MerkleRoot, vout: u32 },
    /// Created by a deposit on the mainchain.
    Deposit(MainOutPoint),
}

/// Where an output of the sidechain is spent.
#[derive(Clone, Copy, Debug, PartialEq, Eq, PartialOrd, Ord, Hash)]
pub enum InPoint {
    /// By a transaction.
    Regular { txid: Txid, vin: u32 },
    /// By a withdrawal bundle.
    Withdrawal { m6id: M6id },
}

impl View for M6id {
    type V = M6id;

    open spec fn view(&self) -> M6id {
        *self
    }
}

impl View for BlockHash {
    type V = BlockHash;

    open spec fn view(&self) -> BlockHash {
        *self
    }
}

impl View for OutPoint {
    type V = OutPoint;

    open spec fn view(&self) -> OutPoint {
        *self
    }
}

impl Duplicate for M6id {
    fn duplicate(&self) -> (copy: M6id) {
        *self
    }
}

impl Duplicate for OutPoint {
    fn duplicate(&self) -> (copy: OutPoint) {
        *self
    }
}

impl Duplicate for u32 {
    fn duplicate(&self) -> (copy: u32) {
        *self
    }
}

impl Duplicate for (BlockHash, u32) {
    fn duplicate(&self) -> (copy: (BlockHash, u32)) {
        (self.0, self.1)
    }
}

impl Key for u32 {
    open spec fn code(key: u32) -> Seq<u64> {
        seq![key as u64]
    }

    proof fn lemma_code_injective(a: u32, b: u32) {
        assert(Self::code(a)[0] == a as u64);
        assert(Self::code(b)[0] == b as u64);
    }

    fn code_len(&self) -> (n: usize) {
        1
    }

    fn code_at(&self, i: usize) -> (c: u64) {
        *self as u64
    }
}

impl Key for M6id {
    open spec fn code(key: M6id) -> Seq<u64> {
        bytes_code(key.0@)
    }

    proof fn lemma_code_injective(a: M6id, b: M6id) {
        lemma_bytes_code_injective(a.0@, b.0@);
        assert(a.0 =~= b.0);
    }

    fn code_len(&self) -> (n: usize) {
        32
    }

    fn code_at(&self, i: usize) -> (c: u64) {
        self.0[i] as u64
    }
}

impl Key for BlockHash {
    open spec fn code(key: BlockHash) -> Seq<u64> {
        bytes_code(key.0@)
    }

    proof fn lemma_code_injective(a: BlockHash, b: BlockHash) {
        lemma_bytes_code_injective(a.0@, b.0@);
        assert(a.0 =~= b.0);
    }

    fn code_len(&self) -> (n: usize) {
        32
    }

    fn code_at(&self, i: usize) -> (c: u64) {
        self.0[i] as u64
    }
}

/// The rank of an outpoint's kind.
pub open spec fn outpoint_tag(outpoint: OutPoint) -> u8 {
    match outpoint {
        OutPoint::Regular { .. } => 0,
        OutPoint::Coinbase { .. } => 1,
        OutPoint::Deposit(_) => 2,
    }
}

/// The 32 bytes in an outpoint.
pub open spec fn outpoint_hash(outpoint: OutPoint) -> [u8; 32] {
    match outpoint {
        OutPoint::Regular { txid, .. } => txid.0,
        OutPoint::Coinbase { merkle_root, .. } => merkle_root.0,
        OutPoint::Deposit(main) => main.txid,
    }
}

/// The index in an outpoint.
pub open spec fn outpoint_vout(outpoint: OutPoint) -> u32 {
    match outpoint {
        OutPoint::Regular { vout, .. } => vout,
        OutPoint::Coinbase { vout, .. } => vout,
        OutPoint::Deposit(main) => main.vout,
    }
}

impl OutPoint {
    /// The rank of this outpoint's kind.
    pub fn tag(&self) -> (tag: u8)
        ensures
            tag == outpoint_tag(*self),
    {
        match self {
            OutPoint::Regular { .. } => 0,
            OutPoint::Coinbase { .. } => 1,
            OutPoint::Deposit(_) => 2,
        }
    }

    /// The 32 bytes in this outpoint.
    pub fn hash_bytes(&self) -> (hash: [u8; 32])
        ensures
            hash == outpoint_hash(*self),
    {
        match self {
            OutPoint::Regular { txid, .. } => txid.0,
            OutPoint::Coinbase { merkle_root, .. } => merkle_root.0,
            OutPoint::Deposit(main) => main.txid,
        }
    }

    /// The index in this outpoint.
    pub fn vout(&self) -> (vout: u32)
        ensures
            vout == outpoint_vout(*self),
    {
        match self {
            OutPoint::Regular { vout, .. } => *vout,
            OutPoint::Coinbase { vout, .. } => *vout,
            OutPoint::Deposit(main) => main.vout,
        }
    }
}

/// Outpoints are ordered by their kind, then by their bytes, then by their index.
impl Key for OutPoint {
    open spec fn code(key: OutPoint) -> Seq<u64> {
        seq![outpoint_tag(key) as u64] + bytes_code(outpoint_hash(key)@) + seq![
            outpoint_vout(key) as u64,
        ]
    }

    proof fn lemma_code_injective(a: OutPoint, b: OutPoint) {
        let x = Self::code(a);
        let y = Self::code(b);
        let p = outpoint_hash(a);
        let q = outpoint_hash(b);
        assert(x[0] == outpoint_tag(a) as u64);
        assert(y[0] == outpoint_tag(b) as u64);
        assert(x[33] == outpoint_vout(a) as u64);
        assert(y[33] == outpoint_vout(b) as u64);
        assert forall|i: int| 0 <= i < 32 implies p[i] == q[i] by {
            assert(x[i + 1] == p[i] as u64);
            assert(y[i + 1] == q[i] as u64);
        }
        assert(p =~= q);
    }

    fn code_len(&self) -> (n: usize) {
        34
    }

    fn code_at(&self, i: usize) -> (c: u64) {
        if i == 0 {
            self.tag() as u64
        } else if i < 33 {
            let hash = self.hash_bytes();
            hash[i - 1] as u64
        } else {
            self.vout() as u64
        }
    }
}

/// Bitcoin, in satoshi.
#[derive(Clone, Copy, Debug, PartialEq, Eq)]
pub struct BitcoinOutputContent(pub u64);

/// A request to withdraw to the mainchain. The value is paid to the address, the fee to the
/// miners, both in satoshi.
#[derive(Debug, PartialEq, Eq)]
pub struct WithdrawalOutputContent {
    pub value: u64,
    pub main_fee: u64,
    pub main_address: MainAddress,
}

/// What an output holds.
#[derive(Debug, PartialEq, Eq)]
pub enum FilledOutputContent {
    Bitcoin(BitcoinOutputContent),
    BitcoinWithdrawal(WithdrawalOutputContent),
    /// Content that the peg carries along and does not read, in its encoded form.
    Other(Vec<u8>),
}

/// An output of the sidechain.
#[derive(Debug, PartialEq, Eq)]
pub struct FilledOutput {
    pub address: Address,
    pub content: FilledOutputContent,
    pub memo: Vec<u8>,
}

/// An output with where it was spent.
#[derive(Debug, PartialEq, Eq)]
pub struct SpentOutput {
    pub output: FilledOutput,
    pub inpoint: InPoint,
}

/// What a `WithdrawalOutputContent` holds.
#[verifier::ext_equal]
pub struct WithdrawalView {
    pub value: u64,
    pub main_fee: u64,
    pub main_address: MainAddressView,
}

/// What a `FilledOutputContent` holds.
#[verifier::ext_equal]
pub enum ContentView {
    Bitcoin(BitcoinOutputContent),
    BitcoinWithdrawal(WithdrawalView),
    Other(Seq<u8>),
}

/// What a `FilledOutput` holds.
#[verifier::ext_equal]
pub struct OutputView {
    pub address: Address,
    pub content: ContentView,
    pub memo: Seq<u8>,
}

/// What a `SpentOutput` holds.
#[verifier::ext_equal]
pub struct SpentView {
    pub output: OutputView,
    pub inpoint: InPoint,
}

impl View for WithdrawalOutputContent {
    type V = WithdrawalView;

    open spec fn view(&self) -> WithdrawalView {
        WithdrawalView {
            value: self.value,
            main_fee: self.main_fee,
            main_address: self.main_address@,
        }
    }
}

impl View for FilledOutputContent {
    type V = ContentView;

    open spec fn view(&self) -> ContentView {
        match *self {
            FilledOutputContent::Bitcoin(content) => ContentView::Bitcoin(content),
            FilledOutputContent::BitcoinWithdrawal(content) => ContentView::BitcoinWithdrawal(
                content@,
            ),
            FilledOutputContent::Other(bytes) => ContentView::Other(bytes@),
        }
    }
}

impl View for FilledOutput {
    type V = OutputView;

    open spec fn view(&self) -> OutputView {
        OutputView { address: self.address, content: self.content@, memo: self.memo@ }
    }
}

impl View for SpentOutput {
    type V = SpentView;

    open spec fn view(&self) -> SpentView {
        SpentView { output: self.output@, inpoint: self.inpoint }
    }
}

impl Duplicate for FilledOutputContent {
    fn duplicate(&self) -> (copy: FilledOutputContent) {
        match self {
            FilledOutputContent::Bitcoin(content) => FilledOutputContent::Bitcoin(*content),
            FilledOutputContent::BitcoinWithdrawal(content) => {
                FilledOutputContent::BitcoinWithdrawal(
                    WithdrawalOutputContent {
                        value: content.value,
                        main_fee: content.main_fee,
                        main_address: content.main_address.duplicate(),
                    },
                )
            },
            FilledOutputContent::Other(bytes) => {
                FilledOutputContent::Other(duplicate_bytes(bytes))
            },
        }
    }
}

impl Duplicate for FilledOutput {
    fn duplicate(&self) -> (copy: FilledOutput) {
        FilledOutput {
            address: self.address,
            content: self.content.duplicate(),
            memo: duplicate_bytes(&self.memo),
        }
    }
}

impl Duplicate for SpentOutput {
    fn duplicate(&self) -> (copy: SpentOutput) {
        SpentOutput { output: self.output.duplicate(), inpoint: self.inpoint }
    }
}

} // verus!
