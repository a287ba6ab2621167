//! Addresses on the mainchain.

use crate::order::{Duplicate, Key};
use vstd::prelude::*;

verus! {

/// A byte string as a part of a key's code.
pub open spec fn bytes_code(bytes: Seq<u8>) -> Seq<u64> {
    Seq::new(bytes.len(), |i: int| bytes[i] as u64)
}

/// Byte strings with one code are equal.
pub proof fn lemma_bytes_code_injective(a: Seq<u8>, b: Seq<u8>)
    requires
        bytes_code(a) == bytes_code(b),
    ensures
        a == b,
{
    assert(a.len() == bytes_code(a).len());
    assert(b.len() == bytes_code(b).len());
    assert forall|i: int| 0 <= i < a.len() implies a[i] == b[i] by {
        assert(bytes_code(a)[i] == a[i] as u64);
        assert(bytes_code(b)[i] == b[i] as u64);
    }
    assert(a =~= b);
}

/// The network that a legacy address is for.
#[derive(Clone, Copy, Debug, PartialEq, Eq, PartialOrd, Ord, Hash)]
pub enum NetworkKind {
    Main,
    Test,
}

/// The human-readable part that a segwit address is written with.
#[derive(Clone, Copy, Debug, PartialEq, Eq, PartialOrd, Ord, Hash)]
pub enum KnownHrp {
    Mainnet,
    Testnets,
    Regtest,
}

/// Whether a witness version and a program make a witness program: the version is at most 16, the
/// program has 2 to 40 bytes, and in version 0 it has 20 or 32.
pub open spec fn valid_witness_program(version: u8, program: Seq<u8>) -> bool {
    &&& version <= 16
    &&& 2 <= program.len() <= 40
    &&& version == 0 ==> program.len() == 20 || program.len() == 32
}

/// A witness program with its version.
#[derive(Debug, PartialEq, Eq, PartialOrd, Ord, Hash)]
pub struct WitnessProgram {
    version: u8,
    program: Vec<u8>,
}

impl WitnessProgram {
    #[verifier::type_invariant]
    spec fn valid(self) -> bool {
        valid_witness_program(self.version, self.program@)
    }

    /// The version.
    pub closed spec fn spec_version(self) -> u8 {
        self.version
    }

    /// The bytes of the program.
    pub closed spec fn spec_program(self) -> Seq<u8> {
        self.program@
    }

    /// Makes a witness program of a version and its bytes, if they make one.
    pub fn new(version: u8, program: Vec<u8>) -> (r: Option<WitnessProgram>)
        ensures
            match r {
                Some(w) => {
                    &&& valid_witness_program(version, program@)
                    &&& w.spec_version() == version
                    &&& w.spec_program() == program@
                },
                None => !valid_witness_program(version, program@),
            },
    {
        let n = program.len();
        if version <= 16 && 2 <= n && n <= 40 && (version != 0 || n == 20 || n == 32) {
            Some(WitnessProgram { version, program })
        } else {
            None
        }
    }

    /// The version.
    pub fn version(&self) -> (version: u8)
        ensures
            version == self.spec_version(),
            valid_witness_program(self.spec_version(), self.spec_program()),
    {
        proof {
            use_type_invariant(self);
        }
        self.version
    }

    /// The bytes of the program.
    pub fn program(&self) -> (program: &Vec<u8>)
        ensures
            program@ == self.spec_program(),
            valid_witness_program(self.spec_version(), self.spec_program()),
    {
        proof {
            use_type_invariant(self);
        }
        &self.program
    }
}

/// An address on the mainchain, not checked to be for a certain network.
#[derive(Debug, PartialEq, Eq, PartialOrd, Ord, Hash)]
pub enum MainAddress {
    P2pkh { hash: [u8; 20], network: NetworkKind },
    P2sh { hash: [u8; 20], network: NetworkKind },
    Segwit { program: WitnessProgram, hrp: KnownHrp },
}

/// What a `MainAddress` holds.
#[verifier::ext_equal]
pub enum MainAddressView {
    P2pkh { hash: [u8; 20], network: NetworkKind },
    P2sh { hash: [u8; 20], network: NetworkKind },
    Segwit { version: u8, program: Seq<u8>, hrp: KnownHrp },
}

impl View for MainAddress {
    type V = MainAddressView;

    open spec fn view(&self) -> MainAddressView {
        match *self {
            MainAddress::P2pkh { hash, network } => MainAddressView::P2pkh { hash, network },
            MainAddress::P2sh { hash, network } => MainAddressView::P2sh { hash, network },
            MainAddress::Segwit { program, hrp } => MainAddressView::Segwit {
                version: program.spec_version(),
                program: program.spec_program(),
                hrp,
            },
        }
    }
}

/// The output script that pays to an address.
pub open spec fn script_of(address: MainAddressView) -> Seq<u8> {
    match address {
        MainAddressView::P2pkh { hash, .. } => p2pkh_script_of(hash@),
        MainAddressView::P2sh { hash, .. } => p2sh_script_of(hash@),
        MainAddressView::Segwit { version, program, .. } => witness_script_of(version, program),
    }
}

/// `OP_DUP OP_HASH160`, a push of the key hash, `OP_EQUALVERIFY OP_CHECKSIG`.
pub open spec fn p2pkh_script_of(hash: Seq<u8>) -> Seq<u8> {
    seq![0x76u8, 0xa9u8, 0x14u8] + hash + seq![0x88u8, 0xacu8]
}

/// `OP_HASH160`, a push of the script hash, `OP_EQUAL`.
pub open spec fn p2sh_script_of(hash: Seq<u8>) -> Seq<u8> {
    seq![0xa9u8, 0x14u8] + hash + seq![0x87u8]
}

/// The version as a number opcode, and a push of the program.
pub open spec fn witness_script_of(version: u8, program: Seq<u8>) -> Seq<u8> {
    seq![if version == 0 { 0u8 } else { (0x50 + version) as u8 }, program.len() as u8] + program
}

/// Calls `bitcoin::ScriptBuf::new_p2pkh`. Claimed of it: the script has the five opcodes and the
/// hash that `p2pkh_script_of` lists.
#[verifier::external_body]
fn p2pkh_script(hash: &[u8; 20]) -> (script: Vec<u8>)
    ensures
        script@ == p2pkh_script_of(hash@),
{
    let hash = bitcoin::hashes::Hash::from_byte_array(*hash);
    bitcoin::ScriptBuf::new_p2pkh(&hash).into_bytes()
}

/// Calls `bitcoin::ScriptBuf::new_p2sh`. Claimed of it: the script has the opcodes and the hash
/// that `p2sh_script_of` lists.
#[verifier::external_body]
fn p2sh_script(hash: &[u8; 20]) -> (script: Vec<u8>)
    ensures
        script@ == p2sh_script_of(hash@),
{
    let hash = bitcoin::hashes::Hash::from_byte_array(*hash);
    bitcoin::ScriptBuf::new_p2sh(&hash).into_bytes()
}

/// Calls `bitcoin::ScriptBuf::new_witness_program`. Claimed of it: the script is the version's
/// opcode, which is 0 for version 0 and 0x50 more than the version for the others, and a push of
/// the program, whose length is the push's opcode.
#[verifier::external_body]
fn witness_script(version: u8, program: &Vec<u8>) -> (script: Vec<u8>)
    requires
        valid_witness_program(version, program@),
    ensures
        script@ == witness_script_of(version, program@),
{
    let version = bitcoin::WitnessVersion::try_from(version).unwrap();
    let program = bitcoin::WitnessProgram::new(version, program).unwrap();
    bitcoin::ScriptBuf::new_witness_program(&program).into_bytes()
}

/// The length of the longest script that pays to an address.
pub const MAX_SCRIPT_LEN: usize = 42;

impl MainAddress {
    /// The output script that pays to this address.
    pub fn script_pubkey(&self) -> (script: Vec<u8>)
        ensures
            script@ == script_of(self@),
            script@.len() <= MAX_SCRIPT_LEN,
    {
        match self {
            MainAddress::P2pkh { hash, .. } => p2pkh_script(hash),
            MainAddress::P2sh { hash, .. } => p2sh_script(hash),
            MainAddress::Segwit { program, .. } => {
                witness_script(program.version(), program.program())
            },
        }
    }
}

/// The rank of a network kind.
pub open spec fn network_rank(network: NetworkKind) -> u64 {
    match network {
        NetworkKind::Main => 0,
        NetworkKind::Test => 1,
    }
}

/// The rank of a human-readable part.
pub open spec fn hrp_rank(hrp: KnownHrp) -> u64 {
    match hrp {
        KnownHrp::Mainnet => 0,
        KnownHrp::Testnets => 1,
        KnownHrp::Regtest => 2,
    }
}

/// The bytes of a program, each raised by one, so that a zero can stand after the last of them.
pub open spec fn program_code(program: Seq<u8>) -> Seq<u64> {
    Seq::new(program.len(), |i: int| (program[i] + 1) as u64)
}

/// Addresses are ordered by their kind, then by their fields from the first to the last.
impl Key for MainAddress {
    open spec fn code(key: MainAddressView) -> Seq<u64> {
        match key {
            MainAddressView::P2pkh { hash, network } => seq![0u64] + bytes_code(hash@) + seq![
                network_rank(network),
            ],
            MainAddressView::P2sh { hash, network } => seq![1u64] + bytes_code(hash@) + seq![
                network_rank(network),
            ],
            MainAddressView::Segwit { version, program, hrp } => seq![2u64, version as u64]
                + program_code(program) + seq![0u64, hrp_rank(hrp)],
        }
    }

    proof fn lemma_code_injective(a: MainAddressView, b: MainAddressView) {
        let x = Self::code(a);
        let y = Self::code(b);
        assert(x[0] == (match a {
            MainAddressView::P2pkh { .. } => 0u64,
            MainAddressView::P2sh { .. } => 1u64,
            MainAddressView::Segwit { .. } => 2u64,
        }));
        assert(y[0] == (match b {
            MainAddressView::P2pkh { .. } => 0u64,
            MainAddressView::P2sh { .. } => 1u64,
            MainAddressView::Segwit { .. } => 2u64,
        }));
        match (a, b) {
            (
                MainAddressView::P2pkh { hash: ha, network: na },
                MainAddressView::P2pkh { hash: hb, network: nb },
            ) => {
                assert(x[21] == network_rank(na));
                assert(y[21] == network_rank(nb));
                assert forall|i: int| 0 <= i < 20 implies ha[i] == hb[i] by {
                    assert(x[i + 1] == ha[i] as u64);
                    assert(y[i + 1] == hb[i] as u64);
                }
                assert(ha =~= hb);
            },
            (
                MainAddressView::P2sh { hash: ha, network: na },
                MainAddressView::P2sh { hash: hb, network: nb },
            ) => {
                assert(x[21] == network_rank(na));
                assert(y[21] == network_rank(nb));
                assert forall|i: int| 0 <= i < 20 implies ha[i] == hb[i] by {
                    assert(x[i + 1] == ha[i] as u64);
                    assert(y[i + 1] == hb[i] as u64);
                }
                assert(ha =~= hb);
            },
            (
                MainAddressView::Segwit { version: va, program: pa, hrp: ra },
                MainAddressView::Segwit { version: vb, program: pb, hrp: rb },
            ) => {
                assert(x.len() == pa.len() + 4);
                assert(y.len() == pb.len() + 4);
                assert(x[1] == va as u64);
                assert(y[1] == vb as u64);
                assert(x[pa.len() as int + 3] == hrp_rank(ra));
                assert(y[pb.len() as int + 3] == hrp_rank(rb));
                assert forall|i: int| 0 <= i < pa.len() implies pa[i] == pb[i] by {
                    assert(x[i + 2] == (pa[i] + 1) as u64);
                    assert(y[i + 2] == (pb[i] + 1) as u64);
                }
                assert(pa =~= pb);
            },
            _ => {},
        }
    }

    fn code_len(&self) -> (n: usize)
        ensures
            n <= 44,
    {
        match self {
            MainAddress::P2pkh { .. } => 22,
            MainAddress::P2sh { .. } => 22,
            MainAddress::Segwit { program, .. } => program.program().len() + 4,
        }
    }

    fn code_at(&self, i: usize) -> (c: u64) {
        match self {
            MainAddress::P2pkh { hash, network } => {
                if i == 0 {
                    0
                } else if i < 21 {
                    hash[i - 1] as u64
                } else {
                    match network {
                        NetworkKind::Main => 0,
                        NetworkKind::Test => 1,
                    }
                }
            },
            MainAddress::P2sh { hash, network } => {
                if i == 0 {
                    1
                } else if i < 21 {
                    hash[i - 1] as u64
                } else {
                    match network {
                        NetworkKind::Main => 0,
                        NetworkKind::Test => 1,
                    }
                }
            },
            MainAddress::Segwit { program, hrp } => {
                let bytes = program.program();
                let n = bytes.len();
                if i == 0 {
                    2
                } else if i == 1 {
                    program.version() as u64
                } else if i < n + 2 {
                    bytes[i - 2] as u64 + 1
                } else if i == n + 2 {
                    0
                } else {
                    match hrp {
                        KnownHrp::Mainnet => 0,
                        KnownHrp::Testnets => 1,
                        KnownHrp::Regtest => 2,
                    }
                }
            },
        }
    }
}

/// Copies a byte string.
pub fn duplicate_bytes(bytes: &Vec<u8>) -> (copy: Vec<u8>)
    ensures
        copy@ == bytes@,
{
    let mut copy: Vec<u8> = Vec::new();
    let mut i: usize = 0;
    while i < bytes.len()
        invariant
            i <= bytes@.len(),
            copy@ == bytes@.take(i as int),
        decreases bytes@.len() - i,
    {
        copy.push(bytes[i]);
        assert(bytes@.take(i + 1) =~= bytes@.take(i as int).push(bytes@[i as int]));
        i = i + 1;
    }
    assert(bytes@.take(i as int) =~= bytes@);
    copy
}

impl Duplicate for MainAddress {
    fn duplicate(&self) -> (copy: MainAddress) {
        match self {
            MainAddress::P2pkh { hash, network } => {
                MainAddress::P2pkh { hash: *hash, network: *network }
            },
            MainAddress::P2sh { hash, network } => {
                MainAddress::P2sh { hash: *hash, network: *network }
            },
            MainAddress::Segwit { program, hrp } => {
                proof {
                    use_type_invariant(program);
                }
                let copied = WitnessProgram {
                    version: program.version,
                    program: duplicate_bytes(&program.program),
                };
                MainAddress::Segwit { program: copied, hrp: *hrp }
            },
        }
    }
}

} // verus!
