//! How keys are ordered.

use crate::address::{KnownHrp, MainAddress, MainAddressView, NetworkKind};
use crate::order::{before, lex_before, Key};
use crate::output::{outpoint_hash, outpoint_tag, outpoint_vout, OutPoint};
use vstd::prelude::*;

verus! {

/// The parts of an outpoint.
pub proof fn law_outpoint_parts(o: OutPoint)
    ensures
        match o {
            OutPoint::Regular { txid, vout } => {
                &&& outpoint_tag(o) == 0
                &&& outpoint_hash(o) == txid.0
                &&& outpoint_vout(o) == vout
            },
            OutPoint::Coinbase { merkle_root, vout } => {
                &&& outpoint_tag(o) == 1
                &&& outpoint_hash(o) == merkle_root.0
                &&& outpoint_vout(o) == vout
            },
            OutPoint::Deposit(main) => {
                &&& outpoint_tag(o) == 2
                &&& outpoint_hash(o) == main.txid
                &&& outpoint_vout(o) == main.vout
            },
        },
{
}

/// The first place where two sequences differ decides.
proof fn lemma_lex_decided(a: Seq<u64>, b: Seq<u64>, j: int)
    requires
        0 <= j < a.len(),
        j < b.len(),
        forall|k: int| 0 <= k < j ==> #[trigger] a[k] == b[k],
        a[j] < b[j],
    ensures
        lex_before(a, b),
    decreases j,
{
    if j > 0 {
        assert(a[0] == b[0]);
        let x = a.drop_first();
        let y = b.drop_first();
        assert forall|k: int| 0 <= k < j - 1 implies #[trigger] x[k] == y[k] by {
            assert(a[k + 1] == b[k + 1]);
        }
        lemma_lex_decided(x, y, j - 1);
    }
}

/// Outpoints are ordered by their kinds; among those of a kind, by the first of their 32 bytes that
/// differs; among those with the same bytes, by their index.
pub proof fn law_outpoint_order(a: OutPoint, b: OutPoint, j: int)
    ensures
        outpoint_tag(a) < outpoint_tag(b) ==> before::<OutPoint>(a, b),
        outpoint_tag(a) == outpoint_tag(b) && 0 <= j < 32 && (forall|k: int|
            0 <= k < j ==> #[trigger] outpoint_hash(a)@[k] == outpoint_hash(b)@[k])
            && outpoint_hash(a)@[j] < outpoint_hash(b)@[j] ==> before::<OutPoint>(a, b),
        outpoint_tag(a) == outpoint_tag(b) && outpoint_hash(a) == outpoint_hash(b)
            && outpoint_vout(a) < outpoint_vout(b) ==> before::<OutPoint>(a, b),
{
    let x = OutPoint::code(a);
    let y = OutPoint::code(b);
    assert(x[0] == outpoint_tag(a) as u64 && y[0] == outpoint_tag(b) as u64);
    assert forall|k: int| 0 <= k < 32 implies #[trigger] x[k + 1] == outpoint_hash(a)@[k] as u64
        && y[k + 1] == outpoint_hash(b)@[k] as u64 by {}
    assert(x[33] == outpoint_vout(a) as u64 && y[33] == outpoint_vout(b) as u64);
    if outpoint_tag(a) < outpoint_tag(b) {
        lemma_lex_decided(x, y, 0);
    } else if outpoint_tag(a) == outpoint_tag(b) {
        if outpoint_hash(a) == outpoint_hash(b) {
            if outpoint_vout(a) < outpoint_vout(b) {
                assert forall|k: int| 0 <= k < 33 implies #[trigger] x[k] == y[k] by {
                    if k > 0 {
                        assert(x[(k - 1) + 1] == outpoint_hash(a)@[k - 1] as u64);
                    }
                }
                lemma_lex_decided(x, y, 33);
            }
        } else if 0 <= j < 32 && (forall|k: int|
            0 <= k < j ==> #[trigger] outpoint_hash(a)@[k] == outpoint_hash(b)@[k])
            && outpoint_hash(a)@[j] < outpoint_hash(b)@[j] {
            assert forall|k: int| 0 <= k < j + 1 implies #[trigger] x[k] == y[k] by {
                if k > 0 {
                    assert(x[(k - 1) + 1] == outpoint_hash(a)@[k - 1] as u64);
                    assert(outpoint_hash(a)@[k - 1] == outpoint_hash(b)@[k - 1]);
                }
            }
            assert(x[j + 1] < y[j + 1]);
            lemma_lex_decided(x, y, j + 1);
        }
    }
}

/// Addresses are ordered by their kinds: key hashes, script hashes, witness programs.
pub proof fn law_address_kinds_order(a: MainAddressView, b: MainAddressView)
    ensures
        a is P2pkh && (b is P2sh || b is Segwit) ==> before::<MainAddress>(a, b),
        a is P2sh && b is Segwit ==> before::<MainAddress>(a, b),
{
    let x = MainAddress::code(a);
    let y = MainAddress::code(b);
    assert(x.len() > 0 && y.len() > 0);
    assert(x[0] == (match a {
        MainAddressView::P2pkh { .. } => 0u64,
        MainAddressView::P2sh { .. } => 1u64,
        MainAddressView::Segwit { .. } => 2u64,
    }));
    assert(y[0] == (match b {
        MainAddressView::P2pkh { .. } => 0u64,
        MainAddressView::P2sh { .. } => 1u64,
        MainAddressView::Segwit { .. } => 2u64,
    }));
}

/// Of two hashes in addresses of one kind, the first byte that differs decides. With the same hash,
/// that for the main network comes first.
pub proof fn law_address_hashes_order(
    a: [u8; 20],
    b: [u8; 20],
    network: NetworkKind,
    other: NetworkKind,
    j: int,
)
    ensures
        0 <= j < 20 && (forall|k: int| 0 <= k < j ==> #[trigger] a@[k] == b@[k]) && a@[j] < b@[j]
            ==> {
            &&& before::<MainAddress>(
                MainAddressView::P2pkh { hash: a, network },
                MainAddressView::P2pkh { hash: b, network: other },
            )
            &&& before::<MainAddress>(
                MainAddressView::P2sh { hash: a, network },
                MainAddressView::P2sh { hash: b, network: other },
            )
        },
        before::<MainAddress>(
            MainAddressView::P2pkh { hash: a, network: NetworkKind::Main },
            MainAddressView::P2pkh { hash: a, network: NetworkKind::Test },
        ),
        before::<MainAddress>(
            MainAddressView::P2sh { hash: a, network: NetworkKind::Main },
            MainAddressView::P2sh { hash: a, network: NetworkKind::Test },
        ),
{
    if 0 <= j < 20 && (forall|k: int| 0 <= k < j ==> #[trigger] a@[k] == b@[k]) && a@[j] < b@[j] {
        let x = MainAddress::code(MainAddressView::P2pkh { hash: a, network });
        let y = MainAddress::code(MainAddressView::P2pkh { hash: b, network: other });
        let v = MainAddress::code(MainAddressView::P2sh { hash: a, network });
        let w = MainAddress::code(MainAddressView::P2sh { hash: b, network: other });
        assert forall|k: int| 0 <= k < j + 1 implies #[trigger] x[k] == y[k] && v[k] == w[k] by {
            if k > 0 {
                assert(a@[k - 1] == b@[k - 1]);
            }
        }
        assert(forall|k: int| 0 <= k < j + 1 ==> x[k] == y[k] ==> #[trigger] v[k] == w[k]);
        lemma_lex_decided(x, y, j + 1);
        lemma_lex_decided(v, w, j + 1);
    }
    let x = MainAddress::code(MainAddressView::P2pkh { hash: a, network: NetworkKind::Main });
    let y = MainAddress::code(MainAddressView::P2pkh { hash: a, network: NetworkKind::Test });
    lemma_lex_decided(x, y, 21);
    let v = MainAddress::code(MainAddressView::P2sh { hash: a, network: NetworkKind::Main });
    let w = MainAddress::code(MainAddressView::P2sh { hash: a, network: NetworkKind::Test });
    lemma_lex_decided(v, w, 21);
}

/// Witness programs are ordered by their versions; with the same version, by their bytes, a program
/// that goes on coming after one that ends; with the same bytes, by what they are written with.
pub proof fn law_address_programs_order(
    version: u8,
    other_version: u8,
    a: Seq<u8>,
    b: Seq<u8>,
    hrp: KnownHrp,
    other_hrp: KnownHrp,
    j: int,
)
    ensures
        version < other_version ==> before::<MainAddress>(
            MainAddressView::Segwit { version, program: a, hrp },
            MainAddressView::Segwit { version: other_version, program: b, hrp: other_hrp },
        ),
        0 <= j <= a.len() && j < b.len() && (forall|k: int|
            0 <= k < j ==> #[trigger] a[k] == b[k]) && (j < a.len() ==> a[j] < b[j]) ==> before::<
            MainAddress,
        >(
            MainAddressView::Segwit { version, program: a, hrp },
            MainAddressView::Segwit { version, program: b, hrp: other_hrp },
        ),
        hrp is Mainnet && other_hrp !is Mainnet || hrp is Testnets && other_hrp is Regtest
            ==> before::<MainAddress>(
            MainAddressView::Segwit { version, program: a, hrp },
            MainAddressView::Segwit { version, program: a, hrp: other_hrp },
        ),
{
    let x = MainAddress::code(MainAddressView::Segwit { version, program: a, hrp });
    let y = MainAddress::code(
        MainAddressView::Segwit { version: other_version, program: b, hrp: other_hrp },
    );
    let z = MainAddress::code(MainAddressView::Segwit { version, program: b, hrp: other_hrp });
    let w = MainAddress::code(MainAddressView::Segwit { version, program: a, hrp: other_hrp });
    assert(x[0] == 2 && y[0] == 2 && z[0] == 2 && w[0] == 2);
    assert(x[1] == version && y[1] == other_version && z[1] == version && w[1] == version);
    if version < other_version {
        lemma_lex_decided(x, y, 1);
    }
    if 0 <= j <= a.len() && j < b.len() && (forall|k: int|
        0 <= k < j ==> #[trigger] a[k] == b[k]) && (j < a.len() ==> a[j] < b[j]) {
        assert forall|k: int| 0 <= k < j + 2 implies #[trigger] x[k] == z[k] by {
            if k > 1 {
                assert(a[k - 2] == b[k - 2]);
            }
        }
        assert(x[j + 2] < z[j + 2]);
        lemma_lex_decided(x, z, j + 2);
    }
    if hrp is Mainnet && other_hrp !is Mainnet || hrp is Testnets && other_hrp is Regtest {
        lemma_lex_decided(x, w, a.len() as int + 3);
    }
}

} // verus!
