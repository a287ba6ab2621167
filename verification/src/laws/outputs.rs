//! What spending outputs means, and which of them come first.

use crate::order::{before, lemma_before_asymmetric, lemma_before_total, lemma_before_transitive};
use crate::output::{InPoint, M6id, OutPoint, OutputView};
use crate::state::{
    first_absent, keys_after, keys_before, last_absent, last_present, lemma_first_absent_exists,
    lemma_last_absent_exists, spent, unspent, StateView,
};
use vstd::prelude::*;

verus! {

/// Outputs that a bundle spends are no longer unspent, and are spent as the bundle lists them and
/// by the bundle. Nothing else changes.
pub proof fn law_spent(
    s: StateView,
    outputs: Map<OutPoint, OutputView>,
    keys: Set<OutPoint>,
    m6id: M6id,
    o: OutPoint,
)
    requires
        keys.subset_of(outputs.dom()),
    ensures
        ({
            let after = spent(s, outputs, keys, m6id);
            &&& keys.contains(o) ==> {
                &&& !after.utxos.contains_key(o)
                &&& after.stxos.contains_key(o)
                &&& after.stxos[o].output == outputs[o]
                &&& after.stxos[o].inpoint == InPoint::Withdrawal { m6id }
            }
            &&& !keys.contains(o) ==> {
                &&& after.utxos.contains_key(o) <==> s.utxos.contains_key(o)
                &&& after.stxos.contains_key(o) <==> s.stxos.contains_key(o)
                &&& s.utxos.contains_key(o) ==> after.utxos[o] == s.utxos[o]
                &&& s.stxos.contains_key(o) ==> after.stxos[o] == s.stxos[o]
            }
            &&& after == StateView { utxos: after.utxos, stxos: after.stxos, ..s }
        }),
{
}

/// Outputs that are made unspent are unspent as they are listed, and those that are dropped are no
/// longer spent. Nothing else changes.
pub proof fn law_unspent(
    s: StateView,
    outputs: Map<OutPoint, OutputView>,
    put: Set<OutPoint>,
    dropped: Set<OutPoint>,
    o: OutPoint,
)
    requires
        put.subset_of(outputs.dom()),
    ensures
        ({
            let after = unspent(s, outputs, put, dropped);
            &&& put.contains(o) ==> after.utxos.contains_key(o) && after.utxos[o] == outputs[o]
            &&& !put.contains(o) ==> {
                &&& after.utxos.contains_key(o) <==> s.utxos.contains_key(o)
                &&& s.utxos.contains_key(o) ==> after.utxos[o] == s.utxos[o]
            }
            &&& dropped.contains(o) ==> !after.stxos.contains_key(o)
            &&& !dropped.contains(o) ==> {
                &&& after.stxos.contains_key(o) <==> s.stxos.contains_key(o)
                &&& s.stxos.contains_key(o) ==> after.stxos[o] == s.stxos[o]
            }
            &&& after == StateView { utxos: after.utxos, stxos: after.stxos, ..s }
        }),
{
}

/// Spending unspent outputs as they are, and making them unspent again, changes nothing, if they
/// were not spent before.
pub proof fn law_unspent_again(s: StateView, outputs: Map<OutPoint, OutputView>, m6id: M6id)
    requires
        outputs.submap_of(s.utxos),
        outputs.dom().disjoint(s.stxos.dom()),
    ensures
        unspent(spent(s, outputs, outputs.dom(), m6id), outputs, outputs.dom(), outputs.dom()) == s,
{
    let after = unspent(
        spent(s, outputs, outputs.dom(), m6id),
        outputs,
        outputs.dom(),
        outputs.dom(),
    );
    assert(after.utxos =~= s.utxos);
    assert(after.stxos =~= s.stxos);
}

/// The first and the last outpoints that are absent: they are absent, and those before the first,
/// and those after the last, are present.
pub proof fn law_absent(keys: Set<OutPoint>, present: Set<OutPoint>, o: OutPoint)
    requires
        keys.finite(),
        !keys.subset_of(present),
    ensures
        ({
            let first = first_absent(keys, present);
            let last = last_absent(keys, present);
            &&& keys.contains(first) && !present.contains(first)
            &&& keys.contains(last) && !present.contains(last)
            &&& keys.contains(o) && before::<OutPoint>(o, first) ==> present.contains(o)
            &&& keys.contains(o) && before::<OutPoint>(last, o) ==> present.contains(o)
            &&& keys_before(keys, first).contains(o) <==> keys.contains(o) && before::<OutPoint>(
                o,
                first,
            )
            &&& keys_after(keys, last).contains(o) <==> keys.contains(o) && before::<OutPoint>(
                last,
                o,
            )
        }),
{
    lemma_first_absent_exists(keys, present);
    lemma_last_absent_exists(keys, present);
    let first = first_absent(keys, present);
    let last = last_absent(keys, present);
    if keys.contains(o) && before::<OutPoint>(o, first) {
        assert(keys_before(keys, first).contains(o));
    }
    if keys.contains(o) && before::<OutPoint>(last, o) {
        assert(keys_after(keys, last).contains(o));
    }
}

/// The last outpoint that is present: it is present, and those after it are not.
pub proof fn law_last_present(keys: Set<OutPoint>, present: Set<OutPoint>, o: OutPoint)
    requires
        keys.finite(),
        !keys.disjoint(present),
    ensures
        ({
            let last = last_present(keys, present);
            &&& keys.contains(last) && present.contains(last)
            &&& keys.contains(o) && before::<OutPoint>(last, o) ==> !present.contains(o)
        }),
{
    let p = choose|p: OutPoint| keys.contains(p) && present.contains(p);
    assert(!present.complement().contains(p));
    law_absent(keys, present.complement(), o);
}

/// Outpoints are in a total order.
pub proof fn law_outpoints_in_order(a: OutPoint, b: OutPoint, c: OutPoint)
    ensures
        !before::<OutPoint>(a, a),
        before::<OutPoint>(a, b) ==> !before::<OutPoint>(b, a),
        before::<OutPoint>(a, b) && before::<OutPoint>(b, c) ==> before::<OutPoint>(a, c),
        a == b || before::<OutPoint>(a, b) || before::<OutPoint>(b, a),
{
    lemma_before_asymmetric::<OutPoint>(a, a);
    lemma_before_asymmetric::<OutPoint>(a, b);
    if before::<OutPoint>(a, b) && before::<OutPoint>(b, c) {
        lemma_before_transitive::<OutPoint>(a, b, c);
    }
    lemma_before_total::<OutPoint>(a, b);
}

} // verus!
