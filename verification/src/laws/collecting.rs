//! What a bundle takes and pays.

use crate::address::MainAddressView;
use crate::bundle::{transaction_weight, BundleView, MAX_STANDARD_TX_WEIGHT};
use crate::collect::{
    admitted, asks_for, claim_for, claims, collectable, collected, fee_of, fees, overflows, payouts,
    ranking, request, requests_for, requests_to, value_of, Claim, ClaimView, MAX_BUNDLE_OUTPUTS,
};
use crate::error::Error;
use crate::order::{before, lemma_before_asymmetric, Key};
use crate::output::{OutPoint, OutputView};
use crate::sum::{
    lemma_sum_congruent, lemma_sum_empty, lemma_sum_monotone, lemma_sum_union, sum_over,
};
use crate::table::{in_order, lemma_in_order};
use vstd::prelude::*;

verus! {

/// Claims are made by outputs, so there are finitely many.
proof fn lemma_claims_finite(utxos: Map<OutPoint, OutputView>)
    requires
        utxos.dom().finite(),
    ensures
        claims(utxos).finite(),
{
    let f = |o: OutPoint| claim_for(utxos, request(utxos[o])->0.main_address);
    utxos.dom().lemma_map_finite(f);
    assert forall|c: ClaimView| #[trigger] claims(utxos).contains(c) implies utxos.dom().map(
        f,
    ).contains(c) by {
        let o = choose|o: OutPoint| #[trigger] requests_to(utxos, c.main_address).contains(o);
        assert(f(o) == c);
        assert(utxos.dom().contains(o));
    }
    vstd::set_lib::lemma_set_subset_finite(utxos.dom().map(f), claims(utxos));
}

/// The ranking holds every claim once, the greater before the less.
pub proof fn lemma_ranking(utxos: Map<OutPoint, OutputView>)
    requires
        utxos.dom().finite(),
    ensures
        ranking(utxos).len() == claims(utxos).len(),
        forall|c: ClaimView| #[trigger] claims(utxos).contains(c) <==> ranking(utxos).contains(c),
        forall|i: int, j: int|
            0 <= i < j < ranking(utxos).len() ==> before::<Claim>(
                #[trigger] ranking(utxos)[j],
                #[trigger] ranking(utxos)[i],
            ),
{
    lemma_claims_finite(utxos);
    lemma_in_order::<Claim>(claims(utxos));
    let keys = in_order::<Claim>(claims(utxos));
    let order = ranking(utxos);
    let n = keys.len();
    assert(forall|i: int| 0 <= i < n ==> order[i] == keys[n - 1 - i]);
    assert forall|c: ClaimView| #[trigger] claims(utxos).contains(c) <==> order.contains(c) by {
        if keys.contains(c) {
            assert(order[n - 1 - keys.index_of(c)] == c);
        }
        if order.contains(c) {
            let i = order.index_of(c);
            assert(keys[n - 1 - i] == c);
        }
    }
}

/// What the claims that a bundle takes are.
pub proof fn lemma_admitted(utxos: Map<OutPoint, OutputView>)
    requires
        utxos.dom().finite(),
    ensures
        admitted(utxos).len() == if claims(utxos).len() <= MAX_BUNDLE_OUTPUTS {
            claims(utxos).len() as int
        } else {
            MAX_BUNDLE_OUTPUTS + 1
        },
        forall|i: int|
            0 <= i < admitted(utxos).len() ==> #[trigger] admitted(utxos)[i] == ranking(utxos)[i],
        forall|i: int|
            0 <= i < admitted(utxos).len() ==> claims(utxos).contains(
                #[trigger] admitted(utxos)[i],
            ),
        forall|i: int, j: int|
            0 <= i < j < admitted(utxos).len() ==> (#[trigger] admitted(utxos)[i]).main_address
                != (#[trigger] admitted(utxos)[j]).main_address,
{
    lemma_ranking(utxos);
    let order = ranking(utxos);
    let taken = admitted(utxos);
    assert forall|i: int| 0 <= i < taken.len() implies claims(utxos).contains(
        #[trigger] taken[i],
    ) by {
        assert(taken[i] == order[i]);
        assert(order.contains(order[i]));
    }
    assert forall|i: int, j: int| 0 <= i < j < taken.len() implies (
    #[trigger] taken[i]).main_address != (#[trigger] taken[j]).main_address by {
        assert(taken[i] == order[i] && taken[j] == order[j]);
        lemma_before_asymmetric::<Claim>(order[j], order[i]);
        assert(taken[i] == claim_for(utxos, taken[i].main_address));
        assert(taken[j] == claim_for(utxos, taken[j].main_address));
    }
}

/// A bundle has a payout for each address that something is asked for, up to one more than
/// `MAX_BUNDLE_OUTPUTS` of them, and is never too heavy to be relayed.
pub proof fn law_bundle_size(
    utxos: Map<OutPoint, OutputView>,
    block_height: u32,
    bundle: BundleView,
)
    requires
        utxos.dom().finite(),
        collected(utxos, block_height) == Ok::<_, Error>(Some(bundle)),
    ensures
        bundle.tx.outputs.len() - 2 == if claims(utxos).len() <= MAX_BUNDLE_OUTPUTS {
            claims(utxos).len() as int
        } else {
            MAX_BUNDLE_OUTPUTS + 1
        },
        transaction_weight(bundle.tx.outputs) <= MAX_STANDARD_TX_WEIGHT,
{
    lemma_admitted(utxos);
}

/// A claim that a bundle does not take is less than each that it takes, and offers no more fees.
pub proof fn law_greatest_claims_first(
    utxos: Map<OutPoint, OutputView>,
    taken: ClaimView,
    left: ClaimView,
)
    requires
        utxos.dom().finite(),
        admitted(utxos).contains(taken),
        claims(utxos).contains(left),
        !admitted(utxos).contains(left),
    ensures
        before::<Claim>(left, taken),
        left.main_fee <= taken.main_fee,
{
    lemma_ranking(utxos);
    lemma_admitted(utxos);
    let order = ranking(utxos);
    let chosen = admitted(utxos);
    let i = chosen.index_of(taken);
    let j = order.index_of(left);
    assert(chosen[i] == taken && order[j] == left);
    assert(chosen[i] == order[i]);
    if j < chosen.len() {
        assert(chosen[j] == left);
    }
    assert(before::<Claim>(order[j], order[i]));
    assert(Claim::code(left)[0] == left.main_fee);
    assert(Claim::code(taken)[0] == taken.main_fee);
}

/// A bundle spends nothing but unspent outputs that ask for one of the claims that it takes, each
/// as it is, and all of these.
pub proof fn law_bundle_spends_requests(
    utxos: Map<OutPoint, OutputView>,
    block_height: u32,
    bundle: BundleView,
)
    requires
        utxos.dom().finite(),
        collected(utxos, block_height) == Ok::<_, Error>(Some(bundle)),
    ensures
        bundle.spend_utxos.submap_of(utxos),
        forall|o: OutPoint| #[trigger]
            bundle.spend_utxos.contains_key(o) <==> utxos.contains_key(o) && request(
                utxos[o],
            ) is Some && admitted(utxos).contains(
                claim_for(utxos, request(utxos[o])->0.main_address),
            ),
{
    lemma_admitted(utxos);
    let taken = admitted(utxos);
    assert forall|o: OutPoint| #[trigger] bundle.spend_utxos.contains_key(o) <==> (
    utxos.contains_key(o) && request(utxos[o]) is Some && taken.contains(
        claim_for(utxos, request(utxos[o])->0.main_address),
    )) by {
        let address = request(utxos[o])->0.main_address;
        if asks_for(utxos, taken, o) {
            let i = choose|i: int|
                0 <= i < taken.len() && #[trigger] requests_to(
                    utxos,
                    taken[i].main_address,
                ).contains(o);
            assert(claims(utxos).contains(taken[i]));
            assert(taken[i] == claim_for(utxos, address));
        }
        if utxos.contains_key(o) && request(utxos[o]) is Some && taken.contains(
            claim_for(utxos, address),
        ) {
            let i = taken.index_of(claim_for(utxos, address));
            assert(requests_to(utxos, taken[i].main_address).contains(o));
        }
    }
}

/// If there are not too many addresses, a bundle spends every output that asks to withdraw.
pub proof fn law_bundle_spends_all(
    utxos: Map<OutPoint, OutputView>,
    block_height: u32,
    bundle: BundleView,
)
    requires
        utxos.dom().finite(),
        collected(utxos, block_height) == Ok::<_, Error>(Some(bundle)),
        claims(utxos).len() <= MAX_BUNDLE_OUTPUTS + 1,
    ensures
        forall|o: OutPoint| #[trigger]
            bundle.spend_utxos.contains_key(o) <==> utxos.contains_key(o) && request(
                utxos[o],
            ) is Some,
{
    lemma_ranking(utxos);
    lemma_admitted(utxos);
    law_bundle_spends_requests(utxos, block_height, bundle);
    let taken = admitted(utxos);
    assert(taken =~= ranking(utxos));
    assert forall|o: OutPoint| #[trigger]
        utxos.contains_key(o) && request(utxos[o]) is Some implies bundle.spend_utxos.contains_key(
        o,
    ) by {
        let address = request(utxos[o])->0.main_address;
        assert(requests_to(utxos, address).contains(o));
        assert(claims(utxos).contains(claim_for(utxos, address)));
    }
}

/// The value of outputs of a transaction.
pub open spec fn total_value(outputs: Seq<(u64, Seq<u8>)>) -> int
    decreases outputs.len(),
{
    if outputs.len() == 0 {
        0
    } else {
        total_value(outputs.drop_last()) + outputs.last().0
    }
}

proof fn lemma_total_value_split(a: Seq<(u64, Seq<u8>)>, b: Seq<(u64, Seq<u8>)>)
    ensures
        total_value(a + b) == total_value(a) + total_value(b),
    decreases b.len(),
{
    if b.len() == 0 {
        assert(a + b =~= a);
    } else {
        lemma_total_value_split(a, b.drop_last());
        assert((a + b).drop_last() =~= a + b.drop_last());
    }
}

/// The outputs that ask for the first of the claims add up to these.
pub proof fn lemma_claims_add_up(utxos: Map<OutPoint, OutputView>, n: int)
    requires
        utxos.dom().finite(),
        forall|a: MainAddressView| !#[trigger] overflows(utxos, a),
        0 <= n <= admitted(utxos).len(),
    ensures
        ({
            let first = admitted(utxos).take(n);
            let keys = requests_for(utxos, first).dom();
            &&& keys.finite()
            &&& total_value(payouts(first)) == sum_over(keys, value_of(utxos))
            &&& fees(first) == sum_over(keys, fee_of(utxos))
        }),
    decreases n,
{
    let first = admitted(utxos).take(n);
    let keys = requests_for(utxos, first).dom();
    assert(keys =~= keys.intersect(utxos.dom()));
    if n == 0 {
        assert(keys =~= Set::<OutPoint>::empty());
        lemma_sum_empty::<OutPoint>(value_of(utxos));
        lemma_sum_empty::<OutPoint>(fee_of(utxos));
    } else {
        let init = admitted(utxos).take(n - 1);
        let last = admitted(utxos)[n - 1];
        let before_last = requests_for(utxos, init).dom();
        let more = requests_to(utxos, last.main_address);
        lemma_claims_add_up(utxos, n - 1);
        lemma_admitted(utxos);
        assert(first.drop_last() =~= init);
        assert(first.last() == last);
        assert(payouts(first).drop_last() =~= payouts(init));
        assert(more =~= more.intersect(utxos.dom()));
        assert forall|o: OutPoint| #[trigger] keys.contains(o) <==> before_last.contains(o)
            || more.contains(o) by {
            if before_last.contains(o) {
                let i = choose|i: int|
                    0 <= i < init.len() && #[trigger] requests_to(
                        utxos,
                        init[i].main_address,
                    ).contains(o);
                assert(requests_to(utxos, first[i].main_address).contains(o));
            }
            if more.contains(o) {
                assert(requests_to(utxos, first[n - 1].main_address).contains(o));
            }
            if keys.contains(o) {
                let i = choose|i: int|
                    0 <= i < first.len() && #[trigger] requests_to(
                        utxos,
                        first[i].main_address,
                    ).contains(o);
                if i < n - 1 {
                    assert(requests_to(utxos, init[i].main_address).contains(o));
                }
            }
        }
        assert(keys =~= before_last.union(more));
        assert forall|o: OutPoint| !(before_last.contains(o) && more.contains(o)) by {
            if before_last.contains(o) && more.contains(o) {
                let i = choose|i: int|
                    0 <= i < init.len() && #[trigger] requests_to(
                        utxos,
                        init[i].main_address,
                    ).contains(o);
                assert(init[i] == admitted(utxos)[i]);
            }
        }
        lemma_sum_union(before_last, more, value_of(utxos));
        lemma_sum_union(before_last, more, fee_of(utxos));
        lemma_sum_empty::<OutPoint>(value_of(utxos));
        lemma_sum_empty::<OutPoint>(fee_of(utxos));
        lemma_sum_monotone(Set::<OutPoint>::empty(), more, value_of(utxos));
        lemma_sum_monotone(Set::<OutPoint>::empty(), more, fee_of(utxos));
        assert(!overflows(utxos, last.main_address));
        assert(last == claim_for(utxos, last.main_address));
    }
}

/// A bundle pays on the mainchain what the outputs that it spends ask to withdraw, and carries the
/// fees that they offer.
pub proof fn law_bundle_balanced(
    utxos: Map<OutPoint, OutputView>,
    block_height: u32,
    bundle: BundleView,
)
    requires
        utxos.dom().finite(),
        collectable(utxos),
        collected(utxos, block_height) == Ok::<_, Error>(Some(bundle)),
    ensures
        total_value(bundle.tx.outputs) == sum_over(bundle.spend_utxos.dom(), value_of(utxos)),
        fees(admitted(utxos)) == sum_over(bundle.spend_utxos.dom(), fee_of(utxos)),
        sum_over(bundle.spend_utxos.dom(), fee_of(utxos)) <= u64::MAX,
{
    let taken = admitted(utxos);
    lemma_claims_add_up(utxos, taken.len() as int);
    assert(taken.take(taken.len() as int) =~= taken);
    let fixed = bundle.tx.outputs.take(2);
    assert(bundle.tx.outputs =~= fixed + payouts(taken));
    lemma_total_value_split(fixed, payouts(taken));
    assert(fixed.drop_last() =~= seq![fixed[0]]);
    assert(seq![fixed[0]].drop_last() =~= Seq::empty());
    assert(total_value(Seq::empty()) == 0);
    assert(total_value(seq![fixed[0]]) == 0);
}

/// Whether two sets of unspent outputs hold the same outputs that ask to withdraw.
pub open spec fn same_requests(
    utxos: Map<OutPoint, OutputView>,
    others: Map<OutPoint, OutputView>,
) -> bool {
    forall|o: OutPoint|
        #![trigger utxos.contains_key(o)]
        #![trigger others.contains_key(o)]
        (utxos.contains_key(o) && request(utxos[o]) is Some || others.contains_key(o) && request(
            others[o],
        ) is Some) ==> utxos.contains_key(o) && others.contains_key(o) && utxos[o] == others[o]
}

/// Outputs that do not ask to withdraw have no influence on what is collected, nor on whether it
/// can be.
pub proof fn law_other_outputs_ignored(
    utxos: Map<OutPoint, OutputView>,
    others: Map<OutPoint, OutputView>,
    block_height: u32,
)
    requires
        utxos.dom().finite(),
        others.dom().finite(),
        same_requests(utxos, others),
    ensures
        collected(utxos, block_height) == collected(others, block_height),
        collectable(utxos) == collectable(others),
{
    assert forall|a: MainAddressView| #[trigger] requests_to(utxos, a) == requests_to(
        others,
        a,
    ) by {
        assert(requests_to(utxos, a) =~= requests_to(others, a));
    }
    assert forall|a: MainAddressView| #[trigger] claim_for(utxos, a) == claim_for(others, a)
        && overflows(utxos, a) == overflows(others, a) by {
        let keys = requests_to(utxos, a);
        assert(keys == requests_to(others, a));
        assert(keys =~= keys.intersect(utxos.dom()));
        assert forall|o: OutPoint| #[trigger] keys.contains(o) implies value_of(utxos)(o)
            == value_of(others)(o) && fee_of(utxos)(o) == fee_of(others)(o) by {
            assert(utxos.contains_key(o));
        }
        lemma_sum_congruent(keys, value_of(utxos), value_of(others));
        lemma_sum_congruent(keys, fee_of(utxos), fee_of(others));
    }
    assert forall|a: MainAddressView| #[trigger] overflows(utxos, a) == overflows(others, a) by {
        assert(claim_for(utxos, a) == claim_for(others, a));
    }
    assert(claims(utxos) =~= claims(others)) by {
        assert forall|c: ClaimView| claims(utxos).contains(c) == claims(others).contains(c) by {
            assert(claim_for(utxos, c.main_address) == claim_for(others, c.main_address));
            assert(requests_to(utxos, c.main_address) == requests_to(others, c.main_address));
        }
    }
    let taken = admitted(utxos);
    assert(taken == admitted(others));
    assert forall|o: OutPoint| #[trigger]
        asks_for(utxos, taken, o) == asks_for(others, taken, o) by {
        if asks_for(utxos, taken, o) {
            let i = choose|i: int|
                0 <= i < taken.len() && #[trigger] requests_to(
                    utxos,
                    taken[i].main_address,
                ).contains(o);
            assert(requests_to(others, taken[i].main_address).contains(o));
        }
        if asks_for(others, taken, o) {
            let i = choose|i: int|
                0 <= i < taken.len() && #[trigger] requests_to(
                    others,
                    taken[i].main_address,
                ).contains(o);
            assert(requests_to(utxos, taken[i].main_address) == requests_to(
                others,
                taken[i].main_address,
            ));
        }
    }
    assert(requests_for(utxos, taken) =~= requests_for(others, taken));
    if exists|a: MainAddressView| #[trigger] overflows(others, a) {
        let a = choose|a: MainAddressView| #[trigger] overflows(others, a);
        assert(overflows(utxos, a));
    }
}

} // verus!
