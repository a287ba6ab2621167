//! What becomes of the withdrawals that unspent outputs ask for.

use crate::address::{script_of, MainAddress, MainAddressView};
use crate::bundle::{
    bundle_of, bundle_weight, commitment_bytes, lemma_bundle_weight, sha256_digest, BundleView,
};
use crate::collect::{
    admitted, asks_for, claim_for, claims, collectable, collected, fee_of, fees, overflows,
    payouts, ranking, requests_for, requests_to, value_of, Claim, ClaimView, MAX_BUNDLE_OUTPUTS,
};
use crate::error::{AmountOverflowError, Error};
use crate::laws::carried::law_bundle_transaction;
use crate::laws::collecting::{lemma_admitted, lemma_claims_add_up, lemma_ranking};
use crate::order::{before, lemma_before_asymmetric, lex_before, Key};
use crate::output::{OutPoint, OutputView, WithdrawalView};
use crate::sum::{lemma_sum_congruent, lemma_sum_empty, lemma_sum_monotone, sum_over};
use vstd::prelude::*;

verus! {

/// Whether an unspent output holds a withdrawal.
pub open spec fn withdraws(utxos: Map<OutPoint, OutputView>, o: OutPoint) -> bool {
    utxos.contains_key(o) && utxos[o].content is BitcoinWithdrawal
}

/// The withdrawal that an output holds.
pub open spec fn withdrawal_at(utxos: Map<OutPoint, OutputView>, o: OutPoint) -> WithdrawalView {
    utxos[o].content->BitcoinWithdrawal_0
}

/// The unspent outputs that hold a withdrawal to an address, of whatever kind it is.
pub open spec fn withdrawing_to(
    utxos: Map<OutPoint, OutputView>,
    address: MainAddressView,
) -> Set<OutPoint> {
    Set::new(
        |o: OutPoint| withdraws(utxos, o) && withdrawal_at(utxos, o).main_address == address,
    )
}

/// The values of all withdrawals to an address, together.
pub open spec fn value_to(utxos: Map<OutPoint, OutputView>, address: MainAddressView) -> int {
    sum_over(withdrawing_to(utxos, address), |o: OutPoint| withdrawal_at(utxos, o).value as int)
}

/// The fees of all withdrawals to an address, together.
pub open spec fn fee_to(utxos: Map<OutPoint, OutputView>, address: MainAddressView) -> int {
    sum_over(withdrawing_to(utxos, address), |o: OutPoint| withdrawal_at(utxos, o).main_fee as int)
}

/// Whether the values, or the fees, of all withdrawals to an address do not fit in 64 bits
/// together.
pub open spec fn too_much_to(utxos: Map<OutPoint, OutputView>, address: MainAddressView) -> bool {
    value_to(utxos, address) > u64::MAX || fee_to(utxos, address) > u64::MAX
}

/// The fees of the withdrawals that outputs hold, together.
pub open spec fn fees_at(utxos: Map<OutPoint, OutputView>, outpoints: Set<OutPoint>) -> int {
    sum_over(outpoints, |o: OutPoint| withdrawal_at(utxos, o).main_fee as int)
}

/// What is asked for an address is what the withdrawals to it hold.
proof fn lemma_asked(utxos: Map<OutPoint, OutputView>, address: MainAddressView)
    requires
        utxos.dom().finite(),
    ensures
        requests_to(utxos, address) == withdrawing_to(utxos, address),
        withdrawing_to(utxos, address).finite(),
        sum_over(requests_to(utxos, address), value_of(utxos)) == value_to(utxos, address),
        sum_over(requests_to(utxos, address), fee_of(utxos)) == fee_to(utxos, address),
        value_to(utxos, address) >= 0,
        fee_to(utxos, address) >= 0,
{
    let keys = withdrawing_to(utxos, address);
    assert(requests_to(utxos, address) =~= keys);
    assert(keys =~= keys.intersect(utxos.dom()));
    lemma_sum_congruent(
        keys,
        value_of(utxos),
        |o: OutPoint| withdrawal_at(utxos, o).value as int,
    );
    lemma_sum_congruent(
        keys,
        fee_of(utxos),
        |o: OutPoint| withdrawal_at(utxos, o).main_fee as int,
    );
    lemma_sum_empty::<OutPoint>(value_of(utxos));
    lemma_sum_empty::<OutPoint>(fee_of(utxos));
    lemma_sum_monotone(Set::<OutPoint>::empty(), keys, value_of(utxos));
    lemma_sum_monotone(Set::<OutPoint>::empty(), keys, fee_of(utxos));
}

/// Collecting is refused for an overflow exactly if the values, or the fees, of all withdrawals to
/// some address do not fit in 64 bits together.
pub proof fn law_overflow_refused(utxos: Map<OutPoint, OutputView>, block_height: u32)
    requires
        utxos.dom().finite(),
    ensures
        collected(utxos, block_height) == Err::<Option<BundleView>, Error>(
            Error::AmountOverflow(AmountOverflowError),
        ) <==> exists|a: MainAddressView| #[trigger] too_much_to(utxos, a),
        (exists|a: MainAddressView| #[trigger] too_much_to(utxos, a)) ==> collectable(utxos),
        collected(utxos, block_height) matches Err(e) ==> e is AmountOverflow || e
            is BundleTooHeavy,
{
    if exists|a: MainAddressView| #[trigger] overflows(utxos, a) {
        let a = choose|a: MainAddressView| #[trigger] overflows(utxos, a);
        lemma_asked(utxos, a);
        assert(too_much_to(utxos, a));
    }
    if exists|a: MainAddressView| #[trigger] too_much_to(utxos, a) {
        let a = choose|a: MainAddressView| #[trigger] too_much_to(utxos, a);
        lemma_asked(utxos, a);
        assert(overflows(utxos, a));
    }
}

/// Nothing is collected exactly if no unspent output holds a withdrawal.
pub proof fn law_nothing_collected(utxos: Map<OutPoint, OutputView>, block_height: u32)
    requires
        utxos.dom().finite(),
    ensures
        (collected(utxos, block_height) matches Ok(None)) <==> forall|o: OutPoint|
            !#[trigger] withdraws(utxos, o),
        (forall|o: OutPoint| !#[trigger] withdraws(utxos, o)) ==> collectable(utxos),
{
    if forall|o: OutPoint| !#[trigger] withdraws(utxos, o) {
        assert forall|a: MainAddressView| !#[trigger] overflows(utxos, a) by {
            lemma_asked(utxos, a);
            assert(withdrawing_to(utxos, a) =~= Set::<OutPoint>::empty());
            lemma_sum_empty::<OutPoint>(value_of(utxos));
            lemma_sum_empty::<OutPoint>(fee_of(utxos));
        }
        assert forall|c: ClaimView| !claims(utxos).contains(c) by {
            if claims(utxos).contains(c) {
                let o = choose|o: OutPoint| #[trigger]
                    requests_to(utxos, c.main_address).contains(o);
                assert(withdraws(utxos, o));
            }
        }
        assert(claims(utxos) =~= Set::<ClaimView>::empty());
        lemma_admitted(utxos);
        assert(fees(admitted(utxos)) == 0);
    } else {
        let o = choose|o: OutPoint| withdraws(utxos, o);
        let a = withdrawal_at(utxos, o).main_address;
        assert(requests_to(utxos, a).contains(o));
        assert(claims(utxos).contains(claim_for(utxos, a)));
    }
}

/// The addresses that a bundle pays.
spec fn paid_addresses(utxos: Map<OutPoint, OutputView>) -> Seq<MainAddressView> {
    Seq::new(admitted(utxos).len(), |i: int| admitted(utxos)[i].main_address)
}

/// Which addresses a bundle pays, what it pays to them, and what it spends.
proof fn lemma_paid(
    utxos: Map<OutPoint, OutputView>,
    addresses: Seq<MainAddressView>,
    paid: Seq<(u64, Seq<u8>)>,
    spent: Set<OutPoint>,
    some: OutPoint,
)
    requires
        utxos.dom().finite(),
        forall|a: MainAddressView| !#[trigger] too_much_to(utxos, a),
        withdraws(utxos, some),
        addresses == paid_addresses(utxos),
        paid == payouts(admitted(utxos)),
        spent == requests_for(utxos, admitted(utxos)).dom(),
    ensures
        0 < addresses.len() <= MAX_BUNDLE_OUTPUTS + 1,
        paid.len() == addresses.len(),
        forall|i: int|
            0 <= i < addresses.len() ==> {
                &&& (#[trigger] paid[i]).0 == value_to(utxos, addresses[i])
                &&& paid[i].1 == script_of(addresses[i])
            },
        forall|i: int|
            0 <= i < addresses.len() ==> withdrawing_to(utxos, #[trigger] addresses[i]) != Set::<
                OutPoint,
            >::empty(),
        addresses.len() <= MAX_BUNDLE_OUTPUTS ==> forall|o: OutPoint| #[trigger]
            withdraws(utxos, o) ==> addresses.contains(withdrawal_at(utxos, o).main_address),
        forall|i: int, j: int|
            0 <= i < j < addresses.len() ==> comes_first(
                utxos,
                #[trigger] addresses[i],
                #[trigger] addresses[j],
            ),
        forall|i: int, o: OutPoint|
            0 <= i < addresses.len() && #[trigger] withdraws(utxos, o) && !addresses.contains(
                withdrawal_at(utxos, o).main_address,
            ) ==> comes_first(utxos, #[trigger] addresses[i], withdrawal_at(utxos, o).main_address),
        forall|o: OutPoint| #[trigger]
            spent.contains(o) <==> withdraws(utxos, o) && addresses.contains(
                withdrawal_at(utxos, o).main_address,
            ),
{
    let taken = admitted(utxos);
    assert forall|a: MainAddressView| !#[trigger] overflows(utxos, a) by {
        lemma_asked(utxos, a);
        assert(!too_much_to(utxos, a));
    }
    lemma_ranking(utxos);
    lemma_admitted(utxos);
    let order = ranking(utxos);
    // Every withdrawal makes a claim.
    assert forall|o: OutPoint| #[trigger] withdraws(utxos, o) implies claims(utxos).contains(
        claim_for(utxos, withdrawal_at(utxos, o).main_address),
    ) by {
        assert(requests_to(utxos, withdrawal_at(utxos, o).main_address).contains(o));
    }
    let first = claim_for(utxos, withdrawal_at(utxos, some).main_address);
    assert(claims(utxos).contains(first));
    assert(order.contains(first));
    assert(taken.len() > 0);
    assert forall|i: int| 0 <= i < addresses.len() implies {
        &&& (#[trigger] paid[i]).0 == value_to(utxos, addresses[i])
        &&& paid[i].1 == script_of(addresses[i])
        &&& taken[i].main_fee == fee_to(utxos, addresses[i])
        &&& taken[i].value == value_to(utxos, addresses[i])
    } by {
        assert(claims(utxos).contains(taken[i]));
        assert(taken[i] == claim_for(utxos, taken[i].main_address));
        lemma_asked(utxos, addresses[i]);
        assert(!too_much_to(utxos, addresses[i]));
    }
    assert forall|i: int| 0 <= i < addresses.len() implies withdrawing_to(
        utxos,
        #[trigger] addresses[i],
    ) != Set::<OutPoint>::empty() by {
        assert(claims(utxos).contains(taken[i]));
        let o = choose|o: OutPoint| #[trigger]
            requests_to(utxos, taken[i].main_address).contains(o);
        assert(withdrawing_to(utxos, addresses[i]).contains(o));
    }
    // A claim is taken exactly if its address is among those that are paid.
    assert forall|o: OutPoint| #[trigger] withdraws(utxos, o) implies (taken.contains(
        claim_for(utxos, withdrawal_at(utxos, o).main_address),
    ) <==> addresses.contains(withdrawal_at(utxos, o).main_address)) by {
        let a = withdrawal_at(utxos, o).main_address;
        if addresses.contains(a) {
            let i = addresses.index_of(a);
            assert(claims(utxos).contains(taken[i]));
            assert(taken[i] == claim_for(utxos, a));
        }
        if taken.contains(claim_for(utxos, a)) {
            let i = taken.index_of(claim_for(utxos, a));
            assert(addresses[i] == a);
        }
    }
    if addresses.len() <= MAX_BUNDLE_OUTPUTS {
        assert forall|o: OutPoint| #[trigger] withdraws(utxos, o) implies addresses.contains(
            withdrawal_at(utxos, o).main_address,
        ) by {
            let c = claim_for(utxos, withdrawal_at(utxos, o).main_address);
            assert(order.contains(c));
            let k = order.index_of(c);
            assert(taken[k] == c);
        }
    }
    assert forall|i: int, j: int| 0 <= i < j < addresses.len() implies comes_first(
        utxos,
        #[trigger] addresses[i],
        #[trigger] addresses[j],
    ) by {
        assert(taken[i] == order[i] && taken[j] == order[j]);
        assert(paid[i].0 == value_to(utxos, addresses[i]));
        assert(paid[j].0 == value_to(utxos, addresses[j]));
        lemma_greater_claim(taken[i], taken[j]);
    }
    assert forall|i: int, o: OutPoint|
        0 <= i < addresses.len() && #[trigger] withdraws(utxos, o) && !addresses.contains(
            withdrawal_at(utxos, o).main_address,
        ) implies comes_first(
        utxos,
        #[trigger] addresses[i],
        withdrawal_at(utxos, o).main_address,
    ) by {
        let a = withdrawal_at(utxos, o).main_address;
        let c = claim_for(utxos, a);
        assert(order.contains(c));
        let k = order.index_of(c);
        assert(order[k] == c);
        if k < taken.len() {
            assert(taken[k] == c);
        }
        assert(taken[i] == order[i]);
        assert(paid[i].0 == value_to(utxos, addresses[i]));
        lemma_asked(utxos, a);
        assert(!too_much_to(utxos, a));
        lemma_greater_claim(taken[i], c);
    }
    assert forall|o: OutPoint| #[trigger] spent.contains(o) <==> withdraws(utxos, o)
        && addresses.contains(withdrawal_at(utxos, o).main_address) by {
        if asks_for(utxos, taken, o) {
            let i = choose|i: int|
                0 <= i < taken.len() && #[trigger] requests_to(
                    utxos,
                    taken[i].main_address,
                ).contains(o);
            assert(addresses[i] == withdrawal_at(utxos, o).main_address);
            assert(withdraws(utxos, o));
        }
        if withdraws(utxos, o) && addresses.contains(withdrawal_at(utxos, o).main_address) {
            let i = addresses.index_of(withdrawal_at(utxos, o).main_address);
            assert(requests_to(utxos, taken[i].main_address).contains(o));
        }
    }
}

/// What collecting gives if the values and the fees to each address fit and there is a withdrawal.
proof fn lemma_made(utxos: Map<OutPoint, OutputView>, block_height: u32, some: OutPoint)
    requires
        utxos.dom().finite(),
        forall|a: MainAddressView| !#[trigger] too_much_to(utxos, a),
        withdraws(utxos, some),
    ensures
        ({
            let taken = admitted(utxos);
            let spent = requests_for(utxos, taken).dom();
            let weight = bundle_weight(payouts(taken));
            &&& fees(taken) == fees_at(utxos, spent) >= 0
            &&& collectable(utxos) <==> fees_at(utxos, spent) <= u64::MAX
            &&& weight > 400_000 ==> collected(utxos, block_height) == Err::<
                Option<BundleView>,
                Error,
            >(Error::BundleTooHeavy { weight: weight as u64, max_weight: 400_000 })
            &&& weight <= 400_000 ==> collected(utxos, block_height) == Ok::<_, Error>(
                Some(
                    bundle_of(
                        block_height,
                        fees(taken) as u64,
                        requests_for(utxos, taken),
                        payouts(taken),
                    ),
                ),
            )
        }),
{
    let taken = admitted(utxos);
    let listed = requests_for(utxos, taken);
    let spent = listed.dom();
    assert forall|a: MainAddressView| !#[trigger] overflows(utxos, a) by {
        lemma_asked(utxos, a);
        assert(!too_much_to(utxos, a));
    }
    let address = withdrawal_at(utxos, some).main_address;
    assert(requests_to(utxos, address).contains(some));
    assert(claims(utxos).contains(claim_for(utxos, address)));
    lemma_claims_add_up(utxos, taken.len() as int);
    assert(taken.take(taken.len() as int) =~= taken);
    assert forall|o: OutPoint| #[trigger] spent.contains(o) implies withdraws(utxos, o) by {
        let i = choose|i: int|
            0 <= i < taken.len() && #[trigger] requests_to(utxos, taken[i].main_address).contains(
                o,
            );
    }
    lemma_sum_congruent(
        spent,
        fee_of(utxos),
        |o: OutPoint| withdrawal_at(utxos, o).main_fee as int,
    );
    lemma_sum_empty::<OutPoint>(fee_of(utxos));
    lemma_sum_monotone(Set::<OutPoint>::empty(), spent, fee_of(utxos));
    lemma_bundle_weight(block_height, fees(taken) as u64, listed, payouts(taken));
}

/// What a bundle is made of, if the values and the fees to each address fit and there is a
/// withdrawal. It pays some addresses, in order: to each goes one payout, which has the address's
/// script and all that is withdrawn to it.
///
/// There are at most one more than `MAX_BUNDLE_OUTPUTS` of them, and if there are fewer, they are
/// all addresses that something is withdrawn to. An address with greater fees comes first; of two
/// with the same fees, that with the greater value; of two with the same value, that which is
/// greater. An address that is not paid would come after all that are.
///
/// The bundle spends the outputs that hold a withdrawal to one of the addresses, each as it is, and
/// carries the fees of all of these, which have to fit. It is refused exactly if it is too heavy.
pub proof fn law_bundle_collected(
    utxos: Map<OutPoint, OutputView>,
    block_height: u32,
    some: OutPoint,
) -> (r: (Seq<MainAddressView>, Seq<(u64, Seq<u8>)>, Set<OutPoint>))
    requires
        utxos.dom().finite(),
        forall|a: MainAddressView| !#[trigger] too_much_to(utxos, a),
        withdraws(utxos, some),
    ensures
        0 < r.0.len() <= MAX_BUNDLE_OUTPUTS + 1,
        r.1.len() == r.0.len(),
        forall|i: int|
            0 <= i < r.0.len() ==> {
                &&& (#[trigger] r.1[i]).0 == value_to(utxos, r.0[i])
                &&& r.1[i].1 == script_of(r.0[i])
            },
        forall|i: int|
            0 <= i < r.0.len() ==> withdrawing_to(utxos, #[trigger] r.0[i]) != Set::<
                OutPoint,
            >::empty(),
        r.0.len() <= MAX_BUNDLE_OUTPUTS ==> forall|o: OutPoint| #[trigger]
            withdraws(utxos, o) ==> r.0.contains(withdrawal_at(utxos, o).main_address),
        forall|i: int, j: int|
            0 <= i < j < r.0.len() ==> comes_first(utxos, #[trigger] r.0[i], #[trigger] r.0[j]),
        forall|i: int, o: OutPoint|
            0 <= i < r.0.len() && #[trigger] withdraws(utxos, o) && !r.0.contains(
                withdrawal_at(utxos, o).main_address,
            ) ==> comes_first(utxos, #[trigger] r.0[i], withdrawal_at(utxos, o).main_address),
        forall|o: OutPoint| #[trigger]
            r.2.contains(o) <==> withdraws(utxos, o) && r.0.contains(
                withdrawal_at(utxos, o).main_address,
            ),
        collectable(utxos) <==> fees_at(utxos, r.2) <= u64::MAX,
        bundle_weight(r.1) > 400_000 ==> collected(utxos, block_height) == Err::<
            Option<BundleView>,
            Error,
        >(Error::BundleTooHeavy { weight: bundle_weight(r.1) as u64, max_weight: 400_000 }),
        bundle_weight(r.1) <= 400_000 ==> (collected(utxos, block_height) matches Ok(
            Some(bundle),
        ) && {
            let outputs = bundle.tx.outputs;
            let carried = outputs[0].1;
            let committed = outputs[1].1;
            &&& bundle.spend_utxos.dom() == r.2
            &&& forall|o: OutPoint| #[trigger] r.2.contains(o) ==> bundle.spend_utxos[o] == utxos[o]
            &&& bundle.tx.version == 2
            &&& bundle.tx.lock_time == 0
            &&& outputs.len() == r.1.len() + 2
            &&& outputs.skip(2) == r.1
            &&& outputs[0].0 == 0
            &&& carried.len() == 10
            &&& carried[0] == 0x6a && carried[1] == 8
            &&& fees_at(utxos, r.2) <= u64::MAX ==> carried[2] * 0x100_0000_0000_0000 + carried[3]
                * 0x1_0000_0000_0000 + carried[4] * 0x100_0000_0000 + carried[5] * 0x1_0000_0000
                + carried[6] * 0x100_0000 + carried[7] * 0x1_0000 + carried[8] * 0x100 + carried[9]
                == fees_at(utxos, r.2)
            &&& outputs[1].0 == 0
            &&& committed.len() == 34
            &&& committed[0] == 0x6a && committed[1] == 32
            &&& committed.skip(2) == sha256_digest(commitment_bytes(r.2, block_height))@
        }),
{
    let taken = admitted(utxos);
    let listed = requests_for(utxos, taken);
    let addresses = paid_addresses(utxos);
    let paid = payouts(taken);
    let spent = listed.dom();
    lemma_paid(utxos, addresses, paid, spent, some);
    lemma_made(utxos, block_height, some);
    law_bundle_transaction(block_height, fees(taken) as u64, listed, paid);
    (addresses, paid, spent)
}

/// If there are not too many addresses, a bundle spends an output exactly if it holds a withdrawal,
/// and for each withdrawal one payout has the script of its address and all that is withdrawn to
/// it.
pub proof fn law_all_withdrawals_bundled(
    utxos: Map<OutPoint, OutputView>,
    block_height: u32,
    bundle: BundleView,
    addresses: Set<MainAddressView>,
    o: OutPoint,
) -> (i: int)
    requires
        utxos.dom().finite(),
        collected(utxos, block_height) == Ok::<_, Error>(Some(bundle)),
        addresses.finite(),
        addresses.len() <= MAX_BUNDLE_OUTPUTS + 1,
        forall|p: OutPoint| #[trigger]
            withdraws(utxos, p) ==> addresses.contains(withdrawal_at(utxos, p).main_address),
    ensures
        bundle.spend_utxos.contains_key(o) <==> withdraws(utxos, o),
        withdraws(utxos, o) ==> {
            &&& bundle.spend_utxos[o] == utxos[o]
            &&& 2 <= i < bundle.tx.outputs.len()
            &&& bundle.tx.outputs[i].0 == value_to(utxos, withdrawal_at(utxos, o).main_address)
            &&& bundle.tx.outputs[i].1 == script_of(withdrawal_at(utxos, o).main_address)
        },
{
    law_overflow_refused(utxos, block_height);
    law_nothing_collected(utxos, block_height);
    let some = choose|p: OutPoint| withdraws(utxos, p);
    let (paid, payouts, spent) = law_bundle_collected(utxos, block_height, some);
    assert(bundle_weight(payouts) <= 400_000);
    assert forall|i: int, j: int| 0 <= i < j < paid.len() implies paid[i] != paid[j] by {
        assert(comes_first(utxos, paid[i], paid[j]));
        lemma_before_asymmetric::<MainAddress>(paid[i], paid[i]);
    }
    assert(paid.no_duplicates());
    assert forall|a: MainAddressView| #[trigger]
        paid.to_set().contains(a) implies addresses.contains(a) by {
        let i = paid.index_of(a);
        assert(paid[i] == a);
        let p = choose|p: OutPoint| withdrawing_to(utxos, a).contains(p);
        assert(withdrawing_to(utxos, a).contains(p)) by {
            if forall|p: OutPoint| !withdrawing_to(utxos, a).contains(p) {
                assert(withdrawing_to(utxos, a) =~= Set::<OutPoint>::empty());
            }
        }
        assert(withdraws(utxos, p));
    }
    paid.unique_seq_to_set();
    if paid.len() == MAX_BUNDLE_OUTPUTS + 1 {
        vstd::set_lib::lemma_len_subset(paid.to_set(), addresses);
        vstd::set_lib::lemma_subset_equality(paid.to_set(), addresses);
    }
    let address = withdrawal_at(utxos, o).main_address;
    let i = paid.index_of(address);
    if withdraws(utxos, o) {
        assert(addresses.contains(address));
        assert(paid.contains(address)) by {
            if paid.len() == MAX_BUNDLE_OUTPUTS + 1 {
                assert(paid.to_set().contains(address));
            }
        }
        assert(bundle.tx.outputs.skip(2)[i] == payouts[i]);
        assert(bundle.tx.outputs[i + 2] == payouts[i]);
    }
    assert(spent.contains(o) <==> bundle.spend_utxos.contains_key(o));
    i + 2
}

/// Whether an address comes before another when a bundle is made.
pub open spec fn comes_first(
    utxos: Map<OutPoint, OutputView>,
    address: MainAddressView,
    other: MainAddressView,
) -> bool {
    ||| fee_to(utxos, address) > fee_to(utxos, other)
    ||| fee_to(utxos, address) == fee_to(utxos, other) && value_to(utxos, address) > value_to(
        utxos,
        other,
    )
    ||| fee_to(utxos, address) == fee_to(utxos, other) && value_to(utxos, address) == value_to(
        utxos,
        other,
    ) && before::<MainAddress>(other, address)
}

/// What it means that a claim comes before another.
proof fn lemma_greater_claim(greater: ClaimView, less: ClaimView)
    requires
        before::<Claim>(less, greater),
    ensures
        greater.main_fee > less.main_fee || (greater.main_fee == less.main_fee && (greater.value
            > less.value || (greater.value == less.value && before::<MainAddress>(
            less.main_address,
            greater.main_address,
        )))),
{
    let x = Claim::code(less);
    let y = Claim::code(greater);
    assert(x[0] == less.main_fee && y[0] == greater.main_fee);
    if less.main_fee == greater.main_fee {
        let x1 = x.drop_first();
        let y1 = y.drop_first();
        assert(lex_before(x1, y1));
        assert(x1[0] == less.value && y1[0] == greater.value);
        if less.value == greater.value {
            assert(x1.drop_first() =~= MainAddress::code(less.main_address));
            assert(y1.drop_first() =~= MainAddress::code(greater.main_address));
        }
    }
}

} // verus!
