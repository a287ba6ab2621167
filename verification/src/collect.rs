//! Collecting withdrawals into a bundle.

use crate::address::{script_of, MainAddress, MainAddressView, MAX_SCRIPT_LEN};
use crate::bundle::{
    bundle_of, lemma_bundle_weight, transaction_weight, txout_size, txouts_size, txouts_view,
    BundleView, TxOut, WithdrawalBundle, MAX_STANDARD_TX_WEIGHT,
};
use crate::error::{AmountOverflowError, Error};
use crate::order::{lemma_before_asymmetric, Duplicate, Key};
use crate::output::{
    ContentView, FilledOutput, FilledOutputContent, OutPoint, OutputView, WithdrawalView,
};
use crate::state::State;
use crate::sum::{lemma_sum_empty, lemma_sum_insert, lemma_sum_monotone, sum_over};
use crate::table::{in_order, lemma_listed_before, lemma_listed_sets, lists, Table};
use vstd::prelude::*;

verus! {

/// The weight of a bundle without payouts.
pub const BUNDLE_0_WEIGHT: u64 = 504;

/// The weight of a payout.
pub const OUTPUT_WEIGHT: u64 = 128;

/// How many payouts a bundle may have before it takes one more and is closed.
pub const MAX_BUNDLE_OUTPUTS: usize = ((MAX_STANDARD_TX_WEIGHT - BUNDLE_0_WEIGHT) / OUTPUT_WEIGHT)
    as usize;

/// What an output asks to withdraw.
pub open spec fn request(output: OutputView) -> Option<WithdrawalView> {
    match output.content {
        ContentView::BitcoinWithdrawal(withdrawal) => Some(withdrawal),
        _ => None,
    }
}

/// The outputs that ask to withdraw to an address.
pub open spec fn requests_to(
    utxos: Map<OutPoint, OutputView>,
    address: MainAddressView,
) -> Set<OutPoint> {
    Set::new(
        |o: OutPoint|
            utxos.contains_key(o) && request(utxos[o]) is Some && request(utxos[o])->0.main_address
                == address,
    )
}

/// The value that an output asks to withdraw.
pub open spec fn value_of(utxos: Map<OutPoint, OutputView>) -> spec_fn(OutPoint) -> int {
    |o: OutPoint|
        match request(utxos[o]) {
            Some(withdrawal) => withdrawal.value as int,
            None => 0,
        }
}

/// The mainchain fee that an output offers for its withdrawal.
pub open spec fn fee_of(utxos: Map<OutPoint, OutputView>) -> spec_fn(OutPoint) -> int {
    |o: OutPoint|
        match request(utxos[o]) {
            Some(withdrawal) => withdrawal.main_fee as int,
            None => 0,
        }
}

/// All that is asked for an address: the fees, the value and the address, the earlier of which
/// weighs more when requests are ranked.
#[derive(Debug, PartialEq, Eq)]
pub struct Claim {
    pub main_fee: u64,
    pub value: u64,
    pub main_address: MainAddress,
}

/// What a `Claim` holds.
#[verifier::ext_equal]
pub struct ClaimView {
    pub main_fee: u64,
    pub value: u64,
    pub main_address: MainAddressView,
}

impl View for Claim {
    type V = ClaimView;

    open spec fn view(&self) -> ClaimView {
        ClaimView {
            main_fee: self.main_fee,
            value: self.value,
            main_address: self.main_address@,
        }
    }
}

impl Key for Claim {
    open spec fn code(key: ClaimView) -> Seq<u64> {
        seq![key.main_fee, key.value] + MainAddress::code(key.main_address)
    }

    proof fn lemma_code_injective(a: ClaimView, b: ClaimView) {
        let x = Self::code(a);
        let y = Self::code(b);
        assert(x[0] == a.main_fee && x[1] == a.value);
        assert(y[0] == b.main_fee && y[1] == b.value);
        assert(x.skip(2) =~= MainAddress::code(a.main_address));
        assert(y.skip(2) =~= MainAddress::code(b.main_address));
        MainAddress::lemma_code_injective(a.main_address, b.main_address);
    }

    fn code_len(&self) -> (n: usize) {
        self.main_address.code_len() + 2
    }

    fn code_at(&self, i: usize) -> (c: u64) {
        if i == 0 {
            self.main_fee
        } else if i == 1 {
            self.value
        } else {
            self.main_address.code_at(i - 2)
        }
    }
}

/// All that is asked for an address.
pub open spec fn claim_for(
    utxos: Map<OutPoint, OutputView>,
    address: MainAddressView,
) -> ClaimView {
    ClaimView {
        main_fee: sum_over(requests_to(utxos, address), fee_of(utxos)) as u64,
        value: sum_over(requests_to(utxos, address), value_of(utxos)) as u64,
        main_address: address,
    }
}

/// Whether what is asked for an address is too much to be summed.
pub open spec fn overflows(utxos: Map<OutPoint, OutputView>, address: MainAddressView) -> bool {
    ||| sum_over(requests_to(utxos, address), value_of(utxos)) > u64::MAX
    ||| sum_over(requests_to(utxos, address), fee_of(utxos)) > u64::MAX
}

/// The claims of all addresses that something is asked for.
pub open spec fn claims(utxos: Map<OutPoint, OutputView>) -> Set<ClaimView> {
    Set::new(
        |c: ClaimView|
            {
                &&& c == claim_for(utxos, c.main_address)
                &&& exists|o: OutPoint| #[trigger]
                    requests_to(utxos, c.main_address).contains(o)
            },
    )
}

/// The claims from the greatest to the least.
pub open spec fn ranking(utxos: Map<OutPoint, OutputView>) -> Seq<ClaimView> {
    in_order::<Claim>(claims(utxos)).reverse()
}

/// The claims that a bundle takes: as many of the greatest as there are, and one more than
/// `MAX_BUNDLE_OUTPUTS` at most.
pub open spec fn admitted(utxos: Map<OutPoint, OutputView>) -> Seq<ClaimView> {
    let all = ranking(utxos);
    if all.len() <= MAX_BUNDLE_OUTPUTS {
        all
    } else {
        all.take(MAX_BUNDLE_OUTPUTS + 1)
    }
}

/// The payouts of claims.
pub open spec fn payouts(claims: Seq<ClaimView>) -> Seq<(u64, Seq<u8>)> {
    Seq::new(claims.len(), |i: int| (claims[i].value, script_of(claims[i].main_address)))
}

/// The fees of claims.
pub open spec fn fees(claims: Seq<ClaimView>) -> int
    decreases claims.len(),
{
    if claims.len() == 0 {
        0
    } else {
        fees(claims.drop_last()) + claims.last().main_fee
    }
}

/// Whether an output asks for one of the claims.
pub open spec fn asks_for(
    utxos: Map<OutPoint, OutputView>,
    claims: Seq<ClaimView>,
    o: OutPoint,
) -> bool {
    exists|i: int|
        0 <= i < claims.len() && #[trigger] requests_to(utxos, claims[i].main_address).contains(o)
}

/// The outputs that ask for claims.
pub open spec fn requests_for(
    utxos: Map<OutPoint, OutputView>,
    claims: Seq<ClaimView>,
) -> Map<OutPoint, OutputView> {
    utxos.restrict(Set::new(|o: OutPoint| asks_for(utxos, claims, o)))
}

/// The bundle of the withdrawals that the unspent outputs ask for, however heavy it is.
pub open spec fn withdrawal_bundle(
    utxos: Map<OutPoint, OutputView>,
    block_height: u32,
) -> BundleView {
    let taken = admitted(utxos);
    bundle_of(block_height, fees(taken) as u64, requests_for(utxos, taken), payouts(taken))
}

/// What collecting the withdrawals gives: nothing where none is asked for, an error where the
/// requests for an address cannot be summed or the bundle is too heavy, else the bundle.
pub open spec fn collected(utxos: Map<OutPoint, OutputView>, block_height: u32) -> Result<
    Option<BundleView>,
    Error,
> {
    let bundle = withdrawal_bundle(utxos, block_height);
    let weight = transaction_weight(bundle.tx.outputs);
    if exists|address: MainAddressView| #[trigger] overflows(utxos, address) {
        Err(Error::AmountOverflow(AmountOverflowError))
    } else if claims(utxos) == Set::<ClaimView>::empty() {
        Ok(None)
    } else if weight > MAX_STANDARD_TX_WEIGHT {
        Err(
            Error::BundleTooHeavy {
                weight: weight as u64,
                max_weight: MAX_STANDARD_TX_WEIGHT,
            },
        )
    } else {
        Ok(Some(bundle))
    }
}

/// Whether the fees that a bundle takes can be summed.
pub open spec fn collectable(utxos: Map<OutPoint, OutputView>) -> bool {
    (forall|address: MainAddressView| !#[trigger] overflows(utxos, address)) ==> fees(
        admitted(utxos),
    ) <= u64::MAX
}

/// Calls `bitcoin::Amount::checked_add`. Claimed of it: the sum in satoshi where it fits in 64
/// bits, else nothing.
#[verifier::external_body]
fn add_amounts(a: u64, b: u64) -> (sum: Option<u64>)
    ensures
        match sum {
            Some(s) => s == a + b,
            None => a + b > u64::MAX,
        },
{
    let sum = bitcoin::Amount::from_sat(a).checked_add(bitcoin::Amount::from_sat(b));
    sum.map(bitcoin::Amount::to_sat)
}

/// The withdrawals to one address.
struct AggregatedWithdrawal {
    spend_utxos: Table<OutPoint, FilledOutput>,
    value: u64,
    main_fee: u64,
}

#[verifier::ext_equal]
struct AggregatedView {
    spend_utxos: Map<OutPoint, OutputView>,
    value: u64,
    main_fee: u64,
}

impl View for AggregatedWithdrawal {
    type V = AggregatedView;

    closed spec fn view(&self) -> AggregatedView {
        AggregatedView {
            spend_utxos: self.spend_utxos@,
            value: self.value,
            main_fee: self.main_fee,
        }
    }
}

/// The outputs among `seen` that ask to withdraw to an address.
spec fn part(
    utxos: Map<OutPoint, OutputView>,
    seen: Set<OutPoint>,
    address: MainAddressView,
) -> Set<OutPoint> {
    requests_to(utxos, address).intersect(seen)
}

/// What the outputs among `seen` ask for an address.
spec fn aggregated(
    utxos: Map<OutPoint, OutputView>,
    seen: Set<OutPoint>,
    address: MainAddressView,
) -> AggregatedView {
    let keys = part(utxos, seen, address);
    AggregatedView {
        spend_utxos: utxos.restrict(keys),
        value: sum_over(keys, value_of(utxos)) as u64,
        main_fee: sum_over(keys, fee_of(utxos)) as u64,
    }
}

/// Whether `groups` holds what the outputs among `seen` ask for each address.
spec fn grouped(
    utxos: Map<OutPoint, OutputView>,
    seen: Set<OutPoint>,
    groups: Map<MainAddressView, AggregatedView>,
) -> bool {
    &&& forall|a: MainAddressView| #[trigger]
        groups.contains_key(a) <==> part(utxos, seen, a) != Set::<OutPoint>::empty()
    &&& forall|a: MainAddressView| #[trigger]
        groups.contains_key(a) ==> {
            &&& groups[a] == aggregated(utxos, seen, a)
            &&& sum_over(part(utxos, seen, a), value_of(utxos)) <= u64::MAX
            &&& sum_over(part(utxos, seen, a), fee_of(utxos)) <= u64::MAX
        }
}

/// What one more output adds to the sums for its address, and that no other address sees it.
proof fn lemma_part_grows(
    utxos: Map<OutPoint, OutputView>,
    seen: Set<OutPoint>,
    o: OutPoint,
    a: MainAddressView,
)
    requires
        utxos.dom().finite(),
        seen.finite(),
        !seen.contains(o),
        utxos.contains_key(o),
    ensures
        requests_to(utxos, a).contains(o) ==> {
            &&& part(utxos, seen.insert(o), a) == part(utxos, seen, a).insert(o)
            &&& sum_over(part(utxos, seen.insert(o), a), value_of(utxos)) == sum_over(
                part(utxos, seen, a),
                value_of(utxos),
            ) + request(utxos[o])->0.value
            &&& sum_over(part(utxos, seen.insert(o), a), fee_of(utxos)) == sum_over(
                part(utxos, seen, a),
                fee_of(utxos),
            ) + request(utxos[o])->0.main_fee
        },
        !requests_to(utxos, a).contains(o) ==> part(utxos, seen.insert(o), a) == part(
            utxos,
            seen,
            a,
        ),
{
    let keys = part(utxos, seen, a);
    if requests_to(utxos, a).contains(o) {
        assert(part(utxos, seen.insert(o), a) =~= keys.insert(o));
        assert(keys.finite());
        lemma_sum_insert(keys, value_of(utxos), o);
        lemma_sum_insert(keys, fee_of(utxos), o);
    } else {
        assert(part(utxos, seen.insert(o), a) =~= keys);
    }
}

/// If the sums over a part do not fit, neither do those over the whole.
proof fn lemma_part_overflows(
    utxos: Map<OutPoint, OutputView>,
    seen: Set<OutPoint>,
    a: MainAddressView,
)
    requires
        utxos.dom().finite(),
        sum_over(part(utxos, seen, a), value_of(utxos)) > u64::MAX || sum_over(
            part(utxos, seen, a),
            fee_of(utxos),
        ) > u64::MAX,
    ensures
        overflows(utxos, a),
{
    let whole = requests_to(utxos, a);
    assert(whole =~= whole.intersect(utxos.dom()));
    assert(whole.finite());
    lemma_sum_monotone(part(utxos, seen, a), whole, value_of(utxos));
    lemma_sum_monotone(part(utxos, seen, a), whole, fee_of(utxos));
}

/// Sums up the withdrawals to each address.
fn aggregate(utxos: &Table<OutPoint, FilledOutput>) -> (r: Result<
    Table<MainAddress, AggregatedWithdrawal>,
    Error,
>)
    ensures
        match r {
            Ok(groups) => grouped(utxos@, utxos@.dom(), groups@),
            Err(e) => {
                &&& e == Error::AmountOverflow(AmountOverflowError)
                &&& exists|a: MainAddressView| overflows(utxos@, a)
            },
        },
{
    let n = utxos.len();
    let ghost keys = utxos.keys();
    let ghost all = utxos@;
    let mut groups: Table<MainAddress, AggregatedWithdrawal> = Table::new();
    let mut i: usize = 0;
    proof {
        assert forall|a: MainAddressView| part(all, keys.take(0).to_set(), a) == Set::<
            OutPoint,
        >::empty() by {
            assert(part(all, keys.take(0).to_set(), a) =~= Set::<OutPoint>::empty());
        }
    }
    while i < n
        invariant
            n == keys.len(),
            keys == utxos.keys(),
            all == utxos@,
            all.dom().finite(),
            lists::<OutPoint>(keys, all.dom()),
            i <= n,
            grouped(all, keys.take(i as int).to_set(), groups@),
        decreases n - i,
    {
        let o = utxos.key_at(i);
        let output = utxos.value_at(i);
        let ghost seen = keys.take(i as int).to_set();
        let ghost next = keys.take(i + 1).to_set();
        let ghost old_groups = groups@;
        proof {
            lemma_listed_sets(keys, i as int);
            vstd::seq_lib::seq_to_set_is_finite(keys.take(i as int));
            assert(!seen.contains(o@)) by {
                lemma_listed_before::<OutPoint>(keys, i as int, o@);
                lemma_before_asymmetric::<OutPoint>(o@, o@);
            }
            assert forall|a: MainAddressView| #![trigger part(all, next, a)]
                !requests_to(all, a).contains(o@) ==> part(all, next, a) == part(all, seen, a) by {
                lemma_part_grows(all, seen, o@, a);
            }
        }
        if let FilledOutputContent::BitcoinWithdrawal(withdrawal) = &output.content {
            let ghost a = withdrawal.main_address@;
            proof {
                assert(request(all[o@]) == Some(withdrawal@));
                assert(requests_to(all, a).contains(o@));
                lemma_part_grows(all, seen, o@, a);
                lemma_sum_empty::<OutPoint>(value_of(all));
                lemma_sum_empty::<OutPoint>(fee_of(all));
            }
            let mut group = match groups.remove(&withdrawal.main_address) {
                Some(group) => group,
                None => {
                    AggregatedWithdrawal { spend_utxos: Table::new(), value: 0, main_fee: 0 }
                },
            };
            proof {
                assert(part(all, seen, a).finite());
                lemma_sum_monotone(Set::<OutPoint>::empty(), part(all, seen, a), value_of(all));
                lemma_sum_monotone(Set::<OutPoint>::empty(), part(all, seen, a), fee_of(all));
                assert(old_groups.contains_key(a) || part(all, seen, a) == Set::<
                    OutPoint,
                >::empty());
                assert(group.spend_utxos@ =~= all.restrict(part(all, seen, a)));
                assert(group.value == sum_over(part(all, seen, a), value_of(all)));
                assert(group.main_fee == sum_over(part(all, seen, a), fee_of(all)));
            }
            group.value = match add_amounts(group.value, withdrawal.value) {
                Some(value) => value,
                None => {
                    proof {
                        lemma_part_overflows(all, next, a);
                    }
                    return Err(Error::AmountOverflow(AmountOverflowError));
                },
            };
            group.main_fee = match add_amounts(group.main_fee, withdrawal.main_fee) {
                Some(main_fee) => main_fee,
                None => {
                    proof {
                        lemma_part_overflows(all, next, a);
                    }
                    return Err(Error::AmountOverflow(AmountOverflowError));
                },
            };
            group.spend_utxos.put(*o, output.duplicate());
            assert(group@ =~= aggregated(all, next, a));
            groups.put(withdrawal.main_address.duplicate(), group);
            proof {
                assert(part(all, next, a).contains(o@));
                assert forall|b: MainAddressView| #[trigger] groups@.contains_key(b) <==> part(
                    all,
                    next,
                    b,
                ) != Set::<OutPoint>::empty() by {
                    if b != a {
                        assert(groups@.contains_key(b) == old_groups.contains_key(b));
                    }
                }
                assert forall|b: MainAddressView| #[trigger] groups@.contains_key(b) implies {
                    &&& groups@[b] == aggregated(all, next, b)
                    &&& sum_over(part(all, next, b), value_of(all)) <= u64::MAX
                    &&& sum_over(part(all, next, b), fee_of(all)) <= u64::MAX
                } by {
                    if b != a {
                        assert(old_groups.contains_key(b));
                    }
                }
            }
        } else {
            assert(request(all[o@]) is None);
            assert forall|b: MainAddressView| #[trigger] groups@.contains_key(b) <==> part(
                all,
                next,
                b,
            ) != Set::<OutPoint>::empty() by {}
        }
        i = i + 1;
    }
    proof {
        assert(keys.take(n as int) =~= keys);
        assert(keys.to_set() =~= all.dom());
    }
    Ok(groups)
}

/// What the groups say once all outputs are seen.
proof fn lemma_grouped_all(
    utxos: Map<OutPoint, OutputView>,
    groups: Map<MainAddressView, AggregatedView>,
)
    requires
        grouped(utxos, utxos.dom(), groups),
    ensures
        forall|a: MainAddressView| !#[trigger] overflows(utxos, a),
        forall|a: MainAddressView| #[trigger]
            groups.contains_key(a) <==> exists|o: OutPoint| #[trigger]
                requests_to(utxos, a).contains(o),
        forall|a: MainAddressView| #[trigger]
            groups.contains_key(a) ==> groups[a] == (AggregatedView {
                spend_utxos: utxos.restrict(requests_to(utxos, a)),
                value: claim_for(utxos, a).value,
                main_fee: claim_for(utxos, a).main_fee,
            }),
{
    let seen = utxos.dom();
    assert forall|a: MainAddressView| #[trigger] part(utxos, seen, a) == requests_to(utxos, a) by {
        assert(part(utxos, seen, a) =~= requests_to(utxos, a));
    }
    assert forall|a: MainAddressView| #[trigger] groups.contains_key(a) <==> exists|o: OutPoint|
        #[trigger] requests_to(utxos, a).contains(o) by {
        assert(part(utxos, seen, a) == requests_to(utxos, a));
        if !(exists|o: OutPoint| #[trigger] requests_to(utxos, a).contains(o)) {
            assert(requests_to(utxos, a) =~= Set::<OutPoint>::empty());
        }
    }
    assert forall|a: MainAddressView| !#[trigger] overflows(utxos, a) by {
        assert(part(utxos, seen, a) == requests_to(utxos, a));
        if !groups.contains_key(a) {
            lemma_sum_empty::<OutPoint>(value_of(utxos));
            lemma_sum_empty::<OutPoint>(fee_of(utxos));
        }
    }
    assert forall|a: MainAddressView| #[trigger] groups.contains_key(a) implies groups[a] == (
    AggregatedView {
        spend_utxos: utxos.restrict(requests_to(utxos, a)),
        value: claim_for(utxos, a).value,
        main_fee: claim_for(utxos, a).main_fee,
    }) by {
        assert(part(utxos, seen, a) == requests_to(utxos, a));
    }
}

/// Ranks the withdrawals to each address by their claims.
fn rank(
    utxos: &Table<OutPoint, FilledOutput>,
    groups: Table<MainAddress, AggregatedWithdrawal>,
) -> (ranked: Table<Claim, Table<OutPoint, FilledOutput>>)
    requires
        grouped(utxos@, utxos@.dom(), groups@),
    ensures
        ranked@.dom() == claims(utxos@),
        forall|c: ClaimView| #[trigger]
            ranked@.contains_key(c) ==> ranked@[c] == utxos@.restrict(
                requests_to(utxos@, c.main_address),
            ),
{
    let ghost all = utxos@;
    let ghost whole = groups@;
    let mut groups = groups;
    let mut ranked: Table<Claim, Table<OutPoint, FilledOutput>> = Table::new();
    proof {
        lemma_grouped_all(all, whole);
    }
    let mut left: usize = groups.len();
    loop
        invariant
            left == groups@.len(),
            groups@.dom().finite(),
            groups@.submap_of(whole),
            forall|a: MainAddressView| #[trigger]
                whole.contains_key(a) ==> whole[a] == (AggregatedView {
                    spend_utxos: all.restrict(requests_to(all, a)),
                    value: claim_for(all, a).value,
                    main_fee: claim_for(all, a).main_fee,
                }),
            forall|c: ClaimView| #[trigger]
                ranked@.contains_key(c) <==> c == claim_for(all, c.main_address)
                    && whole.contains_key(c.main_address) && !groups@.contains_key(c.main_address),
            forall|c: ClaimView| #[trigger]
                ranked@.contains_key(c) ==> ranked@[c] == all.restrict(
                    requests_to(all, c.main_address),
                ),
        ensures
            groups@ == Map::<MainAddressView, AggregatedView>::empty(),
        decreases left,
    {
        let ghost before_pop = groups@;
        let ghost old_ranked = ranked@;
        match groups.pop_last() {
            None => {
                break ;
            },
            Some((main_address, group)) => {
                let ghost a = main_address@;
                assert(whole.contains_key(a));
                let claim = Claim { main_fee: group.main_fee, value: group.value, main_address };
                assert(claim@ == claim_for(all, a));
                ranked.put(claim, group.spend_utxos);
                left = groups.len();
                assert forall|c: ClaimView| #[trigger] ranked@.contains_key(c) <==> c == claim_for(
                    all,
                    c.main_address,
                ) && whole.contains_key(c.main_address) && !groups@.contains_key(
                    c.main_address,
                ) by {
                    assert(ranked@.contains_key(c) == (old_ranked.contains_key(c) || c
                        == claim_for(all, a)));
                }
            },
        }
    }
    assert(ranked@.dom() =~= claims(all));
    ranked
}

/// The fees of some of the claims are not more than those of all.
proof fn lemma_fees_monotone(claims: Seq<ClaimView>, i: int)
    requires
        0 <= i <= claims.len(),
    ensures
        0 <= fees(claims.take(i)) <= fees(claims),
    decreases claims.len(),
{
    if i == claims.len() {
        assert(claims.take(i) =~= claims);
        if claims.len() > 0 {
            lemma_fees_monotone(claims.drop_last(), i - 1);
            assert(claims.drop_last().take(i - 1) =~= claims.drop_last());
        }
    } else {
        lemma_fees_monotone(claims.drop_last(), i);
        assert(claims.drop_last().take(i) =~= claims.take(i));
    }
}

/// Whether the fees that a bundle takes can be summed.
pub fn fees_fit(utxos: &Table<OutPoint, FilledOutput>) -> (fit: bool)
    ensures
        fit == collectable(utxos@),
{
    let ghost all = utxos@;
    let groups = match aggregate(utxos) {
        Ok(groups) => groups,
        Err(_) => {
            return true;
        },
    };
    proof {
        lemma_grouped_all(all, groups@);
    }
    let ranked = rank(utxos, groups);
    let n = ranked.len();
    let ghost keys = ranked.keys();
    let ghost order = ranking(all);
    assert(keys.reverse() == order);
    let mut fee: u64 = 0;
    let mut j: usize = 0;
    while j < n && j <= MAX_BUNDLE_OUTPUTS
        invariant
            all == utxos@,
            forall|a: MainAddressView| !#[trigger] overflows(all, a),
            keys == ranked.keys(),
            order == keys.reverse(),
            order == ranking(all),
            n == keys.len(),
            j <= n,
            j <= MAX_BUNDLE_OUTPUTS + 1,
            fee == fees(order.take(j as int)),
        decreases n - j,
    {
        let claim = ranked.key_at(n - 1 - j);
        let ghost next = order.take(j + 1);
        proof {
            assert(next.drop_last() =~= order.take(j as int));
            assert(next.last() == claim@);
            let whole = admitted(all);
            lemma_fees_monotone(whole, j + 1);
            assert(whole.take(j + 1) =~= next);
        }
        fee = match add_amounts(fee, claim.main_fee) {
            Some(sum) => sum,
            None => {
                return false;
            },
        };
        j = j + 1;
    }
    assert(order.take(j as int) =~= admitted(all));
    true
}

/// Outputs with short scripts have a bounded size.
proof fn lemma_txouts_size_bound(outputs: Seq<(u64, Seq<u8>)>)
    requires
        forall|i: int| 0 <= i < outputs.len() ==> (#[trigger] outputs[i]).1.len() <= MAX_SCRIPT_LEN,
    ensures
        0 <= txouts_size(outputs) <= 51 * outputs.len(),
    decreases outputs.len(),
{
    if outputs.len() > 0 {
        lemma_txouts_size_bound(outputs.drop_last());
        let last = outputs.last();
        assert(txout_size(last) <= 51);
    }
}

/// Collects the withdrawals that the unspent outputs ask for into a bundle.
pub fn collect_withdrawal_bundle(state: &State, block_height: u32) -> (r: Result<
    Option<WithdrawalBundle>,
    Error,
>)
    requires
        collectable(state@.utxos),
    ensures
        match r {
            Ok(Some(bundle)) => collected(state@.utxos, block_height) == Ok::<_, Error>(
                Some(bundle@),
            ),
            Ok(None) => collected(state@.utxos, block_height) == Ok::<_, Error>(
                None::<BundleView>,
            ),
            Err(e) => collected(state@.utxos, block_height) == Err::<Option<BundleView>, _>(e),
        },
{
    let ghost all = state@.utxos;
    let groups = match aggregate(&state.utxos) {
        Ok(groups) => groups,
        Err(e) => {
            return Err(e);
        },
    };
    proof {
        lemma_grouped_all(all, groups@);
    }
    let ranked = rank(&state.utxos, groups);
    let n = ranked.len();
    let ghost keys = ranked.keys();
    let ghost order = ranking(all);
    proof {
        assert(keys.reverse() == order);
    }
    if n == 0 {
        proof {
            assert(claims(all) =~= Set::<ClaimView>::empty()) by {
                assert forall|c: ClaimView| !claims(all).contains(c) by {
                    assert(claims(all).contains(c) == keys.contains(c));
                }
            }
        }
        return Ok(None);
    }
    proof {
        assert(claims(all).contains(keys[0])) by {
            assert(keys.contains(keys[0]));
        }
    }
    let mut fee: u64 = 0;
    let mut spend_utxos: Table<OutPoint, FilledOutput> = Table::new();
    let mut bundle_outputs: Vec<TxOut> = Vec::new();
    let mut j: usize = 0;
    proof {
        assert(spend_utxos@ =~= requests_for(all, order.take(0)));
        assert(txouts_view(bundle_outputs@) =~= payouts(order.take(0)));
    }
    while j < n && bundle_outputs.len() <= MAX_BUNDLE_OUTPUTS
        invariant
            all == state@.utxos,
            collectable(all),
            forall|a: MainAddressView| !#[trigger] overflows(all, a),
            keys == ranked.keys(),
            order == keys.reverse(),
            order == ranking(all),
            n == keys.len(),
            forall|c: ClaimView| #[trigger]
                ranked@.contains_key(c) ==> ranked@[c] == all.restrict(
                    requests_to(all, c.main_address),
                ),
            j <= n,
            j <= MAX_BUNDLE_OUTPUTS + 1,
            bundle_outputs@.len() == j,
            fee == fees(order.take(j as int)),
            spend_utxos@ == requests_for(all, order.take(j as int)),
            txouts_view(bundle_outputs@) == payouts(order.take(j as int)),
            forall|i: int|
                0 <= i < j ==> (#[trigger] bundle_outputs@[i]).script_pubkey@.len()
                    <= MAX_SCRIPT_LEN,
        decreases n - j,
    {
        let claim = ranked.key_at(n - 1 - j);
        let outputs = ranked.value_at(n - 1 - j);
        let ghost c = claim@;
        let ghost taken = order.take(j as int);
        let ghost next = order.take(j + 1);
        proof {
            assert(order[j as int] == c);
            assert(next =~= taken.push(c));
            assert(next.drop_last() =~= taken);
            let whole = admitted(all);
            lemma_fees_monotone(whole, j + 1);
            assert(whole.take(j + 1) =~= next);
        }
        let script_pubkey = claim.main_address.script_pubkey();
        let ghost before_extend = spend_utxos@;
        let ghost before_push = bundle_outputs@;
        spend_utxos.extend(outputs);
        bundle_outputs.push(TxOut { value: claim.value, script_pubkey });
        fee = match add_amounts(fee, claim.main_fee) {
            Some(sum) => sum,
            None => {
                assert(false);
                0
            },
        };
        proof {
            assert forall|o: OutPoint| #[trigger] asks_for(all, next, o) == (asks_for(
                all,
                taken,
                o,
            ) || requests_to(all, c.main_address).contains(o)) by {
                if asks_for(all, taken, o) {
                    let i = choose|i: int|
                        0 <= i < taken.len() && #[trigger] requests_to(
                            all,
                            taken[i].main_address,
                        ).contains(o);
                    assert(requests_to(all, next[i].main_address).contains(o));
                }
                if requests_to(all, c.main_address).contains(o) {
                    assert(requests_to(all, next[j as int].main_address).contains(o));
                }
                if asks_for(all, next, o) {
                    let i = choose|i: int|
                        0 <= i < next.len() && #[trigger] requests_to(
                            all,
                            next[i].main_address,
                        ).contains(o);
                    if i < j {
                        assert(requests_to(all, taken[i].main_address).contains(o));
                    }
                }
            }
            assert(spend_utxos@ =~= requests_for(all, next));
            assert(txouts_view(bundle_outputs@) =~= payouts(next)) by {
                assert forall|i: int| 0 <= i < j implies txouts_view(bundle_outputs@)[i]
                    == #[trigger] payouts(next)[i] by {
                    assert(txouts_view(before_push)[i] == payouts(taken)[i]);
                }
            }
        }
        j = j + 1;
    }
    proof {
        assert(order.take(j as int) =~= admitted(all));
        let paid = txouts_view(bundle_outputs@);
        assert forall|i: int| 0 <= i < paid.len() implies (#[trigger] paid[i]).1.len()
            <= MAX_SCRIPT_LEN by {
            assert(bundle_outputs@[i].script_pubkey@.len() <= MAX_SCRIPT_LEN);
        }
        lemma_txouts_size_bound(paid);
        lemma_bundle_weight(block_height, fee, spend_utxos@, paid);
    }
    match WithdrawalBundle::new(block_height, fee, spend_utxos, bundle_outputs) {
        Ok(bundle) => Ok(Some(bundle)),
        Err(e) => Err(e),
    }
}

} // verus!
