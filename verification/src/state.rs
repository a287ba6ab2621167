//! The part of the chain state that two-way peg data changes.

use crate::bundle::{BundleView, TxOut, Transaction, WithdrawalBundle};
use crate::address::duplicate_bytes;
use crate::order::{
    before, lemma_before_asymmetric, lemma_before_total, lemma_before_transitive, Duplicate,
};
use crate::output::{
    BlockHash, FilledOutput, InPoint, M6id, OutPoint, OutputView, SpentOutput, SpentView,
};
use crate::rollback::{HeightStamped, RollBack};
use crate::table::{lemma_listed_before, lemma_listed_sets, lists, Table};
use vstd::prelude::*;

verus! {

/// The number of blocks after the failure of a withdrawal bundle in which no bundle is made.
pub const WITHDRAWAL_BUNDLE_FAILURE_GAP: u32 = 4;

/// What has become of a withdrawal bundle.
#[derive(Clone, Copy, Debug, PartialEq, Eq, Structural)]
pub enum WithdrawalBundleStatus {
    /// Confirmed on the mainchain.
    Confirmed,
    /// Dropped before it was submitted.
    Dropped,
    /// Failed on the mainchain.
    Failed,
    /// Made, and not yet submitted.
    Pending,
    /// Submitted to the mainchain.
    Submitted,
    /// Submitted to the mainchain after it was dropped or had failed.
    SubmittedUnexpected,
}

/// What is known of a withdrawal bundle.
#[derive(Debug, PartialEq, Eq)]
pub enum WithdrawalBundleInfo {
    Known(WithdrawalBundle),
    Unknown,
    /// Confirmed without being known. All outputs that were unspent then count as spent by it.
    UnknownConfirmed { spend_utxos: Table<OutPoint, FilledOutput> },
}

/// What a `WithdrawalBundleInfo` holds.
#[verifier::ext_equal]
pub enum InfoView {
    Known(BundleView),
    Unknown,
    UnknownConfirmed { spend_utxos: Map<OutPoint, OutputView> },
}

impl View for WithdrawalBundleInfo {
    type V = InfoView;

    open spec fn view(&self) -> InfoView {
        match *self {
            WithdrawalBundleInfo::Known(bundle) => InfoView::Known(bundle@),
            WithdrawalBundleInfo::Unknown => InfoView::Unknown,
            WithdrawalBundleInfo::UnknownConfirmed { spend_utxos } => InfoView::UnknownConfirmed {
                spend_utxos: spend_utxos@,
            },
        }
    }
}

/// The statuses of a bundle, the latest last.
pub type Statuses = RollBack<HeightStamped<WithdrawalBundleStatus>>;

/// A bundle with its statuses.
pub type BundleRecord = (WithdrawalBundleInfo, RollBack<HeightStamped<WithdrawalBundleStatus>>);

/// What a `BundleRecord` holds.
pub type RecordView = (InfoView, Seq<HeightStamped<WithdrawalBundleStatus>>);

/// The part of the chain state that two-way peg data changes.
#[derive(Debug, PartialEq, Eq)]
pub struct State {
    /// The height of the tip, if there is one.
    pub height: Option<u32>,
    /// The unspent outputs.
    pub utxos: Table<OutPoint, FilledOutput>,
    /// The spent outputs.
    pub stxos: Table<OutPoint, SpentOutput>,
    /// The bundle that was made and is not yet submitted.
    pub pending_withdrawal_bundle: Option<M6id>,
    /// The bundle that failed last, with those that failed before it.
    pub latest_failed_withdrawal_bundle: Option<RollBack<HeightStamped<M6id>>>,
    /// All bundles.
    pub withdrawal_bundles: Table<M6id, BundleRecord>,
    /// The mainchain blocks up to which bundle events are connected, each with the height at
    /// which it was connected, by a running number.
    pub withdrawal_bundle_event_blocks: Table<u32, (BlockHash, u32)>,
    /// The mainchain blocks up to which deposits are connected, each with the height at which it
    /// was connected, by a running number.
    pub deposit_blocks: Table<u32, (BlockHash, u32)>,
}

/// What a `State` holds.
#[verifier::ext_equal]
pub struct StateView {
    pub height: Option<u32>,
    pub utxos: Map<OutPoint, OutputView>,
    pub stxos: Map<OutPoint, SpentView>,
    pub pending_withdrawal_bundle: Option<M6id>,
    pub latest_failed_withdrawal_bundle: Option<Seq<HeightStamped<M6id>>>,
    pub withdrawal_bundles: Map<M6id, RecordView>,
    pub withdrawal_bundle_event_blocks: Map<u32, (BlockHash, u32)>,
    pub deposit_blocks: Map<u32, (BlockHash, u32)>,
}

impl View for State {
    type V = StateView;

    open spec fn view(&self) -> StateView {
        StateView {
            height: self.height,
            utxos: self.utxos@,
            stxos: self.stxos@,
            pending_withdrawal_bundle: self.pending_withdrawal_bundle,
            latest_failed_withdrawal_bundle: match self.latest_failed_withdrawal_bundle {
                Some(failed) => Some(failed@),
                None => None,
            },
            withdrawal_bundles: self.withdrawal_bundles@,
            withdrawal_bundle_event_blocks: self.withdrawal_bundle_event_blocks@,
            deposit_blocks: self.deposit_blocks@,
        }
    }
}

impl State {
    /// The state of a chain without blocks.
    pub fn new() -> (state: State)
        ensures
            state@ == (StateView {
                height: None,
                utxos: Map::empty(),
                stxos: Map::empty(),
                pending_withdrawal_bundle: None,
                latest_failed_withdrawal_bundle: None,
                withdrawal_bundles: Map::empty(),
                withdrawal_bundle_event_blocks: Map::empty(),
                deposit_blocks: Map::empty(),
            }),
    {
        State {
            height: None,
            utxos: Table::new(),
            stxos: Table::new(),
            pending_withdrawal_bundle: None,
            latest_failed_withdrawal_bundle: None,
            withdrawal_bundles: Table::new(),
            withdrawal_bundle_event_blocks: Table::new(),
            deposit_blocks: Table::new(),
        }
    }
}

/// Outputs, marked as spent by a bundle.
pub open spec fn marked(outputs: Map<OutPoint, OutputView>, m6id: M6id) -> Map<
    OutPoint,
    SpentView,
> {
    Map::new(
        |o: OutPoint| outputs.contains_key(o),
        |o: OutPoint| SpentView { output: outputs[o], inpoint: InPoint::Withdrawal { m6id } },
    )
}

/// The state after the outputs in `keys` are spent by a bundle.
pub open spec fn spent(
    s: StateView,
    outputs: Map<OutPoint, OutputView>,
    keys: Set<OutPoint>,
    m6id: M6id,
) -> StateView {
    StateView {
        utxos: s.utxos.remove_keys(keys),
        stxos: s.stxos.union_prefer_right(marked(outputs.restrict(keys), m6id)),
        ..s
    }
}

/// The state after the outputs in `put` are made unspent and those in `dropped` are no longer
/// spent.
pub open spec fn unspent(
    s: StateView,
    outputs: Map<OutPoint, OutputView>,
    put: Set<OutPoint>,
    dropped: Set<OutPoint>,
) -> StateView {
    StateView {
        utxos: s.utxos.union_prefer_right(outputs.restrict(put)),
        stxos: s.stxos.remove_keys(dropped),
        ..s
    }
}

/// The outpoints of `keys` that come before `o`.
pub open spec fn keys_before(keys: Set<OutPoint>, o: OutPoint) -> Set<OutPoint> {
    Set::new(|p: OutPoint| keys.contains(p) && before::<OutPoint>(p, o))
}

/// The outpoints of `keys` that come after `o`.
pub open spec fn keys_after(keys: Set<OutPoint>, o: OutPoint) -> Set<OutPoint> {
    Set::new(|p: OutPoint| keys.contains(p) && before::<OutPoint>(o, p))
}

/// Whether `o` is the first of `keys` that is not in `present`.
pub open spec fn is_first_absent(
    keys: Set<OutPoint>,
    present: Set<OutPoint>,
    o: OutPoint,
) -> bool {
    &&& keys.contains(o)
    &&& !present.contains(o)
    &&& keys_before(keys, o).subset_of(present)
}

/// The first of `keys` that is not in `present`.
pub open spec fn first_absent(keys: Set<OutPoint>, present: Set<OutPoint>) -> OutPoint {
    choose|o: OutPoint| is_first_absent(keys, present, o)
}

/// Whether `o` is the last of `keys` that is not in `present`.
pub open spec fn is_last_absent(
    keys: Set<OutPoint>,
    present: Set<OutPoint>,
    o: OutPoint,
) -> bool {
    &&& keys.contains(o)
    &&& !present.contains(o)
    &&& keys_after(keys, o).subset_of(present)
}

/// The last of `keys` that is not in `present`.
pub open spec fn last_absent(keys: Set<OutPoint>, present: Set<OutPoint>) -> OutPoint {
    choose|o: OutPoint| is_last_absent(keys, present, o)
}

/// The last of `keys` that is in `present`.
pub open spec fn last_present(keys: Set<OutPoint>, present: Set<OutPoint>) -> OutPoint {
    last_absent(keys, present.complement())
}

/// There is one first outpoint that is absent.
pub proof fn lemma_first_absent(keys: Set<OutPoint>, present: Set<OutPoint>, o: OutPoint)
    requires
        is_first_absent(keys, present, o),
    ensures
        first_absent(keys, present) == o,
        !keys.subset_of(present),
{
    let p = first_absent(keys, present);
    lemma_before_total::<OutPoint>(o, p);
    if before::<OutPoint>(o, p) {
        assert(keys_before(keys, p).contains(o));
    }
    if before::<OutPoint>(p, o) {
        assert(keys_before(keys, o).contains(p));
    }
}

/// There is one last outpoint that is absent.
pub proof fn lemma_last_absent(keys: Set<OutPoint>, present: Set<OutPoint>, o: OutPoint)
    requires
        is_last_absent(keys, present, o),
    ensures
        last_absent(keys, present) == o,
        !keys.subset_of(present),
{
    let p = last_absent(keys, present);
    lemma_before_total::<OutPoint>(o, p);
    if before::<OutPoint>(o, p) {
        assert(keys_after(keys, o).contains(p));
    }
    if before::<OutPoint>(p, o) {
        assert(keys_after(keys, p).contains(o));
    }
}

/// Of finitely many outpoints that are not all present, one is the first that is absent.
pub proof fn lemma_first_absent_exists(keys: Set<OutPoint>, present: Set<OutPoint>)
    requires
        keys.finite(),
        !keys.subset_of(present),
    ensures
        is_first_absent(keys, present, first_absent(keys, present)),
    decreases keys.len(),
{
    let k = keys.choose();
    let rest = keys.remove(k);
    if rest.subset_of(present) {
        lemma_before_asymmetric::<OutPoint>(k, k);
        assert(is_first_absent(keys, present, k));
    } else {
        lemma_first_absent_exists(rest, present);
        let o = first_absent(rest, present);
        lemma_before_total::<OutPoint>(k, o);
        if before::<OutPoint>(k, o) && !present.contains(k) {
            assert forall|p: OutPoint| keys_before(keys, k).contains(p) implies present.contains(
                p,
            ) by {
                lemma_before_asymmetric::<OutPoint>(k, k);
                lemma_before_transitive::<OutPoint>(p, k, o);
                assert(keys_before(rest, o).contains(p));
            }
            assert(is_first_absent(keys, present, k));
        } else {
            assert forall|p: OutPoint| keys_before(keys, o).contains(p) implies present.contains(
                p,
            ) by {
                if p != k {
                    assert(keys_before(rest, o).contains(p));
                }
            }
            assert(is_first_absent(keys, present, o));
        }
    }
}

/// Of finitely many outpoints that are not all present, one is the last that is absent.
pub proof fn lemma_last_absent_exists(keys: Set<OutPoint>, present: Set<OutPoint>)
    requires
        keys.finite(),
        !keys.subset_of(present),
    ensures
        is_last_absent(keys, present, last_absent(keys, present)),
    decreases keys.len(),
{
    let k = keys.choose();
    let rest = keys.remove(k);
    if rest.subset_of(present) {
        lemma_before_asymmetric::<OutPoint>(k, k);
        assert(is_last_absent(keys, present, k));
    } else {
        lemma_last_absent_exists(rest, present);
        let o = last_absent(rest, present);
        lemma_before_total::<OutPoint>(k, o);
        if before::<OutPoint>(o, k) && !present.contains(k) {
            assert forall|p: OutPoint| keys_after(keys, k).contains(p) implies present.contains(
                p,
            ) by {
                lemma_before_asymmetric::<OutPoint>(k, k);
                lemma_before_transitive::<OutPoint>(o, k, p);
                assert(keys_after(rest, o).contains(p));
            }
            assert(is_last_absent(keys, present, k));
        } else {
            assert forall|p: OutPoint| keys_after(keys, o).contains(p) implies present.contains(
                p,
            ) by {
                if p != k {
                    assert(keys_after(rest, o).contains(p));
                }
            }
            assert(is_last_absent(keys, present, o));
        }
    }
}

/// What an ordered listing holds before and after a position, as sets.
proof fn lemma_listed_around(keys: Seq<OutPoint>, dom: Set<OutPoint>, i: int)
    requires
        lists::<OutPoint>(keys, dom),
        0 <= i < keys.len(),
    ensures
        dom.contains(keys[i]),
        keys.take(i).to_set() == keys_before(dom, keys[i]),
        keys.skip(i + 1).to_set() == keys_after(dom, keys[i]),
{
    assert(keys.contains(keys[i]));
    assert forall|p: OutPoint| keys.take(i).to_set().contains(p) == keys_before(
        dom,
        keys[i],
    ).contains(p) by {
        lemma_listed_before::<OutPoint>(keys, i, p);
    }
    assert forall|p: OutPoint| keys.skip(i + 1).to_set().contains(p) == keys_after(
        dom,
        keys[i],
    ).contains(p) by {
        lemma_listed_before::<OutPoint>(keys, i, p);
    }
    assert(keys.take(i).to_set() =~= keys_before(dom, keys[i]));
    assert(keys.skip(i + 1).to_set() =~= keys_after(dom, keys[i]));
}

impl State {
    /// Spends outputs by a bundle, in order. Stops at the first that is not unspent, and returns
    /// it.
    pub fn spend(&mut self, outputs: &Table<OutPoint, FilledOutput>, m6id: M6id) -> (r: Result<
        (),
        OutPoint,
    >)
        ensures
            ({
                let keys = outputs@.dom();
                let present = old(self)@.utxos.dom();
                match r {
                    Ok(()) => {
                        &&& keys.subset_of(present)
                        &&& final(self)@ == spent(old(self)@, outputs@, keys, m6id)
                    },
                    Err(o) => {
                        &&& !keys.subset_of(present)
                        &&& o == first_absent(keys, present)
                        &&& final(self)@ == spent(
                            old(self)@,
                            outputs@,
                            keys_before(keys, o),
                            m6id,
                        )
                    },
                }
            }),
    {
        let n = outputs.len();
        let ghost s = self@;
        let ghost keys = outputs.keys();
        let ghost dom = outputs@.dom();
        let mut i: usize = 0;
        assert(self@ =~= spent(s, outputs@, keys.take(0).to_set(), m6id));
        while i < n
            invariant
                n == keys.len(),
                keys == outputs.keys(),
                dom == outputs@.dom(),
                lists::<OutPoint>(keys, dom),
                i <= n,
                self@ == spent(s, outputs@, keys.take(i as int).to_set(), m6id),
                keys.take(i as int).to_set().subset_of(s.utxos.dom()),
                s == old(self)@,
            decreases n - i,
        {
            let o = *outputs.key_at(i);
            proof {
                lemma_listed_sets(keys, i as int);
                lemma_listed_around(keys, dom, i as int);
                lemma_before_asymmetric::<OutPoint>(o, o);
            }
            if !self.utxos.delete(&o) {
                proof {
                    assert(is_first_absent(dom, s.utxos.dom(), o));
                    lemma_first_absent(dom, s.utxos.dom(), o);
                    assert(self@ =~= spent(s, outputs@, keys_before(dom, o), m6id));
                }
                return Err(o);
            }
            let output = outputs.value_at(i).duplicate();
            self.stxos.put(o, SpentOutput { output, inpoint: InPoint::Withdrawal { m6id } });
            proof {
                assert(self@ =~= spent(s, outputs@, keys.take(i + 1).to_set(), m6id));
            }
            i = i + 1;
        }
        proof {
            assert(keys.take(n as int) =~= keys);
            assert(keys.to_set() =~= dom);
        }
        Ok(())
    }

    /// Spends all unspent outputs by a bundle, and returns them.
    pub fn spend_all(&mut self, m6id: M6id) -> (outputs: Table<OutPoint, FilledOutput>)
        ensures
            outputs@ == old(self)@.utxos,
            final(self)@ == spent(old(self)@, old(self)@.utxos, old(self)@.utxos.dom(), m6id),
    {
        let ghost s = self@;
        let mut outputs: Table<OutPoint, FilledOutput> = Table::new();
        std::mem::swap(&mut outputs, &mut self.utxos);
        let n = outputs.len();
        let ghost keys = outputs.keys();
        let ghost dom = outputs@.dom();
        let mut i: usize = 0;
        assert(self.stxos@ =~= s.stxos.union_prefer_right(
            marked(s.utxos.restrict(keys.take(0).to_set()), m6id),
        ));
        while i < n
            invariant
                n == keys.len(),
                keys == outputs.keys(),
                dom == outputs@.dom(),
                lists::<OutPoint>(keys, dom),
                outputs@ == s.utxos,
                i <= n,
                self@ == (StateView { utxos: Map::empty(), stxos: self.stxos@, ..s }),
                self.stxos@ == s.stxos.union_prefer_right(
                    marked(s.utxos.restrict(keys.take(i as int).to_set()), m6id),
                ),
            decreases n - i,
        {
            let o = *outputs.key_at(i);
            proof {
                lemma_listed_sets(keys, i as int);
            }
            let output = outputs.value_at(i).duplicate();
            self.stxos.put(o, SpentOutput { output, inpoint: InPoint::Withdrawal { m6id } });
            assert(self.stxos@ =~= s.stxos.union_prefer_right(
                marked(s.utxos.restrict(keys.take(i + 1).to_set()), m6id),
            ));
            i = i + 1;
        }
        proof {
            assert(keys.take(n as int) =~= keys);
            assert(keys.to_set() =~= dom);
            assert(self@ =~= spent(s, s.utxos, s.utxos.dom(), m6id));
        }
        outputs
    }

    /// Makes outputs unspent. It does not matter whether they were spent.
    pub fn unspend(&mut self, outputs: &Table<OutPoint, FilledOutput>)
        ensures
            final(self)@ == unspent(old(self)@, outputs@, outputs@.dom(), outputs@.dom()),
    {
        let n = outputs.len();
        let ghost s = self@;
        let ghost keys = outputs.keys();
        let ghost dom = outputs@.dom();
        let mut i: usize = 0;
        assert(self@ =~= unspent(s, outputs@, keys.take(0).to_set(), keys.take(0).to_set()));
        while i < n
            invariant
                n == keys.len(),
                keys == outputs.keys(),
                dom == outputs@.dom(),
                lists::<OutPoint>(keys, dom),
                i <= n,
                self@ == unspent(
                    s,
                    outputs@,
                    keys.take(i as int).to_set(),
                    keys.take(i as int).to_set(),
                ),
            decreases n - i,
        {
            let o = *outputs.key_at(i);
            proof {
                lemma_listed_sets(keys, i as int);
                lemma_listed_around(keys, dom, i as int);
            }
            let _ = self.stxos.delete(&o);
            self.utxos.put(o, outputs.value_at(i).duplicate());
            proof {
                assert(self@ =~= unspent(
                    s,
                    outputs@,
                    keys.take(i + 1).to_set(),
                    keys.take(i + 1).to_set(),
                ));
            }
            i = i + 1;
        }
        proof {
            assert(keys.take(n as int) =~= keys);
            assert(keys.to_set() =~= dom);
        }
    }

    /// Makes outputs unspent, in order. Stops at the first that was not spent, when it is unspent
    /// already, and returns it.
    pub fn unspend_in_order(&mut self, outputs: &Table<OutPoint, FilledOutput>) -> (r: Result<
        (),
        OutPoint,
    >)
        ensures
            ({
                let keys = outputs@.dom();
                let present = old(self)@.stxos.dom();
                match r {
                    Ok(()) => {
                        &&& keys.subset_of(present)
                        &&& final(self)@ == unspent(old(self)@, outputs@, keys, keys)
                    },
                    Err(o) => {
                        &&& !keys.subset_of(present)
                        &&& o == first_absent(keys, present)
                        &&& final(self)@ == unspent(
                            old(self)@,
                            outputs@,
                            keys_before(keys, o).insert(o),
                            keys_before(keys, o),
                        )
                    },
                }
            }),
    {
        let n = outputs.len();
        let ghost s = self@;
        let ghost keys = outputs.keys();
        let ghost dom = outputs@.dom();
        let mut i: usize = 0;
        assert(self@ =~= unspent(s, outputs@, keys.take(0).to_set(), keys.take(0).to_set()));
        while i < n
            invariant
                n == keys.len(),
                keys == outputs.keys(),
                dom == outputs@.dom(),
                lists::<OutPoint>(keys, dom),
                i <= n,
                self@ == unspent(
                    s,
                    outputs@,
                    keys.take(i as int).to_set(),
                    keys.take(i as int).to_set(),
                ),
                keys.take(i as int).to_set().subset_of(s.stxos.dom()),
                s == old(self)@,
            decreases n - i,
        {
            let o = *outputs.key_at(i);
            proof {
                lemma_listed_sets(keys, i as int);
                lemma_listed_around(keys, dom, i as int);
                lemma_before_asymmetric::<OutPoint>(o, o);
            }
            self.utxos.put(o, outputs.value_at(i).duplicate());
            if !self.stxos.delete(&o) {
                proof {
                    assert(is_first_absent(dom, s.stxos.dom(), o));
                    lemma_first_absent(dom, s.stxos.dom(), o);
                    assert(self@ =~= unspent(
                        s,
                        outputs@,
                        keys_before(dom, o).insert(o),
                        keys_before(dom, o),
                    ));
                }
                return Err(o);
            }
            proof {
                assert(self@ =~= unspent(
                    s,
                    outputs@,
                    keys.take(i + 1).to_set(),
                    keys.take(i + 1).to_set(),
                ));
            }
            i = i + 1;
        }
        proof {
            assert(keys.take(n as int) =~= keys);
            assert(keys.to_set() =~= dom);
        }
        Ok(())
    }

    /// Makes outputs unspent, from the last to the first. Stops at the last that was not spent,
    /// and returns it.
    pub fn unspend_in_reverse(&mut self, outputs: &Table<OutPoint, FilledOutput>) -> (r: Result<
        (),
        OutPoint,
    >)
        ensures
            ({
                let keys = outputs@.dom();
                let present = old(self)@.stxos.dom();
                match r {
                    Ok(()) => {
                        &&& keys.subset_of(present)
                        &&& final(self)@ == unspent(old(self)@, outputs@, keys, keys)
                    },
                    Err(o) => {
                        &&& !keys.subset_of(present)
                        &&& o == last_absent(keys, present)
                        &&& final(self)@ == unspent(
                            old(self)@,
                            outputs@,
                            keys_after(keys, o),
                            keys_after(keys, o),
                        )
                    },
                }
            }),
    {
        let n = outputs.len();
        let ghost s = self@;
        let ghost keys = outputs.keys();
        let ghost dom = outputs@.dom();
        let mut i: usize = n;
        assert(self@ =~= unspent(
            s,
            outputs@,
            keys.skip(n as int).to_set(),
            keys.skip(n as int).to_set(),
        ));
        while i > 0
            invariant
                n == keys.len(),
                keys == outputs.keys(),
                dom == outputs@.dom(),
                lists::<OutPoint>(keys, dom),
                i <= n,
                self@ == unspent(
                    s,
                    outputs@,
                    keys.skip(i as int).to_set(),
                    keys.skip(i as int).to_set(),
                ),
                keys.skip(i as int).to_set().subset_of(s.stxos.dom()),
                s == old(self)@,
            decreases i,
        {
            i = i - 1;
            let o = *outputs.key_at(i);
            proof {
                lemma_listed_sets(keys, i as int);
                lemma_listed_around(keys, dom, i as int);
                lemma_before_asymmetric::<OutPoint>(o, o);
            }
            if !self.stxos.delete(&o) {
                proof {
                    assert(is_last_absent(dom, s.stxos.dom(), o));
                    lemma_last_absent(dom, s.stxos.dom(), o);
                    assert(self@ =~= unspent(
                        s,
                        outputs@,
                        keys_after(dom, o),
                        keys_after(dom, o),
                    ));
                }
                return Err(o);
            }
            self.utxos.put(o, outputs.value_at(i).duplicate());
            proof {
                assert(self@ =~= unspent(
                    s,
                    outputs@,
                    keys.skip(i as int).to_set(),
                    keys.skip(i as int).to_set(),
                ));
            }
        }
        proof {
            assert(keys.skip(0) =~= keys);
            assert(keys.to_set() =~= dom);
        }
        Ok(())
    }

    /// Marks outputs as spent by a bundle, from the last to the first. Stops at the last that is
    /// unspent, when it is removed and marked, and returns it.
    pub fn respend_in_reverse(
        &mut self,
        outputs: &Table<OutPoint, FilledOutput>,
        m6id: M6id,
    ) -> (r: Result<(), OutPoint>)
        ensures
            ({
                let keys = outputs@.dom();
                let present = old(self)@.utxos.dom();
                match r {
                    Ok(()) => {
                        &&& keys.disjoint(present)
                        &&& final(self)@ == spent(old(self)@, outputs@, keys, m6id)
                    },
                    Err(o) => {
                        &&& !keys.disjoint(present)
                        &&& o == last_present(keys, present)
                        &&& final(self)@ == spent(
                            old(self)@,
                            outputs@,
                            keys_after(keys, o).insert(o),
                            m6id,
                        )
                    },
                }
            }),
    {
        let n = outputs.len();
        let ghost s = self@;
        let ghost keys = outputs.keys();
        let ghost dom = outputs@.dom();
        let ghost absent = s.utxos.dom().complement();
        let mut i: usize = n;
        assert(self@ =~= spent(s, outputs@, keys.skip(n as int).to_set(), m6id));
        while i > 0
            invariant
                n == keys.len(),
                keys == outputs.keys(),
                dom == outputs@.dom(),
                lists::<OutPoint>(keys, dom),
                i <= n,
                self@ == spent(s, outputs@, keys.skip(i as int).to_set(), m6id),
                keys.skip(i as int).to_set().subset_of(absent),
                s == old(self)@,
                absent == s.utxos.dom().complement(),
            decreases i,
        {
            i = i - 1;
            let o = *outputs.key_at(i);
            proof {
                lemma_listed_sets(keys, i as int);
                lemma_listed_around(keys, dom, i as int);
                lemma_before_asymmetric::<OutPoint>(o, o);
            }
            let output = outputs.value_at(i).duplicate();
            self.stxos.put(o, SpentOutput { output, inpoint: InPoint::Withdrawal { m6id } });
            let removed = self.utxos.delete(&o);
            proof {
                assert(self@ =~= spent(s, outputs@, keys.skip(i as int).to_set(), m6id));
            }
            if removed {
                proof {
                    assert(is_last_absent(dom, absent, o));
                    lemma_last_absent(dom, absent, o);
                }
                return Err(o);
            }
        }
        proof {
            assert(keys.skip(0) =~= keys);
            assert(keys.to_set() =~= dom);
        }
        Ok(())
    }
}

impl Duplicate for TxOut {
    fn duplicate(&self) -> (copy: TxOut) {
        TxOut { value: self.value, script_pubkey: duplicate_bytes(&self.script_pubkey) }
    }
}

impl Duplicate for Transaction {
    fn duplicate(&self) -> (copy: Transaction) {
        let mut output: Vec<TxOut> = Vec::new();
        let mut i: usize = 0;
        while i < self.output.len()
            invariant
                i <= self.output@.len(),
                output@.len() == i,
                forall|j: int| 0 <= j < i ==> (#[trigger] output@[j])@ == self.output@[j]@,
            decreases self.output@.len() - i,
        {
            output.push(self.output[i].duplicate());
            i = i + 1;
        }
        let copy = Transaction { version: self.version, lock_time: self.lock_time, output };
        assert(copy@ =~= self@);
        copy
    }
}

impl Duplicate for WithdrawalBundle {
    fn duplicate(&self) -> (copy: WithdrawalBundle) {
        WithdrawalBundle {
            spend_utxos: self.spend_utxos.duplicate(),
            tx: self.tx.duplicate(),
        }
    }
}

impl Duplicate for WithdrawalBundleInfo {
    fn duplicate(&self) -> (copy: WithdrawalBundleInfo) {
        match self {
            WithdrawalBundleInfo::Known(bundle) => WithdrawalBundleInfo::Known(bundle.duplicate()),
            WithdrawalBundleInfo::Unknown => WithdrawalBundleInfo::Unknown,
            WithdrawalBundleInfo::UnknownConfirmed { spend_utxos } => {
                WithdrawalBundleInfo::UnknownConfirmed { spend_utxos: spend_utxos.duplicate() }
            },
        }
    }
}

impl Duplicate for BundleRecord {
    fn duplicate(&self) -> (copy: BundleRecord) {
        (self.0.duplicate(), self.1.duplicate())
    }
}

impl Duplicate for State {
    fn duplicate(&self) -> (copy: State) {
        State {
            height: self.height,
            utxos: self.utxos.duplicate(),
            stxos: self.stxos.duplicate(),
            pending_withdrawal_bundle: self.pending_withdrawal_bundle,
            latest_failed_withdrawal_bundle: match &self.latest_failed_withdrawal_bundle {
                Some(failed) => Some(failed.duplicate()),
                None => None,
            },
            withdrawal_bundles: self.withdrawal_bundles.duplicate(),
            withdrawal_bundle_event_blocks: self.withdrawal_bundle_event_blocks.duplicate(),
            deposit_blocks: self.deposit_blocks.duplicate(),
        }
    }
}

} // verus!
