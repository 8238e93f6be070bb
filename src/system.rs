//! The formula system: a registry of cells and formulas with memoised,
//! lazily recomputed derived values and invalidation along dependency edges.
use vstd::prelude::*;

use dashmap::DashMap;
use vstd::std_specs::ops::AddSpec;

use crate::factor::Factor;
use crate::formula::{Formula, FormulaError, FormulaName, FormulaValue};
use crate::key_index::{index_get, index_insert, index_new, slot_map};
use crate::keys::Key;

verus! {

/// How many times `k` occurs in `s`.
pub open spec fn occurrences(s: Seq<Key>, k: Key) -> nat
    decreases s.len(),
{
    if s.len() == 0 {
        0
    } else {
        occurrences(s.drop_last(), k) + if s.last() == k {
            1nat
        } else {
            0nat
        }
    }
}

/// `n` copies of formula number `f`.
pub open spec fn repeated(f: nat, n: nat) -> Seq<FormulaName> {
    Seq::new(n, |i: int| FormulaName(f as usize))
}

/// The numbers of the formulas among `fs` that read `k`, in increasing order,
/// each once per occurrence of `k` among that formula's inputs.
pub open spec fn readers_in<G>(fs: Seq<Formula<G>>, k: Key) -> Seq<FormulaName>
    decreases fs.len(),
{
    if fs.len() == 0 {
        Seq::empty()
    } else {
        readers_in(fs.drop_last(), k) + repeated((fs.len() - 1) as nat, occurrences(fs.last().inputs@, k))
    }
}

/// Everything stored for one key: its cell, if registered, and the formulas
/// that read it.
struct Slot<V> {
    key: Key,
    factor: Option<Factor<V>>,
    consumers: Vec<FormulaName>,
}

/// A registry of cells addressed by `Key`. Leaf cells hold a value; derived
/// cells are computed by a formula from other cells, memoised, and marked dirty
/// when anything they depend on changes. Reading an unregistered key yields the
/// system's zero.
pub struct FormulaSystem<V, G> {
    index: DashMap<Key, usize>,
    slots: Vec<Slot<V>>,
    formulae: Vec<Formula<G>>,
    formula_values: Vec<FormulaValue<V>>,
    zero: V,
    /// A topological rank: every formula ranks above the formulas behind its inputs.
    rank: Ghost<Seq<nat>>,
    /// A strict upper bound of all ranks.
    cap: Ghost<nat>,
}

impl<V: Copy, G: Fn(Vec<V>) -> V> FormulaSystem<V, G> {
    /// The cell registered under `k`, if any.
    pub closed spec fn factor_at(&self, k: Key) -> Option<Factor<V>> {
        match slot_map(self.index).get(k) {
            Some(i) => if i < self.slots@.len() {
                self.slots@[i as int].factor
            } else {
                None
            },
            None => None,
        }
    }

    /// The formulas registered as reading `k`.
    pub closed spec fn consumers_at(&self, k: Key) -> Seq<FormulaName> {
        match slot_map(self.index).get(k) {
            Some(i) => if i < self.slots@.len() {
                self.slots@[i as int].consumers@
            } else {
                Seq::empty()
            },
            None => Seq::empty(),
        }
    }

    /// The registered formulas, in order of number.
    pub closed spec fn formula_seq(&self) -> Seq<Formula<G>> {
        self.formulae@
    }

    /// How many formulas have been registered.
    pub open spec fn formula_count(&self) -> nat {
        self.formula_seq().len()
    }

    /// The formula numbered `f`.
    pub open spec fn formula_at(&self, f: int) -> Formula<G> {
        self.formula_seq()[f]
    }

    /// The formulas that read `k`: in increasing order of number, each once
    /// per occurrence of `k` among its inputs.
    pub open spec fn readers(&self, k: Key) -> Seq<FormulaName> {
        readers_in(self.formula_seq(), k)
    }

    /// The memo of the formula numbered `f`.
    pub closed spec fn value_at(&self, f: int) -> FormulaValue<V> {
        self.formula_values@[f]
    }

    /// The value read for keys that hold no cell.
    pub closed spec fn zero_value(&self) -> V {
        self.zero
    }

    /// The formula that computes `k`, if `k` is derived.
    pub open spec fn backing(&self, k: Key) -> Option<int> {
        match self.factor_at(k) {
            Some(fac) => match fac.formula {
                Some(id) => Some(id.0 as int),
                None => None,
            },
            None => None,
        }
    }

    pub open spec fn is_clean(&self, f: int) -> bool {
        !self.value_at(f).dirty
    }

    /// The value that `k` holds now: the zero for an unregistered key, the
    /// level of a leaf, the memo of a derived cell.
    pub open spec fn current(&self, k: Key) -> V {
        match self.factor_at(k) {
            None => self.zero_value(),
            Some(fac) => match fac.formula {
                Some(id) => self.value_at(id.0 as int).cached,
                None => fac.level,
            },
        }
    }

    /// `k` can be read without computing anything.
    pub open spec fn settled(&self, k: Key) -> bool {
        match self.backing(k) {
            Some(f) => self.is_clean(f),
            None => true,
        }
    }

    /// The current values of the inputs of formula `f`, in order.
    pub open spec fn input_values(&self, f: int) -> Seq<V> {
        self.formula_at(f).inputs@.map_values(|k: Key| self.current(k))
    }

    /// The memo of formula `f` is a result of its function on the current
    /// values of its inputs.
    pub open spec fn computed(&self, f: int) -> bool {
        exists|a: Vec<V>|
            #![trigger call_ensures(self.formula_at(f).inner_fn.inner, (a,), self.value_at(f).cached)]
            a@ == self.input_values(f) && call_ensures(
                self.formula_at(f).inner_fn.inner,
                (a,),
                self.value_at(f).cached,
            )
    }

    /// Formula `f` reads `s`, directly or through the formulas behind its
    /// inputs, in at most `steps` steps.
    pub open spec fn reaches(&self, f: int, s: Key, steps: nat) -> bool
        decreases steps,
    {
        ||| self.formula_at(f).inputs@.contains(s)
        ||| (steps > 0 && exists|j: int|
            0 <= j < self.formula_at(f).inputs@.len() && (self.backing(
                #[trigger] self.formula_at(f).inputs@[j],
            ) matches Some(g) && self.reaches(g, s, (steps - 1) as nat)))
    }

    /// The value of formula `f` depends on `s`.
    pub open spec fn depends_on(&self, f: int, s: Key) -> bool {
        exists|steps: nat| self.reaches(f, s, steps)
    }

    /// A formula computing `s` from `inputs` would make `s` depend on itself.
    pub open spec fn closes_cycle(&self, inputs: Seq<Key>, s: Key) -> bool {
        exists|j: int|
            0 <= j < inputs.len() && (inputs[j] == s || (self.backing(#[trigger] inputs[j]) matches Some(
                g,
            ) && self.depends_on(g, s)))
    }

    /// `self` differs from `prev` at most in memos that were dirty in `prev`
    /// and are now clean: what a read may change.
    pub open spec fn read_successor(&self, prev: &Self) -> bool {
        &&& forall|k: Key| #[trigger] self.factor_at(k) == prev.factor_at(k)
        &&& forall|k: Key| #[trigger] self.consumers_at(k) == prev.consumers_at(k)
        &&& self.formula_count() == prev.formula_count()
        &&& forall|f: int|
            0 <= f < self.formula_count() ==> #[trigger] self.formula_at(f) == prev.formula_at(f)
        &&& self.zero_value() == prev.zero_value()
        &&& forall|f: int|
            0 <= f < self.formula_count() && prev.is_clean(f) ==> #[trigger] self.value_at(f)
                == prev.value_at(f)
        &&& forall|f: int|
            0 <= f < self.formula_count() && !self.is_clean(f) ==> #[trigger] self.value_at(f)
                == prev.value_at(f)
    }

    /// The index maps each key with a slot to that slot, and nothing else.
    closed spec fn index_ok(&self) -> bool {
        &&& forall|k: Key|
            #[trigger] slot_map(self.index).contains_key(k) ==> slot_map(self.index)[k]
                < self.slots@.len() && self.slots@[slot_map(self.index)[k] as int].key == k
        &&& forall|i: int|
            0 <= i < self.slots@.len() ==> slot_map(self.index).contains_key(
                #[trigger] self.slots@[i].key,
            ) && slot_map(self.index)[self.slots@[i].key] == i
    }

    /// The layout of the system: index, slots, formulas and ranks agree.
    closed spec fn structure(&self) -> bool {
        let n = self.formulae@.len();
        &&& self.index_ok()
        &&& forall|k: Key| #[trigger] self.consumers_at(k) == readers_in(self.formulae@, k)
        &&& self.formula_values@.len() == n
        &&& self.rank@.len() == n
        &&& forall|f: int| 0 <= f < n ==> #[trigger] self.rank@[f] < self.cap@
        &&& forall|k: Key|
            #[trigger] self.backing(k) matches Some(f) ==> 0 <= f < n && self.formulae@[f].subject
                == k
        &&& forall|f: int|
            0 <= f < n ==> (#[trigger] self.formulae@[f]).inputs@.len()
                == self.formulae@[f].inner_fn.arity
        &&& forall|f: int, a: Vec<V>|
            0 <= f < n && a@.len() == self.formulae@[f].inner_fn.arity ==> #[trigger] call_requires(
                self.formulae@[f].inner_fn.inner,
                (a,),
            )
        &&& forall|f: int, j: int|
            0 <= f < n && 0 <= j < self.formulae@[f].inputs@.len() ==> self.consumers_at(
                #[trigger] self.formulae@[f].inputs@[j],
            ).contains(FormulaName(f as usize))
        &&& forall|i: int, c: int|
            0 <= i < self.slots@.len() && 0 <= c < self.slots@[i].consumers@.len() ==> {
                let g = (#[trigger] self.slots@[i].consumers@[c]).0 as int;
                0 <= g < n && self.formulae@[g].inputs@.contains(self.slots@[i].key)
            }
        &&& forall|f: int, j: int|
            0 <= f < n && 0 <= j < self.formulae@[f].inputs@.len() ==> (self.backing(
                #[trigger] self.formulae@[f].inputs@[j],
            ) matches Some(g) ==> self.rank@[g] < self.rank@[f])
    }

    /// The memo invariants, except for formulas that read a key of `pending`.
    closed spec fn memo_except(&self, pending: Set<Key>) -> bool {
        let n = self.formulae@.len();
        &&& forall|f: int, j: int|
            0 <= f < n && self.is_clean(f) && 0 <= j < self.formulae@[f].inputs@.len()
                && !pending.contains(#[trigger] self.formulae@[f].inputs@[j]) ==> (self.backing(
                self.formulae@[f].inputs@[j],
            ) matches Some(g) ==> self.is_clean(g))
        &&& forall|f: int|
            0 <= f < n && #[trigger] self.is_clean(f) && (forall|j: int|
                0 <= j < self.formulae@[f].inputs@.len() ==> !pending.contains(
                    #[trigger] self.formulae@[f].inputs@[j],
                )) ==> self.computed(f)
    }

    /// The system is well formed: its layout is consistent, the dependency
    /// graph is acyclic, and every clean memo is the result of its formula on
    /// the current values of its inputs, which are themselves settled.
    pub closed spec fn wf(&self) -> bool {
        self.structure() && self.memo_except(Set::empty())
    }

    /// A system with no cell and no formula, reading `zero` for every key.
    pub fn new(zero: V) -> (r: Self)
        ensures
            r.wf(),
            r.formula_count() == 0,
            r.zero_value() == zero,
            forall|k: Key| r.factor_at(k) is None,
    {
        FormulaSystem {
            index: index_new(),
            slots: Vec::new(),
            formulae: Vec::new(),
            formula_values: Vec::new(),
            zero,
            rank: Ghost(Seq::empty()),
            cap: Ghost(0),
        }
    }

    /// Reads `k`, recomputing first the dirty memos that it depends on.
    fn eval_key(&mut self, k: &Key, Ghost(bound): Ghost<nat>) -> (r: V)
        requires
            old(self).wf(),
            old(self).backing(*k) matches Some(f) ==> old(self).rank@[f] < bound,
        ensures
            final(self).wf(),
            final(self).read_successor(old(self)),
            final(self).index == old(self).index,
            final(self).slots == old(self).slots,
            final(self).formulae == old(self).formulae,
            final(self).zero == old(self).zero,
            final(self).rank == old(self).rank,
            final(self).cap == old(self).cap,
            final(self).formula_values@.len() == old(self).formula_values@.len(),
            forall|f: int|
                0 <= f < old(self).formula_count() && #[trigger] final(self).is_clean(f)
                    != old(self).is_clean(f) ==> old(self).rank@[f] < bound,
            old(self).settled(*k) ==> *final(self) == *old(self),
            final(self).settled(*k),
            r == final(self).current(*k),
        decreases bound,
    {
        let i = match index_get(&self.index, k) {
            None => {
                return self.zero;
            },
            Some(i) => i,
        };
        let id = match &self.slots[i].factor {
            None => {
                return self.zero;
            },
            Some(fac) => match fac.formula {
                None => {
                    return fac.level;
                },
                Some(id) => id,
            },
        };
        let idx = id.0;
        if !self.formula_values[idx].dirty {
            return self.formula_values[idx].cached;
        }
        let ghost start = *self;
        let n_inputs = self.formulae[idx].inputs.len();
        let mut args: Vec<V> = Vec::new();
        let mut j: usize = 0;
        while j < n_inputs
            invariant
                start == *old(self),
                idx < self.formulae@.len(),
                self.backing(*k) == Some(idx as int),
                self.rank@[idx as int] < bound,
                self.wf(),
                self.read_successor(&start),
                self.index == start.index,
                self.slots == start.slots,
                self.formulae == start.formulae,
                self.zero == start.zero,
                self.rank == start.rank,
                self.cap == start.cap,
                self.formula_values@.len() == start.formula_values@.len(),
                forall|f: int|
                    0 <= f < start.formula_count() && #[trigger] self.is_clean(f)
                        != start.is_clean(f) ==> start.rank@[f] < self.rank@[idx as int],
                !self.is_clean(idx as int),
                n_inputs == self.formulae@[idx as int].inputs@.len(),
                j <= n_inputs,
                args@.len() == j,
                forall|m: int|
                    0 <= m < j ==> #[trigger] args@[m] == self.current(
                        self.formulae@[idx as int].inputs@[m],
                    ) && self.settled(self.formulae@[idx as int].inputs@[m]),
            decreases n_inputs - j,
        {
            let input = self.formulae[idx].inputs[j];
            proof {
                assert(self.formulae@[idx as int].inputs@[j as int] == input);
            }
            let ghost before = *self;
            let v = self.eval_key(&input, Ghost(self.rank@[idx as int]));
            proof {
                assert forall|m: int| 0 <= m < j implies #[trigger] args@[m] == self.current(
                    self.formulae@[idx as int].inputs@[m],
                ) && self.settled(self.formulae@[idx as int].inputs@[m]) by {
                    let km = self.formulae@[idx as int].inputs@[m];
                    assert(args@[m] == before.current(km));
                    assert(self.factor_at(km) == before.factor_at(km));
                    if let Some(g) = before.backing(km) {
                        assert(0 <= g < before.formula_count());
                        assert(before.is_clean(g));
                        assert(self.value_at(g) == before.value_at(g));
                    }
                }
            }
            let ghost prev_args = args@;
            args.push(v);
            j += 1;
            proof {
                assert forall|m: int| 0 <= m < j implies #[trigger] args@[m] == self.current(
                    self.formulae@[idx as int].inputs@[m],
                ) && self.settled(self.formulae@[idx as int].inputs@[m]) by {
                    if m < j - 1 {
                        assert(args@[m] == prev_args[m]);
                        assert(prev_args[m] == self.current(self.formulae@[idx as int].inputs@[m]));
                    } else {
                        assert(args@[m] == v);
                    }
                }
            }
        }
        let r = self.formulae[idx].calc(args);
        let ghost pre = *self;
        self.formula_values.set(idx, FormulaValue { cached: r, dirty: false });
        proof {
            self.lemma_store_memo(pre, idx as int, args);
            assert(self.read_successor(&pre));
            assert forall|f: int|
                0 <= f < start.formula_count() && #[trigger] self.is_clean(f) != start.is_clean(
                    f,
                ) implies start.rank@[f] < bound by {
                if f != idx {
                    assert(self.value_at(f) == pre.value_at(f));
                    assert(pre.is_clean(f) != start.is_clean(f));
                }
            }
        }
        r
    }

    /// Storing a computed result into a dirty memo keeps the system well formed.
    proof fn lemma_store_memo(&self, pre: Self, idx: int, args: Vec<V>)
        requires
            pre.wf(),
            0 <= idx < pre.formula_count(),
            pre.formula_values@.len() == pre.formulae@.len(),
            !pre.is_clean(idx),
            pre.backing(pre.formulae@[idx].subject) == Some(idx),
            args@.len() == pre.formulae@[idx].inputs@.len(),
            forall|m: int|
                0 <= m < args@.len() ==> #[trigger] args@[m] == pre.current(
                    pre.formulae@[idx].inputs@[m],
                ) && pre.settled(pre.formulae@[idx].inputs@[m]),
            self.formula_values@.len() == pre.formula_values@.len(),
            call_ensures(pre.formulae@[idx].inner_fn.inner, (args,), self.formula_values@[idx].cached),
            self.index == pre.index,
            self.slots == pre.slots,
            self.formulae == pre.formulae,
            self.zero == pre.zero,
            self.rank == pre.rank,
            self.cap == pre.cap,
            self.formula_values@ == pre.formula_values@.update(idx, self.formula_values@[idx]),
            !self.formula_values@[idx].dirty,
        ensures
            self.wf(),
    {
        let n = self.formulae@.len();
        // No input of idx is computed by idx itself.
        assert forall|m: int| 0 <= m < args@.len() implies pre.backing(
            #[trigger] pre.formulae@[idx].inputs@[m],
        ) != Some(idx) by {
            if pre.backing(pre.formulae@[idx].inputs@[m]) == Some(idx) {
                assert(pre.rank@[idx] < pre.rank@[idx]);
            }
        }
        assert forall|k: Key| pre.backing(k) != Some(idx) implies #[trigger] self.current(k)
            == pre.current(k) by {
            assert(self.factor_at(k) == pre.factor_at(k));
        }
        assert forall|k: Key| #[trigger] self.factor_at(k) == pre.factor_at(k) by {}
        assert forall|k: Key| #[trigger] self.backing(k) == pre.backing(k) by {
            assert(self.factor_at(k) == pre.factor_at(k));
        }
        assert forall|k: Key| #[trigger] self.consumers_at(k) == pre.consumers_at(k) by {}
        assert(self.structure());
        assert(args@ =~= self.input_values(idx));
        assert(call_ensures(self.formula_at(idx).inner_fn.inner, (args,), self.value_at(idx).cached));
        assert(self.computed(idx));
        assert forall|f: int|
            0 <= f < n && #[trigger] self.is_clean(f) && f != idx implies self.input_values(f)
            == pre.input_values(f) by {
            assert forall|j: int| 0 <= j < self.formulae@[f].inputs@.len() implies pre.backing(
                #[trigger] self.formulae@[f].inputs@[j],
            ) != Some(idx) by {
                assert(pre.is_clean(f));
            }
            assert(self.input_values(f) =~= pre.input_values(f));
        }
        assert forall|f: int|
            0 <= f < n && #[trigger] self.is_clean(f) implies self.computed(f) by {
            if f != idx {
                assert(pre.is_clean(f));
                assert(pre.computed(f));
                let a = choose|a: Vec<V>|
                    a@ == pre.input_values(f) && call_ensures(
                        pre.formula_at(f).inner_fn.inner,
                        (a,),
                        pre.value_at(f).cached,
                    );
                assert(call_ensures(
                    self.formula_at(f).inner_fn.inner,
                    (a,),
                    self.value_at(f).cached,
                ));
            }
        }
        assert forall|f: int, j: int|
            0 <= f < n && self.is_clean(f) && 0 <= j < self.formulae@[f].inputs@.len()
                && !Set::<Key>::empty().contains(
                #[trigger] self.formulae@[f].inputs@[j],
            ) implies (self.backing(self.formulae@[f].inputs@[j]) matches Some(g)
            ==> self.is_clean(g)) by {
            let kj = self.formulae@[f].inputs@[j];
            if f == idx {
                assert(args@[j] == pre.current(kj));
                assert(pre.settled(kj));
            } else {
                assert(pre.is_clean(f));
                if let Some(g) = pre.backing(kj) {
                    if g != idx {
                        assert(pre.is_clean(g));
                        assert(self.value_at(g) == pre.value_at(g));
                    }
                }
            }
        }
        assert(self.memo_except(Set::empty()));
    }

    /// Marking one memo dirty keeps the layout and the memo invariants, except
    /// for the formulas that read the key that it computes.
    proof fn lemma_dirty_one(&self, pre: Self, g: int, pending: Set<Key>)
        requires
            pre.structure(),
            pre.memo_except(pending),
            0 <= g < pre.formula_count(),
            self.index == pre.index,
            self.slots == pre.slots,
            self.formulae == pre.formulae,
            self.zero == pre.zero,
            self.rank == pre.rank,
            self.cap == pre.cap,
            self.formula_values@.len() == pre.formula_values@.len(),
            self.formula_values@[g].cached == pre.formula_values@[g].cached,
            self.formula_values@[g].dirty,
            forall|f: int|
                0 <= f < pre.formula_count() && f != g ==> #[trigger] self.formula_values@[f]
                    == pre.formula_values@[f],
        ensures
            self.structure(),
            pre.backing(pre.formulae@[g].subject) == Some(g) ==> self.memo_except(
                pending.insert(pre.formulae@[g].subject),
            ),
            pre.backing(pre.formulae@[g].subject) != Some(g) ==> self.memo_except(pending),
    {
        let n = self.formulae@.len();
        assert forall|k: Key| #[trigger] self.factor_at(k) == pre.factor_at(k) by {}
        assert forall|k: Key| #[trigger] self.backing(k) == pre.backing(k) by {
            assert(self.factor_at(k) == pre.factor_at(k));
        }
        assert forall|k: Key| #[trigger] self.consumers_at(k) == pre.consumers_at(k) by {}
        assert forall|k: Key| #[trigger] self.current(k) == pre.current(k) by {
            assert(self.factor_at(k) == pre.factor_at(k));
            if let Some(b) = pre.backing(k) {
                if b != g {
                    assert(self.formula_values@[b] == pre.formula_values@[b]);
                }
            }
        }
        assert(self.structure());
        let subj = pre.formulae@[g].subject;
        let p2 = if pre.backing(subj) == Some(g) {
            pending.insert(subj)
        } else {
            pending
        };
        assert forall|f: int| 0 <= f < n implies #[trigger] self.input_values(f)
            == pre.input_values(f) by {
            assert(self.input_values(f) =~= pre.input_values(f));
        }
        assert forall|f: int, j: int|
            0 <= f < n && self.is_clean(f) && 0 <= j < self.formulae@[f].inputs@.len()
                && !p2.contains(#[trigger] self.formulae@[f].inputs@[j]) implies (self.backing(
            self.formulae@[f].inputs@[j],
        ) matches Some(b) ==> self.is_clean(b)) by {
            let kj = self.formulae@[f].inputs@[j];
            assert(self.formula_values@[f] == pre.formula_values@[f]);
            if let Some(b) = pre.backing(kj) {
                assert(self.factor_at(kj) == pre.factor_at(kj));
                assert(pre.formulae@[b].subject == kj);
                if b != g {
                    assert(self.formula_values@[b] == pre.formula_values@[b]);
                }
            }
        }
        assert forall|f: int|
            0 <= f < n && #[trigger] self.is_clean(f) && (forall|j: int|
                0 <= j < self.formulae@[f].inputs@.len() ==> !p2.contains(
                    #[trigger] self.formulae@[f].inputs@[j],
                )) implies self.computed(f) by {
            assert(self.formula_values@[f] == pre.formula_values@[f]);
            assert forall|j: int| 0 <= j < self.formulae@[f].inputs@.len() implies !pending.contains(
                #[trigger] self.formulae@[f].inputs@[j],
            ) by {
                assert(!p2.contains(self.formulae@[f].inputs@[j]));
            }
            assert(pre.is_clean(f));
            assert(pre.computed(f));
            let a = choose|a: Vec<V>|
                a@ == pre.input_values(f) && call_ensures(
                    pre.formula_at(f).inner_fn.inner,
                    (a,),
                    pre.value_at(f).cached,
                );
            assert(call_ensures(self.formula_at(f).inner_fn.inner, (a,), self.value_at(f).cached));
        }
        assert(self.memo_except(p2));
    }

    /// Once no clean formula reads `k`, the exception for `k` is no longer needed.
    proof fn lemma_release(&self, pending: Set<Key>, k: Key)
        requires
            self.structure(),
            self.memo_except(pending.insert(k)),
            forall|c: int|
                0 <= c < self.consumers_at(k).len() ==> !self.is_clean(
                    (#[trigger] self.consumers_at(k)[c]).0 as int,
                ),
        ensures
            self.memo_except(pending),
    {
        let n = self.formulae@.len();
        assert(self.formulae.len() == n);
        assert forall|f: int, j: int|
            0 <= f < n && self.is_clean(f) && 0 <= j < self.formulae@[f].inputs@.len() implies
            #[trigger] self.formulae@[f].inputs@[j] != k by {
            if self.formulae@[f].inputs@[j] == k {
                assert(self.consumers_at(k).contains(FormulaName(f as usize)));
                let c = choose|c: int|
                    0 <= c < self.consumers_at(k).len() && self.consumers_at(k)[c] == FormulaName(
                        f as usize,
                    );
                assert(!self.is_clean(self.consumers_at(k)[c].0 as int));
            }
        }
        assert forall|f: int, j: int|
            0 <= f < n && self.is_clean(f) && 0 <= j < self.formulae@[f].inputs@.len()
                && !pending.contains(#[trigger] self.formulae@[f].inputs@[j]) implies (self.backing(
            self.formulae@[f].inputs@[j],
        ) matches Some(b) ==> self.is_clean(b)) by {
            assert(!pending.insert(k).contains(self.formulae@[f].inputs@[j]));
        }
        assert forall|f: int|
            0 <= f < n && #[trigger] self.is_clean(f) && (forall|j: int|
                0 <= j < self.formulae@[f].inputs@.len() ==> !pending.contains(
                    #[trigger] self.formulae@[f].inputs@[j],
                )) implies self.computed(f) by {
            assert forall|j: int| 0 <= j < self.formulae@[f].inputs@.len() implies !pending.insert(
                k,
            ).contains(#[trigger] self.formulae@[f].inputs@[j]) by {
                assert(self.formulae@[f].inputs@[j] != k);
            }
        }
    }

    /// Marks dirty every formula that reads `k`, and, through the keys those
    /// formulas compute, every formula that depends on `k`; stops at memos
    /// that are already dirty. No memo is recomputed.
    fn propagate_changes(
        &mut self,
        k: &Key,
        Ghost(pending): Ghost<Set<Key>>,
        Ghost(level): Ghost<int>,
    )
        requires
            old(self).structure(),
            old(self).memo_except(pending.insert(*k)),
            -1 <= level < old(self).cap@,
            forall|c: int|
                0 <= c < old(self).consumers_at(*k).len() ==> level < old(self).rank@[(
                #[trigger] old(self).consumers_at(*k)[c]).0 as int],
        ensures
            final(self).structure(),
            final(self).memo_except(pending),
            final(self).index == old(self).index,
            final(self).slots == old(self).slots,
            final(self).formulae == old(self).formulae,
            final(self).zero == old(self).zero,
            final(self).rank == old(self).rank,
            final(self).cap == old(self).cap,
            final(self).formula_values@.len() == old(self).formula_values@.len(),
            forall|f: int|
                0 <= f < old(self).formula_count() ==> (#[trigger] final(self).value_at(f)).cached
                    == old(self).value_at(f).cached,
            forall|f: int|
                0 <= f < old(self).formula_count() && #[trigger] final(self).is_clean(f)
                    ==> old(self).is_clean(f),
            forall|f: int|
                0 <= f < old(self).formula_count() && #[trigger] final(self).is_clean(f)
                    != old(self).is_clean(f) ==> level < old(self).rank@[f],
            forall|c: int|
                0 <= c < old(self).consumers_at(*k).len() ==> !final(self).is_clean(
                    (#[trigger] old(self).consumers_at(*k)[c]).0 as int,
                ),
        decreases old(self).cap@ - level,
    {
        let i = match index_get(&self.index, k) {
            None => {
                proof {
                    assert(self.consumers_at(*k).len() == 0);
                    self.lemma_release(pending, *k);
                }
                return ;
            },
            Some(i) => i,
        };
        let ghost start = *self;
        let n_c = self.slots[i].consumers.len();
        let mut c: usize = 0;
        while c < n_c
            invariant
                start == *old(self),
                i < self.slots@.len(),
                self.consumers_at(*k) == self.slots@[i as int].consumers@,
                n_c == self.slots@[i as int].consumers@.len(),
                c <= n_c,
                self.structure(),
                self.memo_except(pending.insert(*k)),
                self.index == start.index,
                self.slots == start.slots,
                self.formulae == start.formulae,
                self.zero == start.zero,
                self.rank == start.rank,
                self.cap == start.cap,
                self.formula_values@.len() == start.formula_values@.len(),
                forall|f: int|
                    0 <= f < start.formula_count() ==> (#[trigger] self.value_at(f)).cached
                        == start.value_at(f).cached,
                forall|f: int|
                    0 <= f < start.formula_count() && #[trigger] self.is_clean(f)
                        ==> start.is_clean(f),
                forall|f: int|
                    0 <= f < start.formula_count() && #[trigger] self.is_clean(f)
                        != start.is_clean(f) ==> level < start.rank@[f],
                -1 <= level < self.cap@,
                forall|d: int|
                    0 <= d < n_c ==> level < self.rank@[(
                    #[trigger] self.slots@[i as int].consumers@[d]).0 as int],
                forall|d: int|
                    0 <= d < c ==> !self.is_clean(
                        (#[trigger] self.slots@[i as int].consumers@[d]).0 as int,
                    ),
            decreases n_c - c,
        {
            let g = self.slots[i].consumers[c];
            let gi = g.0;
            proof {
                assert(self.consumers_at(*k)[c as int] == g);
                assert(0 <= gi < self.formulae@.len());
            }
            if !self.formula_values[gi].dirty {
                let cached = self.formula_values[gi].cached;
                let ghost pre = *self;
                self.formula_values.set(gi, FormulaValue { cached, dirty: true });
                proof {
                    self.lemma_dirty_one(pre, gi as int, pending.insert(*k));
                    assert forall|f: int|
                        0 <= f < start.formula_count() implies (#[trigger] self.value_at(f)).cached
                        == start.value_at(f).cached by {
                        assert(pre.value_at(f).cached == start.value_at(f).cached);
                    }
                    assert(level < self.rank@[gi as int]);
                    assert forall|f: int|
                        0 <= f < start.formula_count() && #[trigger] self.is_clean(f) implies start.is_clean(f) by {
                        assert(pre.is_clean(f));
                    }
                    assert forall|f: int|
                        0 <= f < start.formula_count() && #[trigger] self.is_clean(f)
                            != start.is_clean(f) implies level < start.rank@[f] by {
                        if f != gi {
                            assert(self.value_at(f) == pre.value_at(f));
                            assert(pre.is_clean(f) != start.is_clean(f));
                        } else {
                            assert(level < start.rank@[gi as int]);
                        }
                    }
                }
                let subj = self.formulae[gi].subject;
                let live = match index_get(&self.index, &subj) {
                    None => false,
                    Some(si) => match &self.slots[si].factor {
                        None => false,
                        Some(fac) => match fac.formula {
                            None => false,
                            Some(b) => b.0 == gi,
                        },
                    },
                };
                proof {
                    assert(live == (self.backing(subj) == Some(gi as int)));
                }
                if live {
                    proof {
                        assert forall|d: int|
                            0 <= d < self.consumers_at(subj).len() implies self.rank@[gi as int]
                            < self.rank@[(#[trigger] self.consumers_at(subj)[d]).0 as int] by {
                            let h = self.consumers_at(subj)[d].0 as int;
                            let si = slot_map(self.index)[subj] as int;
                            assert(self.slots@[si].consumers@[d].0 == h);
                            assert(self.formulae@[h].inputs@.contains(subj));
                            let j = choose|j: int|
                                0 <= j < self.formulae@[h].inputs@.len()
                                    && self.formulae@[h].inputs@[j] == subj;
                            assert(self.backing(self.formulae@[h].inputs@[j]) == Some(gi as int));
                        }
                        assert(pending.insert(*k).insert(subj) == pending.insert(*k).insert(subj));
                    }
                    let ghost mid = *self;
                    self.propagate_changes(&subj, Ghost(pending.insert(*k)), Ghost(self.rank@[gi as int] as int));
                    proof {
                        assert forall|f: int|
                            0 <= f < start.formula_count() && #[trigger] self.is_clean(f)
                                != start.is_clean(f) implies level < start.rank@[f] by {
                            if self.is_clean(f) != mid.is_clean(f) {
                                assert(level < mid.rank@[gi as int]);
                                assert(mid.rank@[gi as int] < mid.rank@[f]);
                            } else {
                                assert(mid.is_clean(f) != start.is_clean(f));
                            }
                        }
                        assert(pending.insert(*k).insert(subj) =~= pending.insert(*k).insert(subj));
                    }
                }
            }
            c += 1;
        }
        proof {
            self.lemma_release(pending, *k);
        }
    }

    /// A copy of the cell registered under `k`, if any.
    fn find_factor(&self, k: &Key) -> (r: Option<Factor<V>>)
        requires
            self.structure(),
        ensures
            r == self.factor_at(*k),
    {
        match index_get(&self.index, k) {
            None => None,
            Some(i) => self.slots[i].factor,
        }
    }

    /// The memo invariants depend only on formulas, memos and current values.
    proof fn lemma_same_values(&self, pre: Self, p: Set<Key>)
        requires
            pre.memo_except(p),
            self.formulae == pre.formulae,
            self.formula_values == pre.formula_values,
            forall|q: Key| #[trigger] self.backing(q) == pre.backing(q),
            forall|q: Key| #[trigger] self.current(q) == pre.current(q),
        ensures
            self.memo_except(p),
    {
        let n = self.formulae@.len();
        assert forall|f: int| 0 <= f < n implies #[trigger] self.input_values(f)
            == pre.input_values(f) by {
            assert(self.input_values(f) =~= pre.input_values(f));
        }
        assert forall|f: int|
            0 <= f < n && #[trigger] self.is_clean(f) && (forall|j: int|
                0 <= j < self.formulae@[f].inputs@.len() ==> !p.contains(
                    #[trigger] self.formulae@[f].inputs@[j],
                )) implies self.computed(f) by {
            assert(pre.is_clean(f));
            assert(pre.computed(f));
            let a = choose|a: Vec<V>|
                a@ == pre.input_values(f) && call_ensures(
                    pre.formula_at(f).inner_fn.inner,
                    (a,),
                    pre.value_at(f).cached,
                );
            assert(call_ensures(self.formula_at(f).inner_fn.inner, (a,), self.value_at(f).cached));
        }
        assert forall|f: int, j: int|
            0 <= f < n && self.is_clean(f) && 0 <= j < self.formulae@[f].inputs@.len()
                && !p.contains(#[trigger] self.formulae@[f].inputs@[j]) implies (self.backing(
            self.formulae@[f].inputs@[j],
        ) matches Some(b) ==> self.is_clean(b)) by {
            assert(self.backing(self.formulae@[f].inputs@[j]) == pre.backing(self.formulae@[f].inputs@[j]));
        }
    }

    /// The slot of `k`, created empty if `k` had none.
    fn ensure_slot(&mut self, k: &Key) -> (i: usize)
        requires
            old(self).index_ok(),
        ensures
            final(self).index_ok(),
            old(self).structure() ==> final(self).structure(),
            i < final(self).slots@.len(),
            slot_map(final(self).index).get(*k) == Some(i),
            final(self).slots@[i as int].key == *k,
            forall|q: Key| #[trigger] final(self).factor_at(q) == old(self).factor_at(q),
            forall|q: Key| #[trigger] final(self).consumers_at(q) == old(self).consumers_at(q),
            forall|q: Key| #[trigger] final(self).current(q) == old(self).current(q),
            final(self).formulae == old(self).formulae,
            final(self).formula_values == old(self).formula_values,
            final(self).zero == old(self).zero,
            final(self).rank == old(self).rank,
            final(self).cap == old(self).cap,
            forall|m: int|
                0 <= m < old(self).slots@.len() ==> #[trigger] final(self).slots@[m]
                    == old(self).slots@[m],
            final(self).slots@.len() >= old(self).slots@.len(),
            forall|m: int|
                old(self).slots@.len() <= m < final(self).slots@.len() ==> (
                #[trigger] final(self).slots@[m]).key == *k && final(self).slots@[m].factor is None
                    && final(self).slots@[m].consumers@.len() == 0,
    {
        match index_get(&self.index, k) {
            Some(i) => i,
            None => {
                let ghost pre = *self;
                let i = self.slots.len();
                self.slots.push(Slot { key: *k, factor: None, consumers: Vec::new() });
                index_insert(&mut self.index, *k, i);
                proof {
                    assert forall|q: Key| #[trigger] self.factor_at(q) == pre.factor_at(q) by {
                        if q != *k {
                            if let Some(m) = slot_map(pre.index).get(q) {
                                assert(self.slots@[m as int] == pre.slots@[m as int]);
                            }
                        }
                    }
                    assert forall|q: Key| #[trigger] self.consumers_at(q) == pre.consumers_at(q) by {
                        if q != *k {
                            if let Some(m) = slot_map(pre.index).get(q) {
                                assert(self.slots@[m as int] == pre.slots@[m as int]);
                            }
                        }
                    }
                    assert forall|q: Key| #[trigger] self.backing(q) == pre.backing(q) by {
                        assert(self.factor_at(q) == pre.factor_at(q));
                    }
                    assert forall|q: Key| #[trigger] self.current(q) == pre.current(q) by {
                        assert(self.factor_at(q) == pre.factor_at(q));
                    }
                    assert forall|m: int|
                        0 <= m < self.slots@.len() implies slot_map(self.index).contains_key(
                            #[trigger] self.slots@[m].key,
                        ) && slot_map(self.index)[self.slots@[m].key] == m by {
                        if m < pre.slots@.len() {
                            assert(self.slots@[m] == pre.slots@[m]);
                        }
                    }
                    assert(self.index_ok());
                    if pre.structure() {
                        assert forall|m: int, c: int|
                            0 <= m < self.slots@.len() && 0 <= c < self.slots@[m].consumers@.len()
                                implies {
                                let g = (#[trigger] self.slots@[m].consumers@[c]).0 as int;
                                0 <= g < self.formulae@.len() && self.formulae@[g].inputs@.contains(
                                    self.slots@[m].key,
                                )
                            } by {
                            assert(m < pre.slots@.len());
                            assert(self.slots@[m] == pre.slots@[m]);
                        }
                        assert(self.structure());
                    }
                }
                i
            },
        }
    }

    /// Stores the leaf `fac` under `k`. Only `k`'s value changes, so only the
    /// formulas that read `k` lose their guarantee.
    fn put_leaf(&mut self, k: &Key, fac: Factor<V>)
        requires
            old(self).wf(),
            fac.formula is None,
        ensures
            final(self).structure(),
            final(self).memo_except(Set::empty().insert(*k)),
            final(self).factor_at(*k) == Some(fac),
            forall|q: Key| q != *k ==> #[trigger] final(self).factor_at(q) == old(self).factor_at(q),
            forall|q: Key| #[trigger] final(self).consumers_at(q) == old(self).consumers_at(q),
            final(self).formulae == old(self).formulae,
            final(self).formula_values == old(self).formula_values,
            final(self).zero == old(self).zero,
            final(self).rank == old(self).rank,
            final(self).cap == old(self).cap,
    {
        let i = self.ensure_slot(k);
        proof {
            assert forall|q: Key| #[trigger] self.backing(q) == old(self).backing(q) by {
                assert(self.factor_at(q) == old(self).factor_at(q));
            }
            self.lemma_same_values(*old(self), Set::empty());
        }
        let ghost pre = *self;
        self.slots[i].factor = Some(fac);
        proof {
            let n = self.formulae@.len();
            assert(self.formulae.len() == n);
            assert forall|m: int| 0 <= m < self.slots@.len() && m != i implies #[trigger] self.slots@[m]
                == pre.slots@[m] by {}
            assert forall|q: Key| q != *k implies #[trigger] self.factor_at(q) == pre.factor_at(q) by {
                if let Some(m) = slot_map(pre.index).get(q) {
                    assert(pre.slots@[m as int].key == q);
                }
            }
            assert forall|q: Key| #[trigger] self.consumers_at(q) == pre.consumers_at(q) by {
                if let Some(m) = slot_map(pre.index).get(q) {
                    if m != i {
                        assert(self.slots@[m as int] == pre.slots@[m as int]);
                    }
                }
            }
            assert forall|q: Key| q != *k implies #[trigger] self.current(q) == pre.current(q) by {
                assert(self.factor_at(q) == pre.factor_at(q));
            }
            assert forall|q: Key| #[trigger] self.backing(q) is Some implies pre.backing(q)
                == self.backing(q) by {
                if q != *k {
                    assert(self.factor_at(q) == pre.factor_at(q));
                }
            }
            assert forall|m: int|
                0 <= m < self.slots@.len() implies slot_map(self.index).contains_key(
                    #[trigger] self.slots@[m].key,
                ) && slot_map(self.index)[self.slots@[m].key] == m by {
                assert(self.slots@[m].key == pre.slots@[m].key);
            }
            assert forall|m: int, c: int|
                0 <= m < self.slots@.len() && 0 <= c < self.slots@[m].consumers@.len() implies {
                    let g = (#[trigger] self.slots@[m].consumers@[c]).0 as int;
                    0 <= g < self.formulae@.len() && self.formulae@[g].inputs@.contains(
                        self.slots@[m].key,
                    )
                } by {
                assert(self.slots@[m].consumers@ == pre.slots@[m].consumers@);
                assert(self.slots@[m].key == pre.slots@[m].key);
            }
            assert forall|f: int, j: int|
                0 <= f < n && 0 <= j < self.formulae@[f].inputs@.len() implies self.consumers_at(
                    #[trigger] self.formulae@[f].inputs@[j],
                ).contains(FormulaName(f as usize)) by {
                assert(self.consumers_at(self.formulae@[f].inputs@[j]) == pre.consumers_at(
                    self.formulae@[f].inputs@[j],
                ));
            }
            assert(self.structure());
            let p = Set::<Key>::empty().insert(*k);
            assert forall|f: int|
                0 <= f < n && #[trigger] self.is_clean(f) && (forall|j: int|
                    0 <= j < self.formulae@[f].inputs@.len() ==> !p.contains(
                        #[trigger] self.formulae@[f].inputs@[j],
                    )) implies self.computed(f) by {
                assert(pre.is_clean(f));
                assert forall|j: int| 0 <= j < self.formulae@[f].inputs@.len() implies !Set::<Key>::empty().contains(
                    #[trigger] self.formulae@[f].inputs@[j]) by {}
                assert(pre.computed(f));
                assert(self.input_values(f) =~= pre.input_values(f));
                let a = choose|a: Vec<V>|
                    a@ == pre.input_values(f) && call_ensures(
                        pre.formula_at(f).inner_fn.inner,
                        (a,),
                        pre.value_at(f).cached,
                    );
                assert(call_ensures(self.formula_at(f).inner_fn.inner, (a,), self.value_at(f).cached));
            }
            assert(self.memo_except(p));
        }
    }

    /// After a write to `k`: marks dirty every memo that depends on `k`.
    fn settle_after_write(&mut self, k: &Key)
        requires
            old(self).structure(),
            old(self).memo_except(Set::empty().insert(*k)),
            old(self).backing(*k) is None,
        ensures
            forall|q: Key| #[trigger] final(self).factor_at(q) == old(self).factor_at(q),
            forall|q: Key| #[trigger] final(self).consumers_at(q) == old(self).consumers_at(q),
            final(self).wf(),
            final(self).index == old(self).index,
            final(self).slots == old(self).slots,
            final(self).formulae == old(self).formulae,
            final(self).zero == old(self).zero,
            final(self).formula_values@.len() == old(self).formula_values@.len(),
            forall|f: int|
                0 <= f < old(self).formula_count() ==> (#[trigger] final(self).value_at(f)).cached
                    == old(self).value_at(f).cached,
            forall|f: int|
                0 <= f < old(self).formula_count() && #[trigger] final(self).is_clean(f)
                    ==> old(self).is_clean(f),
            forall|c: int|
                0 <= c < old(self).consumers_at(*k).len() ==> !final(self).is_clean(
                    (#[trigger] old(self).consumers_at(*k)[c]).0 as int,
                ),
    {
        proof {
            assert(Set::<Key>::empty().insert(*k) == Set::<Key>::empty().insert(*k));
            assert forall|c: int| 0 <= c < self.consumers_at(*k).len() implies -1 < self.rank@[(
            #[trigger] self.consumers_at(*k)[c]).0 as int] by {}
        }
        self.propagate_changes(k, Ghost(Set::empty()), Ghost(-1));
        proof {
            assert forall|q: Key| #[trigger] self.factor_at(q) == old(self).factor_at(q) by {}
            assert forall|q: Key| #[trigger] self.consumers_at(q) == old(self).consumers_at(q) by {}
        }
    }

    /// Registers `k` as a leaf holding `amount`, replacing any cell it held
    /// before. Every memo that depends on `k` is marked dirty.
    pub fn insert_factor(&mut self, k: &Key, amount: V)
        requires
            old(self).wf(),
        ensures
            final(self).wf(),
            final(self).factor_at(*k) == Some(Factor { level: amount, decay: None, formula: None }),
            final(self).current(*k) == amount,
            forall|q: Key| q != *k ==> #[trigger] final(self).factor_at(q) == old(self).factor_at(q),
            forall|q: Key| #[trigger] final(self).consumers_at(q) == old(self).consumers_at(q),
            final(self).formula_count() == old(self).formula_count(),
            forall|f: int|
                0 <= f < old(self).formula_count() ==> #[trigger] final(self).formula_at(f)
                    == old(self).formula_at(f),
            final(self).zero_value() == old(self).zero_value(),
            forall|f: int|
                0 <= f < old(self).formula_count() ==> (#[trigger] final(self).value_at(f)).cached
                    == old(self).value_at(f).cached,
            forall|f: int|
                0 <= f < old(self).formula_count() && #[trigger] final(self).is_clean(f)
                    ==> old(self).is_clean(f),
            forall|c: int|
                0 <= c < old(self).consumers_at(*k).len() ==> !final(self).is_clean(
                    (#[trigger] old(self).consumers_at(*k)[c]).0 as int,
                ),
    {
        let fac = Factor::new_amount(amount);
        self.put_leaf(k, fac);
        self.settle_after_write(k);
    }

    /// Sets the level of the leaf `k` to `amount`, then marks dirty every memo
    /// that reads `k`, and through them everything depending on `k`. On a
    /// derived or unregistered key nothing happens: no value changes, so no
    /// memo goes stale.
    pub fn set_factor(&mut self, k: &Key, amount: V)
        requires
            old(self).wf(),
        ensures
            final(self).wf(),
            !(old(self).factor_at(*k) matches Some(fac) && fac.formula is None) ==> *final(self)
                == *old(self),
            match old(self).factor_at(*k) {
                Some(fac) => if fac.formula is None {
                    final(self).factor_at(*k) == Some(Factor { level: amount, ..fac })
                } else {
                    final(self).factor_at(*k) == Some(fac)
                },
                None => final(self).factor_at(*k) is None,
            },
            forall|q: Key| q != *k ==> #[trigger] final(self).factor_at(q) == old(self).factor_at(q),
            forall|q: Key| #[trigger] final(self).consumers_at(q) == old(self).consumers_at(q),
            final(self).formula_count() == old(self).formula_count(),
            forall|f: int|
                0 <= f < old(self).formula_count() ==> #[trigger] final(self).formula_at(f)
                    == old(self).formula_at(f),
            final(self).zero_value() == old(self).zero_value(),
            forall|f: int|
                0 <= f < old(self).formula_count() ==> (#[trigger] final(self).value_at(f)).cached
                    == old(self).value_at(f).cached,
            forall|f: int|
                0 <= f < old(self).formula_count() && #[trigger] final(self).is_clean(f)
                    ==> old(self).is_clean(f),
            old(self).factor_at(*k) matches Some(fac) && fac.formula is None ==> forall|c: int|
                0 <= c < old(self).consumers_at(*k).len() ==> !final(self).is_clean(
                    (#[trigger] old(self).consumers_at(*k)[c]).0 as int,
                ),
    {
        let fac = self.find_factor(k);
        match fac {
            Some(f) => {
                if f.formula.is_none() {
                    let updated = Factor { level: amount, decay: f.decay, formula: None };
                    self.put_leaf(k, updated);
                    self.settle_after_write(k);
                }
            },
            None => {},
        }
    }

    /// Marks, for each formula, whether its value depends on `s`.
    fn dependents_of(&self, s: &Key) -> (marked: Vec<bool>)
        requires
            self.wf(),
        ensures
            marked@.len() == self.formula_count(),
            forall|f: int| 0 <= f < self.formula_count() ==> #[trigger] marked@[f] == self.depends_on(f, *s),
    {
        let n = self.formulae.len();
        let mut marked: Vec<bool> = Vec::new();
        let mut q: usize = 0;
        while q < n
            invariant
                n == self.formulae@.len(),
                q <= n,
                marked@.len() == q,
                forall|f: int| 0 <= f < q ==> !(#[trigger] marked@[f]),
            decreases n - q,
        {
            marked.push(false);
            q += 1;
        }
        let ghost mut set: Set<int> = Set::empty();
        let mut work: Vec<usize> = Vec::new();
        let direct = self.get_formulae(s);
        let mut c: usize = 0;
        while c < direct.len()
            invariant
                self.wf(),
                n == self.formulae@.len(),
                direct@ == self.consumers_at(*s),
                c <= direct@.len(),
                marked@.len() == n,
                set.finite(),
                forall|f: int| 0 <= f < n ==> (#[trigger] marked@[f] <==> set.contains(f)),
                forall|f: int| #[trigger] set.contains(f) ==> 0 <= f < n && self.depends_on(f, *s),
                forall|m: int| 0 <= m < work@.len() ==> set.contains(#[trigger] work@[m] as int),
                forall|f: int| set.contains(f) ==> work@.contains(f as usize),
                forall|d: int| 0 <= d < c ==> set.contains((#[trigger] direct@[d]).0 as int),
            decreases direct@.len() - c,
        {
            let g = direct[c].0;
            proof {
                let si = slot_map(self.index)[*s] as int;
                assert(self.slots@[si].consumers@[c as int].0 == g);
                assert(self.formulae@[g as int].inputs@.contains(*s));
                assert(self.reaches(g as int, *s, 0));
            }
            if !marked[g] {
                marked.set(g, true);
                proof {
                    set = set.insert(g as int);
                }
                let ghost prev = work@;
                work.push(g);
                proof {
                    assert forall|x: usize| prev.contains(x) implies work@.contains(x) by {
                        let m = choose|m: int| 0 <= m < prev.len() && prev[m] == x;
                        assert(work@[m] == x);
                    }
                    assert(work@[work@.len() - 1] == g);
                }
            }
            c += 1;
        }
        while work.len() > 0
            invariant
                self.wf(),
                n == self.formulae@.len(),
                marked@.len() == n,
                set.finite(),
                forall|f: int| 0 <= f < n ==> (#[trigger] marked@[f] <==> set.contains(f)),
                forall|f: int| #[trigger] set.contains(f) ==> 0 <= f < n && self.depends_on(f, *s),
                forall|m: int| 0 <= m < work@.len() ==> set.contains(#[trigger] work@[m] as int),
                forall|d: int|
                    0 <= d < self.consumers_at(*s).len() ==> set.contains(
                        (#[trigger] self.consumers_at(*s)[d]).0 as int,
                    ),
                forall|g: int|
                    #[trigger] set.contains(g) && !work@.contains(g as usize) && self.backing(
                        self.formulae@[g].subject,
                    ) == Some(g) ==> forall|d: int|
                        0 <= d < self.consumers_at(self.formulae@[g].subject).len() ==> set.contains(
                            (#[trigger] self.consumers_at(self.formulae@[g].subject)[d]).0 as int,
                        ),
            decreases n - set.len(), work@.len(),
        {
            let ghost s0 = set.len();
            let ghost w0 = work@.len();
            let ghost prev = work@;
            let g = work.pop().unwrap();
            proof {
                assert(prev == work@.push(g));
                assert forall|x: usize| prev.contains(x) && x != g implies work@.contains(x) by {
                    let m = choose|m: int| 0 <= m < prev.len() && prev[m] == x;
                    assert(m < work@.len());
                    assert(work@[m] == x);
                }
                assert forall|h: int|
                    #[trigger] set.contains(h) && !work@.contains(h as usize) && h != g
                        && self.backing(self.formulae@[h].subject) == Some(h) implies forall|e: int|
                        0 <= e < self.consumers_at(self.formulae@[h].subject).len()
                            ==> set.contains(
                            (#[trigger] self.consumers_at(self.formulae@[h].subject)[e]).0 as int,
                        ) by {
                    if prev.contains(h as usize) {
                        assert(work@.contains(h as usize));
                    }
                }
            }
            let subj = self.formulae[g].subject;
            let live = match self.find_factor(&subj) {
                Some(fac) => match fac.formula {
                    Some(b) => b.0 == g,
                    None => false,
                },
                None => false,
            };
            if live {
                let readers = self.get_formulae(&subj);
                let mut d: usize = 0;
                while d < readers.len()
                    invariant
                        self.wf(),
                        n == self.formulae@.len(),
                        g < n,
                        subj == self.formulae@[g as int].subject,
                        self.backing(subj) == Some(g as int),
                        readers@ == self.consumers_at(subj),
                        d <= readers@.len(),
                        marked@.len() == n,
                        set.finite(),
                        set.contains(g as int),
                        forall|f: int| 0 <= f < n ==> (#[trigger] marked@[f] <==> set.contains(f)),
                        forall|f: int| #[trigger] set.contains(f) ==> 0 <= f < n && self.depends_on(f, *s),
                        forall|m: int| 0 <= m < work@.len() ==> set.contains(#[trigger] work@[m] as int),
                        forall|e: int| 0 <= e < d ==> set.contains((#[trigger] readers@[e]).0 as int),
                        forall|e: int|
                            0 <= e < self.consumers_at(*s).len() ==> set.contains(
                                (#[trigger] self.consumers_at(*s)[e]).0 as int,
                            ),
                        forall|h: int|
                            #[trigger] set.contains(h) && !work@.contains(h as usize) && h != g
                                && self.backing(self.formulae@[h].subject) == Some(h) ==> forall|e: int|
                                0 <= e < self.consumers_at(self.formulae@[h].subject).len()
                                    ==> set.contains(
                                    (#[trigger] self.consumers_at(self.formulae@[h].subject)[e]).0 as int,
                                ),
                        (set.len() == s0 && work@.len() == w0 - 1) || set.len() > s0,
                    decreases readers@.len() - d,
                {
                    let h = readers[d].0;
                    proof {
                        let si = slot_map(self.index)[subj] as int;
                        assert(self.slots@[si].consumers@[d as int].0 == h);
                        assert(self.formulae@[h as int].inputs@.contains(subj));
                        let j = choose|j: int|
                            0 <= j < self.formulae@[h as int].inputs@.len()
                                && self.formulae@[h as int].inputs@[j] == subj;
                        let st = choose|st: nat| self.reaches(g as int, *s, st);
                        assert(self.formula_at(h as int).inputs@[j] == subj);
                        assert(self.reaches(h as int, *s, st + 1));
                    }
                    if !marked[h] {
                        marked.set(h, true);
                        proof {
                            set = set.insert(h as int);
                        }
                        let ghost before = work@;
                        work.push(h);
                        proof {
                            assert forall|x: usize| before.contains(x) implies work@.contains(x) by {
                                let m = choose|m: int| 0 <= m < before.len() && before[m] == x;
                                assert(work@[m] == x);
                            }
                            assert(work@[work@.len() - 1] == h);
                        }
                    }
                    d += 1;
                }
            }
            proof {
                vstd::set_lib::lemma_int_range(0, n as int);
                vstd::set_lib::lemma_len_subset(set, vstd::set_lib::set_int_range(0, n as int));
            }
        }
        proof {
            assert forall|f: int| 0 <= f < n implies #[trigger] marked@[f] == self.depends_on(f, *s) by {
                if self.depends_on(f, *s) {
                    let st = choose|st: nat| self.reaches(f, *s, st);
                    self.lemma_reaches_marked(*s, set, f, st);
                }
            }
        }
        marked
    }

    /// A set of formulas that holds every reader of `s` and is closed under
    /// readers of the keys its live members compute holds every formula that
    /// depends on `s`.
    proof fn lemma_reaches_marked(&self, s: Key, set: Set<int>, f: int, steps: nat)
        requires
            self.wf(),
            0 <= f < self.formula_count(),
            self.reaches(f, s, steps),
            forall|d: int|
                0 <= d < self.consumers_at(s).len() ==> set.contains(
                    (#[trigger] self.consumers_at(s)[d]).0 as int,
                ),
            forall|g: int|
                #[trigger] set.contains(g) && self.backing(self.formulae@[g].subject) == Some(g)
                    ==> forall|d: int|
                    0 <= d < self.consumers_at(self.formulae@[g].subject).len() ==> set.contains(
                        (#[trigger] self.consumers_at(self.formulae@[g].subject)[d]).0 as int,
                    ),
        ensures
            set.contains(f),
        decreases steps,
    {
        assert(self.formulae.len() == self.formulae@.len());
        if self.formula_at(f).inputs@.contains(s) {
            let j = choose|j: int| 0 <= j < self.formulae@[f].inputs@.len() && self.formulae@[f].inputs@[j] == s;
            assert(self.consumers_at(self.formulae@[f].inputs@[j]).contains(FormulaName(f as usize)));
            let d = choose|d: int| 0 <= d < self.consumers_at(s).len() && self.consumers_at(s)[d] == FormulaName(f as usize);
            assert(set.contains(self.consumers_at(s)[d].0 as int));
        } else {
            let j = choose|j: int|
                0 <= j < self.formula_at(f).inputs@.len() && (self.backing(
                    #[trigger] self.formula_at(f).inputs@[j],
                ) matches Some(g) && self.reaches(g, s, (steps - 1) as nat));
            let k = self.formulae@[f].inputs@[j];
            let g = self.backing(k)->0;
            self.lemma_reaches_marked(s, set, g, (steps - 1) as nat);
            assert(self.formulae@[g].subject == k);
            assert(self.consumers_at(k).contains(FormulaName(f as usize)));
            let d = choose|d: int| 0 <= d < self.consumers_at(k).len() && self.consumers_at(k)[d] == FormulaName(f as usize);
            assert(set.contains(self.consumers_at(k)[d].0 as int));
        }
    }

    /// The formulas registered as reading `k`.
    pub fn get_formulae(&self, k: &Key) -> (r: Vec<FormulaName>)
        requires
            self.wf(),
        ensures
            r@ == self.consumers_at(*k),
            r@ == self.readers(*k),
    {
        proof {
            assert(self.consumers_at(*k) == readers_in(self.formulae@, *k));
        }
        match index_get(&self.index, k) {
            None => Vec::new(),
            Some(i) => {
                let src = &self.slots[i].consumers;
                let mut out: Vec<FormulaName> = Vec::new();
                let mut c: usize = 0;
                while c < src.len()
                    invariant
                        c <= src@.len(),
                        out@ == src@.subrange(0, c as int),
                    decreases src@.len() - c,
                {
                    out.push(src[c]);
                    c += 1;
                    proof {
                        assert(out@ =~= src@.subrange(0, c as int));
                    }
                }
                proof {
                    assert(out@ =~= src@);
                }
                out
            },
        }
    }

    /// How many readers slot `m` of `pre` had.
    closed spec fn base_len(pre: &Self, m: int) -> int {
        if m < pre.slots@.len() {
            pre.slots@[m].consumers@.len() as int
        } else {
            0
        }
    }

    /// `self` is `pre` with slots added and reader lists extended by formula
    /// `id` on keys of `inputs`; only the cell of `s` may differ.
    closed spec fn grown_from(&self, pre: &Self, id: nat, inputs: Seq<Key>, s: Key) -> bool {
        &&& self.index_ok()
        &&& self.formulae == pre.formulae
        &&& self.formula_values == pre.formula_values
        &&& self.zero == pre.zero
        &&& self.rank == pre.rank
        &&& self.cap == pre.cap
        &&& self.slots@.len() >= pre.slots@.len()
        &&& forall|m: int|
            0 <= m < pre.slots@.len() ==> (#[trigger] self.slots@[m]).key == pre.slots@[m].key
                && self.slots@[m].consumers@.len() >= pre.slots@[m].consumers@.len()
                && self.slots@[m].consumers@.subrange(0, pre.slots@[m].consumers@.len() as int)
                == pre.slots@[m].consumers@ && (self.slots@[m].key != s ==> self.slots@[m].factor
                == pre.slots@[m].factor)
        &&& forall|m: int|
            pre.slots@.len() <= m < self.slots@.len() ==> (#[trigger] self.slots@[m]).key != s
                ==> self.slots@[m].factor is None
        &&& forall|m: int, e: int|
            0 <= m < self.slots@.len() && Self::base_len(pre, m) <= e
                < self.slots@[m].consumers@.len() ==> (#[trigger] self.slots@[m].consumers@[e])
                == FormulaName(id as usize) && inputs.contains(self.slots@[m].key)
    }

    /// What growing keeps of the cells and reader lists of `pre`.
    proof fn lemma_grown_views(&self, pre: &Self, id: nat, inputs: Seq<Key>, s: Key, q: Key)
        requires
            pre.index_ok(),
            self.grown_from(pre, id, inputs, s),
        ensures
            q != s ==> self.factor_at(q) == pre.factor_at(q),
            self.consumers_at(q).len() >= pre.consumers_at(q).len(),
            self.consumers_at(q).subrange(0, pre.consumers_at(q).len() as int) == pre.consumers_at(q),
            forall|e: int|
                pre.consumers_at(q).len() <= e < self.consumers_at(q).len() ==> (
                #[trigger] self.consumers_at(q)[e]) == FormulaName(id as usize) && inputs.contains(q),
    {
        if let Some(m) = slot_map(pre.index).get(q) {
            let m = m as int;
            assert(pre.slots@[m].key == q);
            assert(self.slots@[m].key == q);
            assert(slot_map(self.index)[q] == m);
            assert(Self::base_len(pre, m) == pre.slots@[m].consumers@.len());
        } else {
            if let Some(m) = slot_map(self.index).get(q) {
                let m = m as int;
                if m < pre.slots@.len() {
                    assert(self.slots@[m].key == pre.slots@[m].key);
                    assert(slot_map(pre.index).contains_key(pre.slots@[m].key));
                }
                assert(Self::base_len(pre, m) == 0);
                assert forall|e: int|
                    0 <= e < self.consumers_at(q).len() implies (#[trigger] self.consumers_at(q)[e])
                    == FormulaName(id as usize) && inputs.contains(q) by {
                    assert(self.slots@[m].consumers@[e] == FormulaName(id as usize));
                }
            }
            assert(pre.consumers_at(q) =~= Seq::<FormulaName>::empty());
            assert(self.consumers_at(q).subrange(0, 0) =~= Seq::<FormulaName>::empty());
        }
    }

    /// The state right after a formula is added, before anything is marked
    /// dirty, is well formed except for the readers of its subject.
    proof fn lemma_registered(&self, pre: &Self, t: &Self, fml: Formula<G>, id: nat, s: Key, cap0: nat)
        requires
            pre.wf(),
            id == pre.formulae@.len(),
            cap0 == pre.cap@,
            fml.subject == s,
            fml.inputs@.len() == fml.inner_fn.arity,
            forall|a: Vec<V>|
                a@.len() == fml.inner_fn.arity ==> #[trigger] call_requires(fml.inner_fn.inner, (a,)),
            !pre.closes_cycle(fml.inputs@, s),
            t.grown_from(pre, id, fml.inputs@, s),
            t.factor_at(s) == Some(Factor { level: pre.zero, decay: None, formula: Some(FormulaName(id as usize)) }),
            forall|q: Key|
                #[trigger] t.consumers_at(q) == pre.consumers_at(q) + repeated(id, occurrences(fml.inputs@, q)),
            forall|i: int|
                0 <= i < fml.inputs@.len() ==> t.consumers_at(#[trigger] fml.inputs@[i]).contains(
                    FormulaName(id as usize),
                ),
            self.index == t.index,
            self.slots == t.slots,
            self.zero == pre.zero,
            self.formulae@ == pre.formulae@.push(fml),
            self.formula_values@ == pre.formula_values@.push(FormulaValue { cached: pre.zero, dirty: true }),
            self.cap@ == 2 * cap0 + 1,
            self.rank@ == Seq::new(
                (id + 1) as nat,
                |f: int|
                    if f == id as int {
                        cap0
                    } else if pre.depends_on(f, s) {
                        pre.rank@[f] + cap0 + 1
                    } else {
                        pre.rank@[f]
                    },
            ),
        ensures
            self.structure(),
            self.memo_except(Set::empty().insert(s)),
            forall|c: int|
                0 <= c < self.consumers_at(s).len() ==> cap0 < self.rank@[(
                #[trigger] self.consumers_at(s)[c]).0 as int],
            self.consumers_at(s) == pre.consumers_at(s),
            cap0 < self.cap@,
            forall|q: Key| #[trigger] self.factor_at(q) == t.factor_at(q),
            forall|q: Key| #[trigger] self.consumers_at(q) == t.consumers_at(q),
    {
        let n = id as int;
        let inputs = fml.inputs@;
        assert(pre.formulae.len() == n);
        assert forall|q: Key| #[trigger] self.factor_at(q) == t.factor_at(q) by {}
        assert forall|q: Key| #[trigger] self.consumers_at(q) == t.consumers_at(q) by {}
        assert forall|q: Key| q != s implies #[trigger] self.factor_at(q) == pre.factor_at(q) by {
            t.lemma_grown_views(pre, id, inputs, s, q);
        }
        assert forall|q: Key| q != s implies #[trigger] self.backing(q) == pre.backing(q) by {
            assert(self.factor_at(q) == pre.factor_at(q));
        }
        assert(self.backing(s) == Some(n));
        assert forall|f: int| 0 <= f < n implies #[trigger] self.formulae@[f] == pre.formulae@[f] by {}
        assert forall|f: int| 0 <= f < n implies #[trigger] self.formula_values@[f] == pre.formula_values@[f] by {}
        // Nothing before reads the subject through a cycle, and no input is the subject.
        assert forall|j: int| 0 <= j < inputs.len() implies #[trigger] inputs[j] != s && !(pre.backing(
            inputs[j],
        ) matches Some(g) && pre.depends_on(g, s)) by {
            if inputs[j] == s || (pre.backing(inputs[j]) matches Some(g) && pre.depends_on(g, s)) {
                assert(pre.closes_cycle(inputs, s));
            }
        }
        // Readers: prefixes of the old lists, extended by the new formula.
        assert forall|q: Key| #[trigger] pre.consumers_at(q).len() <= self.consumers_at(q).len()
            && self.consumers_at(q).subrange(0, pre.consumers_at(q).len() as int) == pre.consumers_at(q)
            && (forall|e: int|
                pre.consumers_at(q).len() <= e < self.consumers_at(q).len() ==> (
                #[trigger] self.consumers_at(q)[e]) == FormulaName(id as usize) && inputs.contains(q)) by {
            t.lemma_grown_views(pre, id, inputs, s, q);
        }
        assert(self.consumers_at(s) =~= pre.consumers_at(s)) by {
            if self.consumers_at(s).len() > pre.consumers_at(s).len() {
                let e = pre.consumers_at(s).len() as int;
                assert(self.consumers_at(s)[e] == FormulaName(id as usize));
                assert(inputs.contains(s));
                let j = choose|j: int| 0 <= j < inputs.len() && inputs[j] == s;
                assert(inputs[j] != s);
            }
            assert(self.consumers_at(s).subrange(0, pre.consumers_at(s).len() as int) == pre.consumers_at(s));
        }
        assert forall|q: Key, e: int| 0 <= e < pre.consumers_at(q).len() implies #[trigger] self.consumers_at(q)[e]
            == pre.consumers_at(q)[e] by {
            assert(self.consumers_at(q).subrange(0, pre.consumers_at(q).len() as int)[e] == self.consumers_at(q)[e]);
        }
        // Slot bookkeeping.
        assert forall|f: int, j: int|
            0 <= f < n + 1 && 0 <= j < self.formulae@[f].inputs@.len() implies self.consumers_at(
                #[trigger] self.formulae@[f].inputs@[j],
            ).contains(FormulaName(f as usize)) by {
            let k = self.formulae@[f].inputs@[j];
            if f < n {
                assert(pre.consumers_at(k).contains(FormulaName(f as usize)));
                let e = choose|e: int| 0 <= e < pre.consumers_at(k).len() && pre.consumers_at(k)[e] == FormulaName(f as usize);
                assert(self.consumers_at(k)[e] == pre.consumers_at(k)[e]);
            } else {
                assert(t.consumers_at(inputs[j]).contains(FormulaName(id as usize)));
            }
        }
        assert forall|i: int, c: int|
            0 <= i < self.slots@.len() && 0 <= c < self.slots@[i].consumers@.len() implies {
                let g = (#[trigger] self.slots@[i].consumers@[c]).0 as int;
                0 <= g < n + 1 && self.formulae@[g].inputs@.contains(self.slots@[i].key)
            } by {
            let q = self.slots@[i].key;
            assert(slot_map(self.index)[q] == i);
            assert(self.consumers_at(q)[c] == self.slots@[i].consumers@[c]);
            if c < pre.consumers_at(q).len() {
                assert(self.consumers_at(q)[c] == pre.consumers_at(q)[c]);
                let pi = slot_map(pre.index)[q] as int;
                assert(pre.slots@[pi].consumers@[c] == pre.consumers_at(q)[c]);
                let g = pre.consumers_at(q)[c].0 as int;
                assert(pre.formulae@[g].inputs@.contains(q));
            } else {
                assert(self.consumers_at(q)[c] == FormulaName(id as usize));
                assert(inputs.contains(q));
                assert(self.formulae@[n] == fml);
            }
        }
        // Ranks.
        assert forall|f: int| 0 <= f < n + 1 implies #[trigger] self.rank@[f] < self.cap@ by {
            if f < n {
                assert(pre.rank@[f] < cap0);
            }
        }
        assert forall|f: int, j: int|
            0 <= f < n + 1 && 0 <= j < self.formulae@[f].inputs@.len() implies (self.backing(
                #[trigger] self.formulae@[f].inputs@[j],
            ) matches Some(g) ==> self.rank@[g] < self.rank@[f]) by {
            let k = self.formulae@[f].inputs@[j];
            if f == n {
                assert(k == inputs[j]);
                assert(k != s);
                if let Some(g) = pre.backing(k) {
                    assert(!pre.depends_on(g, s));
                    assert(pre.rank@[g] < cap0);
                }
            } else if k == s {
                assert(pre.formulae@[f].inputs@.contains(s));
                assert(pre.reaches(f, s, 0));
                assert(pre.depends_on(f, s));
            } else {
                if let Some(g) = pre.backing(k) {
                    assert(pre.rank@[g] < pre.rank@[f]);
                    if pre.depends_on(g, s) && !pre.depends_on(f, s) {
                        let st = choose|st: nat| pre.reaches(g, s, st);
                        assert(pre.formula_at(f).inputs@[j] == k);
                        assert(pre.reaches(f, s, st + 1));
                    }
                }
            }
        }
        assert forall|k: Key| #[trigger] self.backing(k) is Some implies 0 <= self.backing(k)->0 < n + 1
            && self.formulae@[self.backing(k)->0].subject == k by {
            if k != s {
                assert(self.backing(k) == pre.backing(k));
            }
        }
        assert forall|f: int| 0 <= f < n + 1 implies (#[trigger] self.formulae@[f]).inputs@.len()
            == self.formulae@[f].inner_fn.arity by {}
        assert forall|f: int, a: Vec<V>|
            0 <= f < n + 1 && a@.len() == self.formulae@[f].inner_fn.arity implies #[trigger] call_requires(
                self.formulae@[f].inner_fn.inner,
                (a,),
            ) by {
            if f < n {
                assert(self.formulae@[f] == pre.formulae@[f]);
            }
        }
        assert forall|q: Key| #[trigger] self.consumers_at(q) == readers_in(self.formulae@, q) by {
            assert(self.formulae@.drop_last() =~= pre.formulae@);
            assert(self.formulae@.last() == fml);
            assert(pre.consumers_at(q) == readers_in(pre.formulae@, q));
        }
        assert(self.structure());
        // Memos: only readers of the subject lose their guarantee.
        assert forall|k: Key| k != s implies #[trigger] self.current(k) == pre.current(k) by {
            assert(self.factor_at(k) == pre.factor_at(k));
            if let Some(g) = pre.backing(k) {
                assert(0 <= g < n);
                assert(self.formula_values@[g] == pre.formula_values@[g]);
            }
        }
        let p = Set::<Key>::empty().insert(s);
        assert forall|f: int, j: int|
            0 <= f < n + 1 && self.is_clean(f) && 0 <= j < self.formulae@[f].inputs@.len()
                && !p.contains(#[trigger] self.formulae@[f].inputs@[j]) implies (self.backing(
            self.formulae@[f].inputs@[j],
        ) matches Some(g) ==> self.is_clean(g)) by {
            let k = self.formulae@[f].inputs@[j];
            assert(f < n);
            assert(pre.is_clean(f));
            assert(k != s);
            assert(self.backing(k) == pre.backing(k));
            assert(!Set::<Key>::empty().contains(k));
        }
        assert forall|f: int|
            0 <= f < n + 1 && #[trigger] self.is_clean(f) && (forall|j: int|
                0 <= j < self.formulae@[f].inputs@.len() ==> !p.contains(
                    #[trigger] self.formulae@[f].inputs@[j],
                )) implies self.computed(f) by {
            assert(f < n);
            assert(pre.is_clean(f));
            assert forall|j: int| 0 <= j < self.formulae@[f].inputs@.len() implies #[trigger] self.current(self.formulae@[f].inputs@[j])
                == pre.current(pre.formulae@[f].inputs@[j]) by {
                assert(!p.contains(self.formulae@[f].inputs@[j]));
            }
            assert(self.input_values(f) =~= pre.input_values(f));
            assert forall|j: int| 0 <= j < pre.formulae@[f].inputs@.len() implies !Set::<Key>::empty().contains(
                #[trigger] pre.formulae@[f].inputs@[j]) by {}
            assert(pre.computed(f));
            let a = choose|a: Vec<V>|
                a@ == pre.input_values(f) && call_ensures(
                    pre.formula_at(f).inner_fn.inner,
                    (a,),
                    pre.value_at(f).cached,
                );
            assert(call_ensures(self.formula_at(f).inner_fn.inner, (a,), self.value_at(f).cached));
        }
        assert(self.memo_except(p));
        // Readers of the subject rank above the new formula.
        assert forall|c: int| 0 <= c < self.consumers_at(s).len() implies cap0 < self.rank@[(
        #[trigger] self.consumers_at(s)[c]).0 as int] by {
            let g = pre.consumers_at(s)[c].0 as int;
            let pi = slot_map(pre.index)[s] as int;
            assert(pre.slots@[pi].consumers@[c] == pre.consumers_at(s)[c]);
            assert(pre.formulae@[g].inputs@.contains(s));
            assert(pre.reaches(g, s, 0));
            assert(pre.depends_on(g, s));
        }
    }

    /// The number the next registered formula will get.
    fn next_formula(&self) -> (r: usize)
        ensures
            r == self.formulae@.len(),
    {
        self.formulae.len()
    }

    /// Registers `formula`: the formula gets the next number, its subject
    /// becomes a derived cell computed by it, and it is recorded as a reader of
    /// each of its inputs. Its memo starts dirty: nothing is computed now.
    /// Everything that depended on the subject is marked dirty.
    ///
    /// Refused, with the system unchanged, when the number of inputs differs
    /// from the function's arity, or when the subject would come to depend on
    /// itself.
    pub fn add_formula(&mut self, formula: Formula<G>) -> (r: Result<FormulaName, FormulaError>)
        requires
            old(self).wf(),
            forall|a: Vec<V>|
                a@.len() == formula.inner_fn.arity ==> #[trigger] call_requires(
                    formula.inner_fn.inner,
                    (a,),
                ),
        ensures
            final(self).wf(),
            formula.inputs@.len() != formula.inner_fn.arity ==> r == Err::<FormulaName, FormulaError>(
                FormulaError::ArityMismatch,
            ) && *final(self) == *old(self),
            formula.inputs@.len() == formula.inner_fn.arity && old(self).closes_cycle(
                formula.inputs@,
                formula.subject,
            ) ==> r == Err::<FormulaName, FormulaError>(FormulaError::CyclicDependency) && *final(self)
                == *old(self),
            formula.inputs@.len() == formula.inner_fn.arity && !old(self).closes_cycle(
                formula.inputs@,
                formula.subject,
            ) ==> {
                let n = old(self).formula_count();
                &&& r == Ok::<FormulaName, FormulaError>(FormulaName(n as usize))
                &&& final(self).formula_count() == n + 1
                &&& final(self).formula_at(n as int) == formula
                &&& !final(self).is_clean(n as int)
                &&& final(self).backing(formula.subject) == Some(n as int)
                &&& final(self).zero_value() == old(self).zero_value()
                &&& forall|q: Key|
                    q != formula.subject ==> #[trigger] final(self).factor_at(q) == old(self).factor_at(q)
                &&& forall|f: int|
                    0 <= f < n ==> #[trigger] final(self).formula_at(f) == old(self).formula_at(f)
                &&& forall|f: int|
                    0 <= f < n ==> (#[trigger] final(self).value_at(f)).cached == old(self).value_at(f).cached
                &&& forall|f: int|
                    0 <= f < n && #[trigger] final(self).is_clean(f) ==> old(self).is_clean(f)
                &&& forall|c: int|
                    0 <= c < old(self).consumers_at(formula.subject).len() ==> !final(self).is_clean((#[trigger] old(self).consumers_at(formula.subject)[c]).0 as int)
                &&& final(self).formula_seq() == old(self).formula_seq().push(formula)
                &&& forall|q: Key|
                    #[trigger] final(self).readers(q) == old(self).readers(q) + repeated(
                        n,
                        occurrences(formula.inputs@, q),
                    )
            },
    {
        if formula.inputs.len() != formula.inner_fn.arity {
            return Err(FormulaError::ArityMismatch);
        }
        let subject = formula.subject;
        let marked = self.dependents_of(&subject);
        let n_in = formula.inputs.len();
        let mut j: usize = 0;
        while j < n_in
            invariant
                self.wf(),
                *self == *old(self),
                formula.inputs@.len() == formula.inner_fn.arity,
                n_in == formula.inputs@.len(),
                subject == formula.subject,
                j <= n_in,
                marked@.len() == self.formula_count(),
                forall|f: int|
                    0 <= f < self.formula_count() ==> #[trigger] marked@[f] == self.depends_on(f, subject),
                forall|i: int|
                    0 <= i < j ==> #[trigger] formula.inputs@[i] != subject && !(self.backing(
                        formula.inputs@[i],
                    ) matches Some(g) && self.depends_on(g, subject)),
            decreases n_in - j,
        {
            let k = formula.inputs[j];
            proof {
                assert(formula.inputs@[j as int] == k);
            }
            if k.0 == subject.0 && k.1 == subject.1 {
                return Err(FormulaError::CyclicDependency);
            }
            match self.find_factor(&k) {
                Some(fac) => match fac.formula {
                    Some(g) => {
                        if marked[g.0] {
                            return Err(FormulaError::CyclicDependency);
                        }
                    },
                    None => {},
                },
                None => {},
            }
            j += 1;
        }
        proof {
            assert(!self.closes_cycle(formula.inputs@, subject));
        }
        let id = self.next_formula();
        let ghost pre = *self;
        let ghost inputs = formula.inputs@;
        let si = self.ensure_slot(&subject);
        let unused = self.zero;
        self.slots[si].factor = Some(Factor::new_formula(FormulaName(id), unused));
        proof {
            assert forall|m: int|
                0 <= m < pre.slots@.len() implies (#[trigger] self.slots@[m]).key == pre.slots@[m].key
                && self.slots@[m].consumers@.len() >= pre.slots@[m].consumers@.len()
                && self.slots@[m].consumers@.subrange(0, pre.slots@[m].consumers@.len() as int)
                == pre.slots@[m].consumers@ && (self.slots@[m].key != subject ==> self.slots@[m].factor
                == pre.slots@[m].factor) by {
                assert(self.slots@[m].consumers@ =~= pre.slots@[m].consumers@.subrange(0, pre.slots@[m].consumers@.len() as int));
            }
            assert forall|m: int, e: int|
                0 <= m < self.slots@.len() && Self::base_len(&pre, m) <= e
                    < self.slots@[m].consumers@.len() implies (#[trigger] self.slots@[m].consumers@[e])
                    == FormulaName(id) && inputs.contains(self.slots@[m].key) by {
                if m < pre.slots@.len() {
                } else {
                }
            }
            assert(self.index_ok());
            assert(self.grown_from(&pre, id as nat, inputs, subject));
            assert forall|q: Key| #[trigger] self.consumers_at(q) == pre.consumers_at(q) + repeated(
                id as nat,
                occurrences(inputs.subrange(0, 0), q),
            ) by {
                assert(occurrences(inputs.subrange(0, 0), q) == 0);
                assert(pre.consumers_at(q) + repeated(id as nat, 0) =~= pre.consumers_at(q));
                if let Some(m) = slot_map(pre.index).get(q) {
                    assert(self.slots@[m as int].consumers@ == pre.slots@[m as int].consumers@);
                }
            }
        }
        let mut j: usize = 0;
        while j < n_in
            invariant
                n_in == inputs.len(),
                inputs == formula.inputs@,
                j <= n_in,
                id == pre.formulae@.len(),
                pre.wf(),
                self.grown_from(&pre, id as nat, inputs, subject),
                self.factor_at(subject) == Some(Factor { level: unused, decay: None, formula: Some(FormulaName(id)) }),
                forall|i: int| 0 <= i < j ==> self.consumers_at(#[trigger] inputs[i]).contains(FormulaName(id)),
                forall|q: Key| #[trigger] self.consumers_at(q) == pre.consumers_at(q) + repeated(
                    id as nat,
                    occurrences(inputs.subrange(0, j as int), q),
                ),
            decreases n_in - j,
        {
            let k = formula.inputs[j];
            let ghost before = *self;
            let i = self.ensure_slot(&k);
            let ghost mid = *self;
            self.slots[i].consumers.push(FormulaName(id));
            proof {
                assert(inputs[j as int] == k);
                assert(inputs.contains(k));
                assert(mid.grown_from(&pre, id as nat, inputs, subject)) by {
                    assert forall|m: int|
                        pre.slots@.len() <= m < mid.slots@.len() implies (#[trigger] mid.slots@[m]).key != subject
                            ==> mid.slots@[m].factor is None by {
                        if m < before.slots@.len() {
                            assert(mid.slots@[m] == before.slots@[m]);
                        }
                    }
                    assert forall|m: int, e: int|
                        0 <= m < mid.slots@.len() && Self::base_len(&pre, m) <= e
                            < mid.slots@[m].consumers@.len() implies (#[trigger] mid.slots@[m].consumers@[e])
                            == FormulaName(id) && inputs.contains(mid.slots@[m].key) by {
                        if m < before.slots@.len() {
                            assert(mid.slots@[m] == before.slots@[m]);
                        }
                    }
                    assert forall|m: int|
                        0 <= m < pre.slots@.len() implies (#[trigger] mid.slots@[m]).key == pre.slots@[m].key
                            && mid.slots@[m].consumers@.len() >= pre.slots@[m].consumers@.len()
                            && mid.slots@[m].consumers@.subrange(0, pre.slots@[m].consumers@.len() as int)
                            == pre.slots@[m].consumers@ && (mid.slots@[m].key != subject ==> mid.slots@[m].factor
                            == pre.slots@[m].factor) by {
                        assert(mid.slots@[m] == before.slots@[m]);
                    }
                }
                assert forall|m: int| 0 <= m < self.slots@.len() && m != i implies #[trigger] self.slots@[m]
                    == mid.slots@[m] by {}
                assert(self.slots@[i as int].consumers@ == mid.slots@[i as int].consumers@.push(FormulaName(id)));
                assert(self.grown_from(&pre, id as nat, inputs, subject)) by {
                    assert forall|m: int|
                        0 <= m < pre.slots@.len() implies (#[trigger] self.slots@[m]).key == pre.slots@[m].key
                            && self.slots@[m].consumers@.len() >= pre.slots@[m].consumers@.len()
                            && self.slots@[m].consumers@.subrange(0, pre.slots@[m].consumers@.len() as int)
                            == pre.slots@[m].consumers@ && (self.slots@[m].key != subject ==> self.slots@[m].factor
                            == pre.slots@[m].factor) by {
                        assert(mid.slots@[m].key == pre.slots@[m].key);
                        if m == i {
                            assert(self.slots@[m].consumers@.subrange(0, pre.slots@[m].consumers@.len() as int)
                                =~= mid.slots@[m].consumers@.subrange(0, pre.slots@[m].consumers@.len() as int));
                        }
                    }
                    assert forall|m: int, e: int|
                        0 <= m < self.slots@.len() && Self::base_len(&pre, m) <= e
                            < self.slots@[m].consumers@.len() implies (#[trigger] self.slots@[m].consumers@[e])
                            == FormulaName(id) && inputs.contains(self.slots@[m].key) by {
                        if m == i {
                            if e < mid.slots@[m].consumers@.len() {
                                assert(self.slots@[m].consumers@[e] == mid.slots@[m].consumers@[e]);
                            }
                        }
                    }
                    assert forall|m: int|
                        pre.slots@.len() <= m < self.slots@.len() implies (#[trigger] self.slots@[m]).key != subject
                            ==> self.slots@[m].factor is None by {
                        assert(self.slots@[m].factor == mid.slots@[m].factor);
                    }
                    assert(self.index_ok()) by {
                        assert forall|m: int| 0 <= m < self.slots@.len() implies #[trigger] self.slots@[m].key == mid.slots@[m].key by {}
                    }
                }
                assert(self.factor_at(subject) == mid.factor_at(subject));
                assert forall|q: Key| mid.consumers_at(q).contains(FormulaName(id)) implies #[trigger] self.consumers_at(q).contains(FormulaName(id)) by {
                    let e = choose|e: int| 0 <= e < mid.consumers_at(q).len() && mid.consumers_at(q)[e] == FormulaName(id);
                    let m = slot_map(self.index)[q] as int;
                    if m == i {
                        assert(self.consumers_at(q)[e] == mid.consumers_at(q)[e]);
                    } else {
                        assert(self.slots@[m] == mid.slots@[m]);
                    }
                }
                assert(self.consumers_at(k).contains(FormulaName(id))) by {
                    assert(slot_map(self.index)[k] == i);
                    assert(self.consumers_at(k)[self.consumers_at(k).len() - 1] == FormulaName(id));
                }
                assert forall|q: Key| #[trigger] self.consumers_at(q) == pre.consumers_at(q) + repeated(
                    id as nat,
                    occurrences(inputs.subrange(0, j + 1), q),
                ) by {
                    assert(inputs.subrange(0, j + 1).drop_last() =~= inputs.subrange(0, j as int));
                    assert(inputs.subrange(0, j + 1).last() == k);
                    assert(mid.consumers_at(q) == before.consumers_at(q));
                    let c = occurrences(inputs.subrange(0, j as int), q);
                    if q == k {
                        assert(slot_map(self.index)[k] == i);
                        assert(self.consumers_at(k) == mid.consumers_at(k).push(FormulaName(id)));
                        assert(pre.consumers_at(q) + repeated(id as nat, c + 1) =~= (pre.consumers_at(q)
                            + repeated(id as nat, c)).push(FormulaName(id)));
                    } else {
                        if let Some(m) = slot_map(self.index).get(q) {
                            assert(self.slots@[m as int].key == q);
                            assert(m != i);
                            assert(self.slots@[m as int] == mid.slots@[m as int]);
                        }
                        assert(self.consumers_at(q) == mid.consumers_at(q));
                    }
                }
                assert forall|x: int| 0 <= x < j + 1 implies self.consumers_at(#[trigger] inputs[x]).contains(FormulaName(id)) by {
                    if x < j {
                        assert(before.consumers_at(inputs[x]).contains(FormulaName(id)));
                        assert(mid.consumers_at(inputs[x]) == before.consumers_at(inputs[x]));
                    }
                }
            }
            j += 1;
        }
        proof {
            assert(inputs.subrange(0, n_in as int) =~= inputs);
        }
        let ghost cap0 = self.cap@;
        let ghost t = *self;
        let ghost fml = formula;
        self.rank = Ghost(
            Seq::new(
                (id + 1) as nat,
                |f: int|
                    if f == id as int {
                        cap0
                    } else if pre.depends_on(f, subject) {
                        pre.rank@[f] + cap0 + 1
                    } else {
                        pre.rank@[f]
                    },
            ),
        );
        self.cap = Ghost(2 * cap0 + 1);
        self.formulae.push(formula);
        self.formula_values.push(FormulaValue { cached: unused, dirty: true });
        proof {
            self.lemma_registered(&pre, &t, fml, id as nat, subject, cap0);
        }
        let ghost reg = *self;
        self.propagate_changes(&subject, Ghost(Set::empty()), Ghost(cap0 as int));
        proof {
            assert(pre == *old(self));
            let n = id as int;
            assert forall|q: Key| #[trigger] self.factor_at(q) == reg.factor_at(q) by {}
            assert forall|q: Key| #[trigger] self.consumers_at(q) == reg.consumers_at(q) by {}
            assert(self.formula_at(n) == formula);
            assert(!reg.is_clean(n));
            assert(!self.is_clean(n));
            assert(self.backing(subject) == Some(n));
            assert forall|q: Key| q != formula.subject implies #[trigger] self.factor_at(q) == pre.factor_at(q) by {
                t.lemma_grown_views(&pre, id as nat, inputs, subject, q);
            }
            assert forall|f: int| 0 <= f < n implies #[trigger] self.formula_at(f) == pre.formula_at(f) by {}
            assert forall|f: int| 0 <= f < n implies (#[trigger] self.value_at(f)).cached == pre.value_at(f).cached by {
                assert(reg.value_at(f) == pre.value_at(f));
            }
            assert forall|f: int| 0 <= f < n && #[trigger] self.is_clean(f) implies pre.is_clean(f) by {
                assert(reg.value_at(f) == pre.value_at(f));
            }
            assert(self.formula_seq() =~= pre.formula_seq().push(formula));
            assert forall|q: Key| #[trigger] self.readers(q) == pre.readers(q) + repeated(
                n as nat,
                occurrences(formula.inputs@, q),
            ) by {
                assert(self.formula_seq().drop_last() =~= pre.formula_seq());
            }
        }
        Ok(FormulaName(id))
    }

    /// Propagation is complete: below a clean memo, every formula that it
    /// depends on, however indirectly, is clean too and agrees with the current
    /// values of its own inputs. So once a derived key is read, everything it
    /// is computed from reflects the latest writes.
    pub proof fn lemma_clean_reaches_clean(&self, f: int, k: Key, steps: nat)
        requires
            self.wf(),
            0 <= f < self.formula_count(),
            self.is_clean(f),
            self.reaches(f, k, steps),
        ensures
            self.backing(k) matches Some(g) ==> self.is_clean(g) && self.computed(g),
        decreases steps,
    {
        self.lemma_clean_is_consistent(f);
        if self.formula_at(f).inputs@.contains(k) {
            let j = choose|j: int| 0 <= j < self.formula_at(f).inputs@.len() && self.formula_at(f).inputs@[j] == k;
            assert(self.settled(self.formula_at(f).inputs@[j]));
            if let Some(g) = self.backing(k) {
                assert(0 <= g < self.formula_count());
                self.lemma_clean_is_consistent(g);
            }
        } else {
            let j = choose|j: int|
                0 <= j < self.formula_at(f).inputs@.len() && (self.backing(
                    #[trigger] self.formula_at(f).inputs@[j],
                ) matches Some(g) && self.reaches(g, k, (steps - 1) as nat));
            let g = self.backing(self.formula_at(f).inputs@[j])->0;
            assert(self.settled(self.formula_at(f).inputs@[j]));
            assert(0 <= g < self.formula_count());
            self.lemma_clean_reaches_clean(g, k, (steps - 1) as nat);
        }
    }

    /// The value of `k`: the zero if `k` holds no cell, the level of a leaf, and
    /// for a derived cell the result of its formula, taken from the memo when
    /// that is clean and recomputed (with the memos it depends on) when dirty.
    pub fn get_factor(&mut self, k: &Key) -> (r: V)
        requires
            old(self).wf(),
        ensures
            final(self).wf(),
            final(self).read_successor(old(self)),
            old(self).settled(*k) ==> *final(self) == *old(self),
            old(self).factor_at(*k) is None ==> r == old(self).zero_value(),
            final(self).settled(*k),
            r == final(self).current(*k),
            final(self).backing(*k) matches Some(f) ==> final(self).computed(f),
    {
        let r = self.eval_key(k, Ghost(self.cap@));
        proof {
            if let Some(f) = self.backing(*k) {
                self.lemma_clean_is_consistent(f);
            }
        }
        r
    }

    /// The formula that computes `k`; an error when `k` is not derived.
    pub fn get_formula(&self, k: &Key) -> (r: Result<FormulaName, FormulaError>)
        requires
            self.wf(),
        ensures
            match self.backing(*k) {
                Some(f) => r == Ok::<FormulaName, FormulaError>(FormulaName(f as usize)),
                None => r == Err::<FormulaName, FormulaError>(FormulaError::NotAFormula),
            },
    {
        match self.find_factor(k) {
            Some(fac) => match fac.formula {
                Some(id) => Ok(id),
                None => Err(FormulaError::NotAFormula),
            },
            None => Err(FormulaError::NotAFormula),
        }
    }

    /// The reader list kept for `k` holds exactly the formulas that read `k`,
    /// in increasing order of number, once per occurrence of `k` among inputs.
    pub proof fn lemma_readers_exact(&self, k: Key)
        requires
            self.wf(),
        ensures
            self.consumers_at(k) == self.readers(k),
    {
    }

    /// A derived key is computed by a registered formula whose subject it is.
    pub proof fn lemma_backing_registered(&self, k: Key)
        requires
            self.wf(),
        ensures
            self.backing(k) matches Some(f) ==> 0 <= f < self.formula_count()
                && self.formula_at(f).subject == k,
    {
    }

    /// Reading is stable: once `k` is settled, further reads (which may settle
    /// other keys) leave its value as it is.
    pub proof fn lemma_read_is_stable(s1: &Self, s2: &Self, k: Key)
        requires
            s1.wf(),
            s1.settled(k),
            s2.read_successor(s1),
        ensures
            s2.settled(k),
            s2.current(k) == s1.current(k),
    {
        assert(s2.factor_at(k) == s1.factor_at(k));
        if let Some(f) = s1.backing(k) {
            assert(s1.formula_count() == s2.formula_count());
            assert(s1.is_clean(f));
            assert(s2.value_at(f) == s1.value_at(f));
        }
    }

    /// A clean memo is the result of its formula on the current values of its
    /// inputs, and every input is itself settled: clean memos never rest on
    /// stale ones.
    pub proof fn lemma_clean_is_consistent(&self, f: int)
        requires
            self.wf(),
            0 <= f < self.formula_count(),
            self.is_clean(f),
        ensures
            self.computed(f),
            forall|j: int|
                0 <= j < self.formula_at(f).inputs@.len() ==> self.settled(
                    #[trigger] self.formula_at(f).inputs@[j],
                ),
    {
        assert forall|j: int| 0 <= j < self.formulae@[f].inputs@.len() implies !Set::<Key>::empty().contains(
            #[trigger] self.formulae@[f].inputs@[j]) by {}
        assert forall|j: int|
            0 <= j < self.formula_at(f).inputs@.len() implies self.settled(
                #[trigger] self.formula_at(f).inputs@[j],
            ) by {
            assert(!Set::<Key>::empty().contains(self.formulae@[f].inputs@[j]));
        }
    }
}

impl<V: Copy + core::ops::Add<Output = V>, G: Fn(Vec<V>) -> V> FormulaSystem<V, G> {
    /// Adds `amount` to the level of the leaf `k`, then marks dirty every memo
    /// that depends on `k`. On a derived or unregistered key nothing happens.
    pub fn add_factor(&mut self, k: &Key, amount: V)
        requires
            old(self).wf(),
            old(self).factor_at(*k) matches Some(fac) ==> (fac.formula is None ==> fac.level.add_req(amount)),
        ensures
            final(self).wf(),
            !(old(self).factor_at(*k) matches Some(fac) && fac.formula is None) ==> *final(self)
                == *old(self),
            match old(self).factor_at(*k) {
                Some(fac) => if fac.formula is None {
                    final(self).factor_at(*k) matches Some(nf) && nf.formula is None && nf.decay
                        == fac.decay && (V::obeys_add_spec() ==> nf.level == fac.level.add_spec(
                        amount,
                    ))
                } else {
                    final(self).factor_at(*k) == Some(fac)
                },
                None => final(self).factor_at(*k) is None,
            },
            forall|q: Key| q != *k ==> #[trigger] final(self).factor_at(q) == old(self).factor_at(q),
            forall|q: Key| #[trigger] final(self).consumers_at(q) == old(self).consumers_at(q),
            final(self).formula_count() == old(self).formula_count(),
            forall|f: int|
                0 <= f < old(self).formula_count() ==> #[trigger] final(self).formula_at(f)
                    == old(self).formula_at(f),
            final(self).zero_value() == old(self).zero_value(),
            forall|f: int|
                0 <= f < old(self).formula_count() ==> (#[trigger] final(self).value_at(f)).cached
                    == old(self).value_at(f).cached,
            forall|f: int|
                0 <= f < old(self).formula_count() && #[trigger] final(self).is_clean(f)
                    ==> old(self).is_clean(f),
            old(self).factor_at(*k) matches Some(fac) && fac.formula is None ==> forall|c: int|
                0 <= c < old(self).consumers_at(*k).len() ==> !final(self).is_clean(
                    (#[trigger] old(self).consumers_at(*k)[c]).0 as int,
                ),
    {
        let fac = self.find_factor(k);
        match fac {
            Some(f) => {
                if f.formula.is_none() {
                    let updated = Factor { level: f.level + amount, decay: f.decay, formula: None };
                    self.put_leaf(k, updated);
                    self.settle_after_write(k);
                }
            },
            None => {},
        }
    }
}

} // verus!
