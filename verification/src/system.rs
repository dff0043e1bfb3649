//! The constraint sink: an append-only set of polynomial equality assertions
//! over variables holding residues, together with the witness assignment that
//! the build pass computes for them.
//!
//! The capability interface is deliberately small — allocate, add, multiply,
//! add or multiply by a constant, and assert-zero — so that every gadget is
//! written against it alone.  Each building step appends the defining
//! constraint of the value it just computed, so the definitional constraints
//! always hold of the recorded assignment; only [`ConstraintSet::assert_zero`]
//! can make the set unsatisfied.

use vstd::prelude::*;

use crate::field;
use crate::field::MODULUS;

verus! {

/// Opaque handle to one variable of the constraint set.
#[derive(Clone, Copy, Debug)]
pub struct Variable {
    pub idx: usize,
}

/// Whether a variable is part of the public input or of the private witness.
#[derive(Clone, Copy, Debug)]
pub enum Visibility {
    Public,
    Private,
}

/// One polynomial equality assertion.  All arithmetic is modulo
/// [`MODULUS`]; `a`, `b`, `c` are variable indices and `k` a constant residue.
#[derive(Clone, Copy, Debug)]
pub enum Constraint {
    /// `w[c] == w[a] + w[b]`
    Add { a: usize, b: usize, c: usize },
    /// `w[c] == w[a] + k`
    AddConst { a: usize, k: u64, c: usize },
    /// `w[c] == w[a] * w[b]`
    Mul { a: usize, b: usize, c: usize },
    /// `w[c] == k * w[a]`
    MulConst { a: usize, k: u64, c: usize },
    /// `w[a] == 0`
    AssertZero { a: usize },
}

/// Do all indices of the constraint point below `n`, and is its constant,
/// if any, a canonical residue?
pub open spec fn c_bounded(c: Constraint, n: nat) -> bool {
    match c {
        Constraint::Add { a, b, c } => a < n && b < n && c < n,
        Constraint::AddConst { a, k, c } => a < n && c < n && k < MODULUS,
        Constraint::Mul { a, b, c } => a < n && b < n && c < n,
        Constraint::MulConst { a, k, c } => a < n && c < n && k < MODULUS,
        Constraint::AssertZero { a } => a < n,
    }
}

/// Does the assignment `w` satisfy the constraint?
pub open spec fn constraint_holds(c: Constraint, w: Seq<u64>) -> bool {
    match c {
        Constraint::Add { a, b, c } => w[c as int] == (w[a as int] + w[b as int]) % (
        MODULUS as int),
        Constraint::AddConst { a, k, c } => w[c as int] == (w[a as int] + k) % (MODULUS as int),
        Constraint::Mul { a, b, c } => w[c as int] == (w[a as int] * w[b as int]) % (
        MODULUS as int),
        Constraint::MulConst { a, k, c } => w[c as int] == (k * w[a as int]) % (MODULUS as int),
        Constraint::AssertZero { a } => w[a as int] == 0,
    }
}

/// Does the assignment `w` satisfy every constraint of the sequence?
pub open spec fn all_hold(cs: Seq<Constraint>, w: Seq<u64>) -> bool {
    forall|i: int| 0 <= i < cs.len() ==> constraint_holds(#[trigger] cs[i], w)
}

/// The accumulating constraint set.
pub struct ConstraintSet {
    values: Vec<u64>,
    visibility: Vec<Visibility>,
    constraints: Vec<Constraint>,
    frozen: bool,
}

impl ConstraintSet {
    /// The witness assignment recorded so far, one residue per variable.
    pub closed spec fn vals(self) -> Seq<u64> {
        self.values@
    }

    /// The visibility tag of each variable.
    pub closed spec fn vis(self) -> Seq<Visibility> {
        self.visibility@
    }

    /// The constraints accumulated so far.
    pub closed spec fn cons(self) -> Seq<Constraint> {
        self.constraints@
    }

    /// Frozen sets accept no further building step.
    pub closed spec fn is_frozen(self) -> bool {
        self.frozen
    }

    pub open spec fn num_vars(self) -> nat {
        self.vals().len()
    }

    /// The recorded value of a variable, as an integer.
    pub open spec fn val(self, v: Variable) -> int {
        self.vals()[v.idx as int] as int
    }

    pub open spec fn wf(self) -> bool {
        &&& self.vis().len() == self.vals().len()
        &&& forall|i: int| 0 <= i < self.vals().len() ==> #[trigger] self.vals()[i] < MODULUS
        &&& forall|i: int|
            0 <= i < self.cons().len() ==> c_bounded(#[trigger] self.cons()[i], self.vals().len())
    }

    /// Does an assignment satisfy every constraint of the set?
    pub open spec fn satisfied_with(self, w: Seq<u64>) -> bool {
        all_hold(self.cons(), w)
    }

    /// Does the recorded witness assignment satisfy every constraint?
    pub open spec fn satisfied(self) -> bool {
        self.satisfied_with(self.vals())
    }

    /// Is there any assignment satisfying every constraint?
    pub open spec fn satisfiable(self) -> bool {
        exists|w: Seq<u64>| self.satisfied_with(w)
    }

    /// The set grew out of `prev` by appending variables and constraints.
    pub open spec fn extends(self, prev: Self) -> bool {
        &&& self.vals().len() >= prev.vals().len()
        &&& forall|i: int|
            #![trigger self.vals()[i]]
            #![trigger prev.vals()[i]]
            0 <= i < prev.vals().len() ==> self.vals()[i] == prev.vals()[i]
        &&& self.cons().len() >= prev.cons().len()
        &&& forall|i: int|
            #![trigger self.cons()[i]]
            #![trigger prev.cons()[i]]
            0 <= i < prev.cons().len() ==> self.cons()[i] == prev.cons()[i]
        &&& self.vis().len() >= prev.vis().len()
        &&& forall|i: int|
            #![trigger self.vis()[i]]
            #![trigger prev.vis()[i]]
            0 <= i < prev.vis().len() ==> self.vis()[i] == prev.vis()[i]
    }

    /// Every variable beyond those of `prev` is part of the private witness.
    pub open spec fn only_private_added(self, prev: Self) -> bool {
        forall|i: int|
            prev.vis().len() <= i < self.vis().len() ==> #[trigger] self.vis()[i]
                is Private
    }

    /// An empty, satisfied constraint set.
    pub fn new() -> (r: ConstraintSet)
        ensures
            r.wf(),
            !r.is_frozen(),
            r.num_vars() == 0,
            r.cons().len() == 0,
            r.vis().len() == 0,
            r.satisfied(),
    {
        ConstraintSet { values: Vec::new(), visibility: Vec::new(), constraints: Vec::new(), frozen: false }
    }

    /// Bind a fresh variable to `value` with the given visibility tag.
    pub fn allocate(&mut self, value: u64, visibility: Visibility) -> (v: Variable)
        requires
            old(self).wf(),
            !old(self).is_frozen(),
            value < MODULUS,
        ensures
            final(self).wf(),
            !final(self).is_frozen(),
            final(self).extends(*old(self)),
            final(self).vals() == old(self).vals().push(value),
            final(self).vis() == old(self).vis().push(visibility),
            final(self).cons() == old(self).cons(),
            v.idx == old(self).num_vars(),
            final(self).satisfied() == old(self).satisfied(),
    {
        let v = Variable { idx: self.values.len() };
        self.values.push(value);
        self.visibility.push(visibility);
        proof {
            lemma_eval_stable(old(self).cons(), old(self).vals(), self.vals());
        }
        v
    }

    /// New variable constrained (and set) to `w[a] + w[b]`.
    pub fn add(&mut self, a: Variable, b: Variable) -> (c: Variable)
        requires
            old(self).wf(),
            !old(self).is_frozen(),
            a.idx < old(self).num_vars(),
            b.idx < old(self).num_vars(),
        ensures
            final(self).wf(),
            !final(self).is_frozen(),
            final(self).extends(*old(self)),
            final(self).only_private_added(*old(self)),
            final(self).num_vars() == old(self).num_vars() + 1,
            c.idx == old(self).num_vars(),
            final(self).val(c) == (old(self).val(a) + old(self).val(b)) % (MODULUS as int),
            final(self).satisfied() == old(self).satisfied(),
    {
        let value = field::add_mod(self.values[a.idx], self.values[b.idx]);
        let c = Variable { idx: self.values.len() };
        self.values.push(value);
        self.visibility.push(Visibility::Private);
        self.constraints.push(Constraint::Add { a: a.idx, b: b.idx, c: c.idx });
        proof {
            lemma_eval_stable(old(self).cons(), old(self).vals(), self.vals());
            lemma_all_hold_push(
                old(self).cons(),
                Constraint::Add { a: a.idx, b: b.idx, c: c.idx },
                self.vals(),
            );
        }
        c
    }

    /// New variable constrained (and set) to `w[a] + k`.
    pub fn add_const(&mut self, a: Variable, k: u64) -> (c: Variable)
        requires
            old(self).wf(),
            !old(self).is_frozen(),
            a.idx < old(self).num_vars(),
            k < MODULUS,
        ensures
            final(self).wf(),
            !final(self).is_frozen(),
            final(self).extends(*old(self)),
            final(self).only_private_added(*old(self)),
            final(self).num_vars() == old(self).num_vars() + 1,
            c.idx == old(self).num_vars(),
            final(self).val(c) == (old(self).val(a) + k) % (MODULUS as int),
            final(self).satisfied() == old(self).satisfied(),
    {
        let value = field::add_mod(self.values[a.idx], k);
        let c = Variable { idx: self.values.len() };
        self.values.push(value);
        self.visibility.push(Visibility::Private);
        self.constraints.push(Constraint::AddConst { a: a.idx, k, c: c.idx });
        proof {
            lemma_eval_stable(old(self).cons(), old(self).vals(), self.vals());
            lemma_all_hold_push(
                old(self).cons(),
                Constraint::AddConst { a: a.idx, k, c: c.idx },
                self.vals(),
            );
        }
        c
    }

    /// New variable constrained (and set) to `w[a] * w[b]`.
    pub fn mul(&mut self, a: Variable, b: Variable) -> (c: Variable)
        requires
            old(self).wf(),
            !old(self).is_frozen(),
            a.idx < old(self).num_vars(),
            b.idx < old(self).num_vars(),
        ensures
            final(self).wf(),
            !final(self).is_frozen(),
            final(self).extends(*old(self)),
            final(self).only_private_added(*old(self)),
            final(self).num_vars() == old(self).num_vars() + 1,
            c.idx == old(self).num_vars(),
            final(self).val(c) == (old(self).val(a) * old(self).val(b)) % (MODULUS as int),
            final(self).satisfied() == old(self).satisfied(),
    {
        let value = field::mul_mod(self.values[a.idx], self.values[b.idx]);
        let c = Variable { idx: self.values.len() };
        self.values.push(value);
        self.visibility.push(Visibility::Private);
        self.constraints.push(Constraint::Mul { a: a.idx, b: b.idx, c: c.idx });
        proof {
            lemma_eval_stable(old(self).cons(), old(self).vals(), self.vals());
            lemma_all_hold_push(
                old(self).cons(),
                Constraint::Mul { a: a.idx, b: b.idx, c: c.idx },
                self.vals(),
            );
        }
        c
    }

    /// New variable constrained (and set) to `k * w[a]`.
    pub fn mul_const(&mut self, a: Variable, k: u64) -> (c: Variable)
        requires
            old(self).wf(),
            !old(self).is_frozen(),
            a.idx < old(self).num_vars(),
            k < MODULUS,
        ensures
            final(self).wf(),
            !final(self).is_frozen(),
            final(self).extends(*old(self)),
            final(self).only_private_added(*old(self)),
            final(self).num_vars() == old(self).num_vars() + 1,
            c.idx == old(self).num_vars(),
            final(self).val(c) == (k * old(self).val(a)) % (MODULUS as int),
            final(self).satisfied() == old(self).satisfied(),
    {
        let value = field::mul_mod(k, self.values[a.idx]);
        let c = Variable { idx: self.values.len() };
        self.values.push(value);
        self.visibility.push(Visibility::Private);
        self.constraints.push(Constraint::MulConst { a: a.idx, k, c: c.idx });
        proof {
            lemma_eval_stable(old(self).cons(), old(self).vals(), self.vals());
            lemma_all_hold_push(
                old(self).cons(),
                Constraint::MulConst { a: a.idx, k, c: c.idx },
                self.vals(),
            );
        }
        c
    }

    /// Assert that `w[a]` is zero.  The one step that can make the recorded
    /// assignment unsatisfying.
    pub fn assert_zero(&mut self, a: Variable)
        requires
            old(self).wf(),
            !old(self).is_frozen(),
            a.idx < old(self).num_vars(),
        ensures
            final(self).wf(),
            !final(self).is_frozen(),
            final(self).extends(*old(self)),
            final(self).only_private_added(*old(self)),
            final(self).vals() == old(self).vals(),
            final(self).vis() == old(self).vis(),
            final(self).num_vars() == old(self).num_vars(),
            final(self).satisfied() == (old(self).satisfied() && old(self).val(a) == 0),
    {
        self.constraints.push(Constraint::AssertZero { a: a.idx });
        proof {
            lemma_all_hold_push(
                old(self).cons(),
                Constraint::AssertZero { a: a.idx },
                self.vals(),
            );
        }
    }

    /// Freeze the set: no further variable or constraint may be added.
    pub fn freeze(&mut self)
        requires
            old(self).wf(),
        ensures
            final(self).wf(),
            final(self).is_frozen(),
            final(self).vals() == old(self).vals(),
            final(self).vis() == old(self).vis(),
            final(self).cons() == old(self).cons(),
            final(self).satisfied() == old(self).satisfied(),
    {
        self.frozen = true;
        proof {
            assert(self.vals() == old(self).vals());
            assert(self.cons() == old(self).cons());
            assert(self.vis() == old(self).vis());
        }
    }

    /// The recorded value of a variable.
    pub fn value_of(&self, v: Variable) -> (r: u64)
        requires
            self.wf(),
            v.idx < self.num_vars(),
        ensures
            r == self.val(v),
            r < MODULUS,
    {
        self.values[v.idx]
    }

    /// The values of the public variables, in allocation order.
    pub open spec fn public_inputs_spec(self) -> Seq<u64> {
        pub_inputs_of(self.vals(), self.vis())
    }

    /// Collect the values of the public variables, in allocation order.
    pub fn public_inputs(&self) -> (r: Vec<u64>)
        requires
            self.wf(),
        ensures
            r@ == self.public_inputs_spec(),
    {
        let n = self.values.len();
        let mut out: Vec<u64> = Vec::new();
        let mut i: usize = 0;
        while i < n
            invariant
                self.wf(),
                n == self.vals().len(),
                i <= n,
                out@ == pub_inputs_of(self.vals().take(i as int), self.vis().take(i as int)),
            decreases n - i,
        {
            let ghost pv = self.vals().take(i as int);
            let ghost pvis = self.vis().take(i as int);
            match self.visibility[i] {
                Visibility::Public => {
                    out.push(self.values[i]);
                },
                Visibility::Private => {},
            }
            proof {
                let nv = self.vals().take(i + 1);
                let nvis = self.vis().take(i + 1);
                assert(nv.drop_last() =~= pv);
                assert(nvis.drop_last() =~= pvis);
                assert(nv.last() == self.vals()[i as int]);
                assert(nvis.last() == self.vis()[i as int]);
                assert(out@ == pub_inputs_of(nv, nvis));
            }
            i = i + 1;
        }
        proof {
            assert(self.vals().take(n as int) =~= self.vals());
            assert(self.vis().take(n as int) =~= self.vis());
        }
        out
    }

    /// How many variables have been allocated.
    pub fn num_variables(&self) -> (r: usize)
        ensures
            r == self.num_vars(),
    {
        self.values.len()
    }

    /// How many constraints have been appended.
    pub fn num_constraints(&self) -> (r: usize)
        ensures
            r == self.cons().len(),
    {
        self.constraints.len()
    }

    /// Whether the set has been frozen.
    pub fn frozen_flag(&self) -> (r: bool)
        ensures
            r == self.is_frozen(),
    {
        self.frozen
    }

    /// Evaluate every constraint on the recorded assignment.
    pub fn is_satisfied(&self) -> (r: bool)
        requires
            self.wf(),
        ensures
            r == self.satisfied(),
    {
        let n = self.constraints.len();
        let mut i: usize = 0;
        while i < n
            invariant
                self.wf(),
                n == self.cons().len(),
                i <= n,
                forall|j: int| 0 <= j < i ==> constraint_holds(#[trigger] self.cons()[j], self.vals()),
            decreases n - i,
        {
            let ok = match self.constraints[i] {
                Constraint::Add { a, b, c } => {
                    self.values[c] == field::add_mod(self.values[a], self.values[b])
                },
                Constraint::AddConst { a, k, c } => {
                    self.values[c] == field::add_mod(self.values[a], k)
                },
                Constraint::Mul { a, b, c } => {
                    self.values[c] == field::mul_mod(self.values[a], self.values[b])
                },
                Constraint::MulConst { a, k, c } => {
                    self.values[c] == field::mul_mod(k, self.values[a])
                },
                Constraint::AssertZero { a } => self.values[a] == 0,
            };
            if !ok {
                return false;
            }
            i = i + 1;
        }
        true
    }
}

/// The values of the public variables, in allocation order.
pub open spec fn pub_inputs_of(vals: Seq<u64>, vis: Seq<Visibility>) -> Seq<u64>
    decreases vals.len(),
{
    if vals.len() == 0 {
        Seq::empty()
    } else {
        pub_inputs_of(vals.drop_last(), vis.drop_last()) + (if vis.last() is Public {
            seq![vals.last()]
        } else {
            Seq::empty()
        })
    }
}

/// When the public variables are exactly the first `n`, the public inputs
/// are the first `n` values in order.
pub proof fn lemma_pub_inputs_prefix(vals: Seq<u64>, vis: Seq<Visibility>, n: int)
    requires
        vis.len() == vals.len(),
        0 <= n <= vals.len(),
        forall|i: int| 0 <= i < vis.len() ==> ((#[trigger] vis[i]) is Public <==> i < n),
    ensures
        pub_inputs_of(vals, vis) == vals.take(n),
    decreases vals.len(),
{
    if vals.len() == 0 {
        assert(pub_inputs_of(vals, vis) =~= vals.take(n));
    } else if n == vals.len() {
        lemma_pub_inputs_prefix(vals.drop_last(), vis.drop_last(), n - 1);
        assert(vis.last() is Public);
        assert(pub_inputs_of(vals, vis) =~= vals.take(n));
    } else {
        lemma_pub_inputs_prefix(vals.drop_last(), vis.drop_last(), n);
        assert(!(vis.last() is Public));
        assert(vals.drop_last().take(n) =~= vals.take(n));
        assert(pub_inputs_of(vals, vis) =~= vals.take(n));
    }
}

/// When exactly one variable is public, the public inputs are its value
/// alone.
pub proof fn lemma_pub_inputs_single(vals: Seq<u64>, vis: Seq<Visibility>, c: int)
    requires
        vis.len() == vals.len(),
        0 <= c < vals.len(),
        forall|i: int| 0 <= i < vis.len() ==> ((#[trigger] vis[i]) is Public <==> i == c),
    ensures
        pub_inputs_of(vals, vis) == seq![vals[c]],
    decreases vals.len(),
{
    if c == vals.len() - 1 {
        assert(vis.last() is Public);
        assert forall|i: int| 0 <= i < vis.drop_last().len() implies !((#[trigger] vis.drop_last()[i])
            is Public) by {
            assert(vis.drop_last()[i] == vis[i]);
        }
        lemma_pub_inputs_none(vals.drop_last(), vis.drop_last());
        assert(pub_inputs_of(vals, vis) =~= seq![vals[c]]);
    } else {
        assert(!(vis.last() is Public));
        lemma_pub_inputs_single(vals.drop_last(), vis.drop_last(), c);
        assert(vals.drop_last()[c] == vals[c]);
        assert(pub_inputs_of(vals, vis) =~= seq![vals[c]]);
    }
}

/// With no public variable there is no public input.
pub proof fn lemma_pub_inputs_none(vals: Seq<u64>, vis: Seq<Visibility>)
    requires
        vis.len() == vals.len(),
        forall|i: int| 0 <= i < vis.len() ==> !((#[trigger] vis[i]) is Public),
    ensures
        pub_inputs_of(vals, vis) == Seq::<u64>::empty(),
    decreases vals.len(),
{
    if vals.len() > 0 {
        lemma_pub_inputs_none(vals.drop_last(), vis.drop_last());
        assert(pub_inputs_of(vals, vis) =~= Seq::<u64>::empty());
    }
}

/// Constraints reading only below `w0.len()` evaluate alike on `w0` and on
/// any extension of it.
proof fn lemma_eval_stable(cs: Seq<Constraint>, w0: Seq<u64>, w1: Seq<u64>)
    requires
        w1.len() >= w0.len(),
        forall|i: int| 0 <= i < w0.len() ==> w1[i] == #[trigger] w0[i],
        forall|i: int| 0 <= i < cs.len() ==> c_bounded(#[trigger] cs[i], w0.len()),
    ensures
        all_hold(cs, w1) == all_hold(cs, w0),
{
    assert forall|i: int| 0 <= i < cs.len() implies constraint_holds(#[trigger] cs[i], w1)
        == constraint_holds(cs[i], w0) by {
        assert(c_bounded(cs[i], w0.len()));
    }
}

/// Appending one constraint conjoins its own satisfaction.
proof fn lemma_all_hold_push(cs: Seq<Constraint>, c: Constraint, w: Seq<u64>)
    ensures
        all_hold(cs.push(c), w) == (all_hold(cs, w) && constraint_holds(c, w)),
{
    let cs1 = cs.push(c);
    assert(cs1[cs.len() as int] == c);
    assert forall|i: int| 0 <= i < cs.len() implies cs1[i] == #[trigger] cs[i] by {}
    if all_hold(cs, w) && constraint_holds(c, w) {
        assert forall|i: int| 0 <= i < cs1.len() implies constraint_holds(
            #[trigger] cs1[i],
            w,
        ) by {
            if i < cs.len() {
                assert(cs1[i] == cs[i]);
            }
        }
    }
    if all_hold(cs1, w) {
        assert forall|i: int| 0 <= i < cs.len() implies constraint_holds(
            #[trigger] cs[i],
            w,
        ) by {
            assert(constraint_holds(cs1[i], w));
        }
    }
}

} // verus!
