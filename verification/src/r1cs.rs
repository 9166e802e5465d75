//! Rank-one constraint systems: the statements that are proved.
//!
//! A system is a list of constraints over a vector of variables, the instance
//! first (its first variable is the constant one), then the witness. Each
//! constraint asks that the product of two linear combinations equal a third.
use crate::algebra::{
    cong, lemma_cong_mul, lemma_sum_add, lemma_sum_cong, lemma_sum_eq, lemma_sum_scale,
    lemma_sum_single, lemma_sum_split, lemma_sum_swap, sum, views,
};
use crate::groups::{Groups, Scalar};
use vstd::prelude::*;

verus! {

/// What can go wrong while a system is built, proved or verified.
#[derive(Debug, Clone, Copy, PartialEq, Eq, Structural)]
pub enum SynthesisError {
    /// The constraint system is missing.
    MissingCS,
    /// A value that is needed could not be had.
    AssignmentMissing,
    /// A division by zero.
    DivisionByZero,
    /// The constraint system cannot be satisfied.
    Unsatisfiable,
    /// There is no evaluation domain as large as the system asks for.
    PolynomialDegreeTooLarge,
    /// A kind of constraint that does not exist.
    PredicateNotFound,
    /// A constraint with another number of rows than its kind has.
    ArityMismatch,
}

// ---------------------------------------------------------------------------
// The model
// ---------------------------------------------------------------------------

/// A sparse linear combination: pairs of a coefficient and a variable.
pub type Row = Seq<(int, int)>;

/// The value of a linear combination.
pub open spec fn row_eval(row: Row, z: Seq<int>) -> int {
    sum(row.len() as int, |k: int| row[k].0 * z[row[k].1])
}

/// The coefficient with which a variable occurs in a term.
pub open spec fn term_coeff(term: (int, int), j: int) -> int {
    if term.1 == j {
        term.0
    } else {
        0
    }
}

/// The coefficient with which a variable occurs in a linear combination.
pub open spec fn row_coeff(row: Row, j: int) -> int {
    sum(row.len() as int, |k: int| term_coeff(row[k], j))
}

/// A linear combination is the inner product of its coefficients with the
/// variables.
pub proof fn lemma_row_eval(row: Row, z: Seq<int>)
    requires
        forall|k: int| 0 <= k < row.len() ==> 0 <= (#[trigger] row[k]).1 < z.len(),
    ensures
        row_eval(row, z) == sum(z.len() as int, |j: int| row_coeff(row, j) * z[j]),
{
    let m = row.len() as int;
    let n = z.len() as int;
    let term = |k: int, j: int| term_coeff(row[k], j) * z[j];
    lemma_sum_swap(m, n, term);
    let by_row = |k: int| sum(n, |j: int| term(k, j));
    assert forall|k: int| 0 <= k < m implies #[trigger] by_row(k) == row[k].0 * z[row[k].1] by {
        let inner = |j: int| term(k, j);
        assert forall|j: int| 0 <= j < n && j != row[k].1 implies #[trigger] inner(j) == 0 by {
            assert(0 * z[j] == 0) by (nonlinear_arith);
        }
        lemma_sum_single(n, row[k].1, inner);
    }
    lemma_sum_eq(m, by_row, |k: int| row[k].0 * z[row[k].1]);
    let by_column = |j: int| sum(m, |k: int| term(k, j));
    assert forall|j: int| 0 <= j < n implies #[trigger] by_column(j) == row_coeff(row, j)
        * z[j] by {
        let column = |k: int| term_coeff(row[k], j);
        lemma_sum_scale(m, z[j], column);
        let in_column = |k: int| term(k, j);
        let scaled = |k: int| z[j] * column(k);
        assert forall|k: int| 0 <= k < m implies #[trigger] in_column(k) == scaled(k) by {
            let (x, y) = (term_coeff(row[k], j), z[j]);
            assert(x * y == y * x) by (nonlinear_arith);
        }
        lemma_sum_eq(m, in_column, scaled);
        let c = row_coeff(row, j);
        assert(z[j] * c == c * z[j]) by (nonlinear_arith);
    }
    lemma_sum_eq(n, by_column, |j: int| row_coeff(row, j) * z[j]);
}

/// Linear combinations are linear in the variables: where `z` is `k x + y`, so is the
/// value.
pub proof fn lemma_row_eval_linear(
    row: Row,
    k: int,
    x: Seq<int>,
    y: Seq<int>,
    z: Seq<int>,
    r: int,
)
    requires
        r > 0,
        x.len() == y.len(),
        z.len() == x.len(),
        forall|j: int| 0 <= j < row.len() ==> 0 <= (#[trigger] row[j]).1 < x.len(),
        forall|i: int| 0 <= i < x.len() ==> cong(#[trigger] z[i], k * x[i] + y[i], r),
    ensures
        cong(row_eval(row, z), k * row_eval(row, x) + row_eval(row, y), r),
{
    let n = row.len() as int;
    let fx = |j: int| row[j].0 * x[row[j].1];
    let fy = |j: int| row[j].0 * y[row[j].1];
    let fz = |j: int| row[j].0 * z[row[j].1];
    let kx = |j: int| k * fx(j);
    let both = |j: int| kx(j) + fy(j);
    assert forall|j: int| 0 <= j < n implies cong(#[trigger] fz(j), both(j), r) by {
        let (c, i) = row[j];
        let (u, v) = (x[i], y[i]);
        assert(cong(z[i], k * u + v, r));
        lemma_cong_mul(c, c, z[i], k * u + v, r);
        assert(c * (k * u + v) == k * (c * u) + c * v) by (nonlinear_arith);
    }
    lemma_sum_cong(n, fz, both, r);
    lemma_sum_add(n, kx, fy);
    lemma_sum_scale(n, k, fx);
}

/// The sum without one of its terms.
proof fn lemma_row_eval_remove(row: Row, z: Seq<int>, i: int)
    requires
        0 <= i < row.len(),
    ensures
        row_eval(row, z) == row_eval(row.remove(i), z) + row[i].0 * z[row[i].1],
{
    let n = row.len() as int;
    let rest = row.remove(i);
    let f = |j: int| row[j].0 * z[row[j].1];
    let g = |j: int| rest[j].0 * z[rest[j].1];
    lemma_sum_split(i, n - i, f);
    let tail = |j: int| f(i + j);
    lemma_sum_split(1, n - i - 1, tail);
    assert(sum(1, tail) == sum(0, tail) + tail(0));
    let after = |j: int| tail(1 + j);
    lemma_sum_split(i, n - i - 1, g);
    let rest_tail = |j: int| g(i + j);
    lemma_sum_eq(i, f, g);
    lemma_sum_eq(n - i - 1, after, rest_tail);
}

/// The order of the terms of a linear combination does not matter.
pub proof fn lemma_row_eval_permuted(row: Row, other: Row, z: Seq<int>)
    requires
        row.to_multiset() == other.to_multiset(),
    ensures
        row_eval(row, z) == row_eval(other, z),
    decreases row.len(),
{
    broadcast use vstd::seq_lib::group_to_multiset_ensures;

    assert(row.to_multiset().len() == row.len());
    assert(other.to_multiset().len() == other.len());
    if row.len() > 0 {
        let last = row.len() - 1;
        let term = row[last];
        assert(row.contains(term));
        assert(row.to_multiset().count(term) > 0);
        assert(other.contains(term));
        let i = choose|i: int| 0 <= i < other.len() && other[i] == term;
        assert(row.remove(last).to_multiset() =~= row.to_multiset().remove(term));
        assert(other.remove(i).to_multiset() =~= other.to_multiset().remove(term));
        lemma_row_eval_remove(row, z, last);
        lemma_row_eval_remove(other, z, i);
        lemma_row_eval_permuted(row.remove(last), other.remove(i), z);
    }
}

/// The constraints `a_i(z) * b_i(z) = c_i(z)` of a system.
#[verifier::ext_equal]
pub struct R1cs {
    pub a: Seq<Row>,
    pub b: Seq<Row>,
    pub c: Seq<Row>,
    pub num_instance: int,
    pub num_witness: int,
}

/// All the variables that occur in the rows are among the first `n`.
pub open spec fn rows_within(rows: Seq<Row>, n: int) -> bool {
    forall|i: int, k: int|
        0 <= i < rows.len() && 0 <= k < rows[i].len() ==> 0 <= (#[trigger] rows[i][k]).1 < n
}

impl R1cs {
    pub open spec fn num_constraints(self) -> int {
        self.a.len() as int
    }

    pub open spec fn num_variables(self) -> int {
        self.num_instance + self.num_witness
    }

    /// How many points an evaluation domain needs for the system.
    pub open spec fn num_points(self) -> int {
        self.num_constraints() + self.num_instance
    }

    /// The system is well-formed: it has as many rows of each kind, an instance
    /// that holds at least the constant one, and no variable that does not exist.
    pub open spec fn wf(self) -> bool {
        &&& self.b.len() == self.a.len()
        &&& self.c.len() == self.a.len()
        &&& 0 < self.num_instance
        &&& 0 <= self.num_witness
        &&& rows_within(self.a, self.num_variables())
        &&& rows_within(self.b, self.num_variables())
        &&& rows_within(self.c, self.num_variables())
    }

    /// The system is well-formed, and the numbers of its variables and of the
    /// points that it needs can be addressed.
    pub open spec fn fits(self) -> bool {
        &&& self.wf()
        &&& self.num_variables() <= usize::MAX
        &&& 4 * self.num_points() <= usize::MAX
    }

    /// The variables `z` satisfy all the constraints modulo `r`.
    pub open spec fn is_satisfied(self, z: Seq<int>, r: int) -> bool {
        forall|i: int|
            0 <= i < self.num_constraints() ==> cong(
                row_eval(#[trigger] self.a[i], z) * row_eval(self.b[i], z),
                row_eval(self.c[i], z),
                r,
            )
    }
}

// ---------------------------------------------------------------------------
// The types
// ---------------------------------------------------------------------------

/// The model of a list of terms.
pub open spec fn row_view<E: Groups>(terms: Seq<(Scalar<E>, usize)>) -> Row {
    Seq::new(terms.len(), |k: int| (terms[k].0@, terms[k].1 as int))
}

/// The model of a list of lists of terms.
pub open spec fn rows_view<E: Groups>(rows: Seq<Vec<(Scalar<E>, usize)>>) -> Seq<Row> {
    Seq::new(rows.len(), |i: int| row_view(rows[i]@))
}

/// The constraints of a system, with the numbers of its variables.
pub struct ConstraintMatrices<E: Groups> {
    pub(crate) a: Vec<Vec<(Scalar<E>, usize)>>,
    pub(crate) b: Vec<Vec<(Scalar<E>, usize)>>,
    pub(crate) c: Vec<Vec<(Scalar<E>, usize)>>,
    pub(crate) num_instance_variables: usize,
    pub(crate) num_witness_variables: usize,
}

impl<E: Groups> View for ConstraintMatrices<E> {
    type V = R1cs;

    closed spec fn view(&self) -> R1cs {
        R1cs {
            a: rows_view(self.a@),
            b: rows_view(self.b@),
            c: rows_view(self.c@),
            num_instance: self.num_instance_variables as int,
            num_witness: self.num_witness_variables as int,
        }
    }
}

/// Whether all the variables that occur in the rows are among the first `n`.
fn check_rows<E: Groups>(rows: &Vec<Vec<(Scalar<E>, usize)>>, n: usize) -> (ok: bool)
    ensures
        ok == rows_within(rows_view(rows@), n as int),
{
    let ghost model = rows_view(rows@);
    let mut i: usize = 0;
    while i < rows.len()
        invariant
            i <= rows@.len(),
            model == rows_view(rows@),
            forall|j: int, k: int|
                0 <= j < i && 0 <= k < model[j].len() ==> 0 <= (#[trigger] model[j][k]).1 < n,
        decreases rows@.len() - i,
    {
        let row = &rows[i];
        let mut k: usize = 0;
        while k < row.len()
            invariant
                i < rows@.len(),
                *row == rows@[i as int],
                k <= row@.len(),
                model == rows_view(rows@),
                forall|j: int, k: int|
                    0 <= j < i && 0 <= k < model[j].len() ==> 0 <= (#[trigger] model[j][k]).1 < n,
                forall|l: int| 0 <= l < k ==> 0 <= (#[trigger] model[i as int][l]).1 < n,
            decreases row@.len() - k,
        {
            if row[k].1 >= n {
                assert(model[i as int][k as int].1 >= n);
                return false;
            }
            k = k + 1;
        }
        i = i + 1;
    }
    true
}

impl<E: Groups> ConstraintMatrices<E> {
    #[verifier::type_invariant]
    pub(crate) closed spec fn is_wf(&self) -> bool {
        self@.fits()
    }

    /// The system with the given rows, or nothing where they do not make one: the
    /// three lists must be equally long and mention no other variables than there
    /// are, and there must be an instance. Systems whose evaluation domain could
    /// not be addressed are left out too.
    pub fn new(
        a: Vec<Vec<(Scalar<E>, usize)>>,
        b: Vec<Vec<(Scalar<E>, usize)>>,
        c: Vec<Vec<(Scalar<E>, usize)>>,
        num_instance_variables: usize,
        num_witness_variables: usize,
    ) -> (matrices: Option<Self>)
        ensures
            ({
                let model = R1cs {
                    a: rows_view(a@),
                    b: rows_view(b@),
                    c: rows_view(c@),
                    num_instance: num_instance_variables as int,
                    num_witness: num_witness_variables as int,
                };
                match matrices {
                    Some(m) => m@ == model && model.fits(),
                    None => !model.fits(),
                }
            }),
    {
        if a.len() != b.len() || a.len() != c.len() || num_instance_variables == 0 {
            return None;
        }
        if num_witness_variables > usize::MAX - num_instance_variables {
            return None;
        }
        if a.len() > usize::MAX / 4 || num_instance_variables > usize::MAX / 4 - a.len() {
            return None;
        }
        let n: usize = num_instance_variables + num_witness_variables;
        if !check_rows(&a, n) || !check_rows(&b, n) || !check_rows(&c, n) {
            return None;
        }
        Some(ConstraintMatrices { a, b, c, num_instance_variables, num_witness_variables })
    }

    /// The rows of the left factors.
    pub fn a(&self) -> (rows: &Vec<Vec<(Scalar<E>, usize)>>)
        ensures
            rows_view(rows@) == self@.a,
    {
        &self.a
    }

    /// The rows of the right factors.
    pub fn b(&self) -> (rows: &Vec<Vec<(Scalar<E>, usize)>>)
        ensures
            rows_view(rows@) == self@.b,
    {
        &self.b
    }

    /// The rows of the products.
    pub fn c(&self) -> (rows: &Vec<Vec<(Scalar<E>, usize)>>)
        ensures
            rows_view(rows@) == self@.c,
    {
        &self.c
    }

    pub fn num_constraints(&self) -> (n: usize)
        ensures
            n == self@.num_constraints(),
    {
        self.a.len()
    }

    pub fn num_instance_variables(&self) -> (n: usize)
        ensures
            n == self@.num_instance,
            self@.fits(),
    {
        proof {
            use_type_invariant(self);
        }
        self.num_instance_variables
    }

    pub fn num_witness_variables(&self) -> (n: usize)
        ensures
            n == self@.num_witness,
    {
        self.num_witness_variables
    }

    /// How many points an evaluation domain needs for the system.
    pub fn num_points(&self) -> (n: usize)
        ensures
            n == self@.num_points(),
            self@.fits(),
    {
        proof {
            use_type_invariant(self);
        }
        self.a.len() + self.num_instance_variables
    }
}

/// A system with an assignment to its variables.
pub struct ConstraintSystem<E: Groups> {
    pub(crate) matrices: ConstraintMatrices<E>,
    pub(crate) instance_assignment: Vec<Scalar<E>>,
    pub(crate) witness_assignment: Vec<Scalar<E>>,
}

impl<E: Groups> ConstraintSystem<E> {
    #[verifier::type_invariant]
    pub(crate) closed spec fn is_complete(&self) -> bool {
        &&& self.instance_assignment@.len() == self.matrices@.num_instance
        &&& self.witness_assignment@.len() == self.matrices@.num_witness
    }

    pub closed spec fn spec_matrices(&self) -> R1cs {
        self.matrices@
    }

    /// The values of the instance variables.
    pub closed spec fn instance(&self) -> Seq<int> {
        views(self.instance_assignment@)
    }

    /// The values of the witness variables.
    pub closed spec fn witness(&self) -> Seq<int> {
        views(self.witness_assignment@)
    }

    /// The values of all variables.
    pub open spec fn assignment(&self) -> Seq<int> {
        self.instance() + self.witness()
    }

    pub open spec fn is_satisfied(&self) -> bool {
        self.spec_matrices().is_satisfied(self.assignment(), E::modulus())
    }

    /// The system with the given assignment, or nothing where a variable has no
    /// value or a value no variable.
    pub fn new(
        matrices: ConstraintMatrices<E>,
        instance_assignment: Vec<Scalar<E>>,
        witness_assignment: Vec<Scalar<E>>,
    ) -> (system: Option<Self>)
        ensures
            system is Some <==> (instance_assignment@.len() == matrices@.num_instance
                && witness_assignment@.len() == matrices@.num_witness),
            system matches Some(s) ==> {
                &&& s.spec_matrices() == matrices@
                &&& s.instance() == views(instance_assignment@)
                &&& s.witness() == views(witness_assignment@)
            },
    {
        if instance_assignment.len() != matrices.num_instance_variables()
            || witness_assignment.len() != matrices.num_witness_variables() {
            return None;
        }
        Some(ConstraintSystem { matrices, instance_assignment, witness_assignment })
    }

    pub fn matrices(&self) -> (matrices: &ConstraintMatrices<E>)
        ensures
            matrices@ == self.spec_matrices(),
            matrices@.fits(),
            matrices@.num_instance == self.instance().len(),
            matrices@.num_witness == self.witness().len(),
    {
        proof {
            use_type_invariant(self);
            use_type_invariant(&self.matrices);
        }
        &self.matrices
    }

    pub fn instance_assignment(&self) -> (values: &Vec<Scalar<E>>)
        ensures
            views(values@) == self.instance(),
            self.instance().len() == self.spec_matrices().num_instance,
            self.spec_matrices().wf(),
    {
        proof {
            use_type_invariant(self);
            use_type_invariant(&self.matrices);
        }
        &self.instance_assignment
    }

    pub fn witness_assignment(&self) -> (values: &Vec<Scalar<E>>)
        ensures
            views(values@) == self.witness(),
            self.witness().len() == self.spec_matrices().num_witness,
    {
        proof {
            use_type_invariant(self);
        }
        &self.witness_assignment
    }
}

} // verus!
