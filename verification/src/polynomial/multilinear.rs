//! Multilinear polynomials given by their values on the boolean hypercube.

use crate::algebra::{
    act_as_identities, are_identities, is_difference, is_product, is_sum, ring_obeys, ring_total,
};
use core::ops::{Add, Mul, Sub};
use vstd::arithmetic::div_mod::{lemma_fundamental_div_mod, lemma_mod_bound};
use vstd::arithmetic::power2::{lemma2_to64, lemma_pow2_pos, lemma_pow2_unfold, pow2};
use vstd::prelude::*;
use vstd::std_specs::ops::{AddSpec, MulSpec, SubSpec};

verus! {

/// A polynomial in `num_vars` variables of degree at most one in each,
/// given by its values on the hypercube: `evaluations[i]` is the value at
/// the vertex whose coordinates are the bits of `i`, the first variable
/// being the most significant bit.
#[derive(Clone, Debug, PartialEq, Eq)]
pub struct Multilinear<F> {
    pub evaluations: Vec<F>,
    pub num_vars: usize,
}

/// The table of the polynomial in the remaining variables once the first
/// variable is fixed to `x`: each entry moves from its value in the lower
/// half of the table towards its value in the upper half.
pub open spec fn fold_first<F: Add<Output = F> + Sub<Output = F> + Mul<Output = F>>(
    table: Seq<F>,
    x: F,
) -> Seq<F> {
    let half = table.len() / 2;
    Seq::new(half, |j: int| table[j].add_spec(x.mul_spec(table[j + half].sub_spec(table[j]))))
}

/// The value at `point` of the multilinear polynomial with the hypercube
/// values `table`.
pub open spec fn multilinear_value<F: Add<Output = F> + Sub<Output = F> + Mul<Output = F>>(
    table: Seq<F>,
    point: Seq<F>,
) -> F
    decreases point.len(),
{
    if point.len() == 0 {
        table[0]
    } else {
        multilinear_value(fold_first(table, point[0]), point.drop_first())
    }
}

/// `folded` is what the operations of `F` return for `low + x * (high - low)`.
pub open spec fn is_fold_entry<F: Add<Output = F> + Sub<Output = F> + Mul<Output = F>>(
    low: F,
    high: F,
    x: F,
    folded: F,
) -> bool {
    exists|difference: F, step: F|
        is_difference(high, low, difference) && #[trigger] is_product(x, difference, step)
            && is_sum(low, step, folded)
}

/// Entry `j` of `folded` is what the operations of `F` return for entry `j`
/// of the lower half of `table` moved by `x` towards its partner in the
/// upper half.
pub open spec fn is_fold_at<F: Add<Output = F> + Sub<Output = F> + Mul<Output = F>>(
    table: Seq<F>,
    x: F,
    folded: Seq<F>,
    j: int,
) -> bool {
    is_fold_entry(table[j], table[j + table.len() / 2], x, folded[j])
}

/// `folded` is a table of the polynomial in the remaining variables once
/// the first variable of `table` is fixed to `x`.
pub open spec fn is_fold<F: Add<Output = F> + Sub<Output = F> + Mul<Output = F>>(
    table: Seq<F>,
    x: F,
    folded: Seq<F>,
) -> bool {
    &&& folded.len() == table.len() / 2
    &&& forall|j: int| 0 <= j < folded.len() ==> #[trigger] is_fold_at(table, x, folded, j)
}

/// `value` is what the operations of `F` return for the value at `point` of
/// the multilinear polynomial with the hypercube values `table`, one
/// variable fixed after the other.
pub open spec fn is_multilinear_value<F: Add<Output = F> + Sub<Output = F> + Mul<Output = F>>(
    table: Seq<F>,
    point: Seq<F>,
    value: F,
) -> bool
    decreases point.len(),
{
    if point.len() == 0 {
        value == table[0]
    } else {
        exists|folded: Seq<F>| #[trigger]
            is_fold(table, point[0], folded) && is_multilinear_value(
                folded,
                point.drop_first(),
                value,
            )
    }
}

/// Where the operations of `F` are as `vstd` specifies them, fixing a
/// variable has one result only.
pub proof fn lemma_fold_unique<F: Add<Output = F> + Sub<Output = F> + Mul<Output = F>>(
    table: Seq<F>,
    x: F,
    folded: Seq<F>,
)
    requires
        ring_obeys::<F>(),
        is_fold(table, x, folded),
    ensures
        folded == fold_first(table, x),
{
    assert forall|j: int| 0 <= j < folded.len() implies folded[j] == fold_first(table, x)[j] by {
        assert(is_fold_at(table, x, folded, j));
    }
}

/// Where the operations of `F` are as `vstd` specifies them, a polynomial
/// has one value only at a point.
pub proof fn lemma_multilinear_value_unique<F: Add<Output = F> + Sub<Output = F> + Mul<Output = F>>(
    table: Seq<F>,
    point: Seq<F>,
    value: F,
)
    requires
        ring_obeys::<F>(),
        is_multilinear_value(table, point, value),
    ensures
        value == multilinear_value(table, point),
    decreases point.len(),
{
    if point.len() > 0 {
        let folded = choose|folded: Seq<F>| #[trigger]
            is_fold(table, point[0], folded) && is_multilinear_value(
                folded,
                point.drop_first(),
                value,
            );
        lemma_fold_unique(table, point[0], folded);
        lemma_multilinear_value_unique(folded, point.drop_first(), value);
    }
}

/// Fixing the first variable of `table` to `x` performs defined operations
/// on entry `j` of the lower half and its partner in the upper half.
pub open spec fn fold_entry_defined<F: Add<Output = F> + Sub<Output = F> + Mul<Output = F>>(
    table: Seq<F>,
    x: F,
    j: int,
) -> bool {
    let low = table[j];
    let high = table[j + table.len() / 2];
    &&& high.sub_req(low)
    &&& x.mul_req(high.sub_spec(low))
    &&& low.add_req(x.mul_spec(high.sub_spec(low)))
}

/// Fixing the first variable of `table` to `x` performs defined operations
/// only.
pub open spec fn fold_defined<F: Add<Output = F> + Sub<Output = F> + Mul<Output = F>>(
    table: Seq<F>,
    x: F,
) -> bool {
    forall|j: int| 0 <= j < table.len() / 2 ==> #[trigger] fold_entry_defined(table, x, j)
}

/// Evaluating `table` at `point`, one variable after the other, performs
/// defined operations only.
pub open spec fn value_defined<F: Add<Output = F> + Sub<Output = F> + Mul<Output = F>>(
    table: Seq<F>,
    point: Seq<F>,
) -> bool
    decreases point.len(),
{
    point.len() > 0 ==> fold_defined(table, point[0]) && value_defined(
        fold_first(table, point[0]),
        point.drop_first(),
    )
}

/// Every operation that the evaluation of `table` at `point` performs is
/// defined: either the operations of `F` are defined on all values, or they
/// are as `vstd` specifies them and defined on the values that the
/// evaluation meets.
pub open spec fn multilinear_computable<F: Add<Output = F> + Sub<Output = F> + Mul<Output = F>>(
    table: Seq<F>,
    point: Seq<F>,
) -> bool {
    ||| ring_total::<F>()
    ||| ring_obeys::<F>() && value_defined(table, point)
}

/// The vertex of the hypercube in `num_vars` variables whose coordinates are
/// the bits of `index`, most significant first, written with `zero` and
/// `one`.
pub open spec fn vertex<F>(index: nat, num_vars: nat, zero: F, one: F) -> Seq<F>
    decreases num_vars,
{
    if num_vars == 0 {
        Seq::empty()
    } else {
        let half = pow2((num_vars - 1) as nat);
        seq![if (index / half) % 2 == 1 { one } else { zero }] + vertex(
            index % half,
            (num_vars - 1) as nat,
            zero,
            one,
        )
    }
}

/// A vertex has one coordinate for each variable.
pub proof fn lemma_vertex_len<F>(index: nat, num_vars: nat, zero: F, one: F)
    ensures
        vertex(index, num_vars, zero, one).len() == num_vars,
    decreases num_vars,
{
    if num_vars > 0 {
        lemma_pow2_pos((num_vars - 1) as nat);
        lemma_vertex_len(index % pow2((num_vars - 1) as nat), (num_vars - 1) as nat, zero, one);
    }
}

/// At a vertex of the hypercube a multilinear polynomial takes the value
/// that its table holds for that vertex.
pub proof fn lemma_value_at_vertex<F: Add<Output = F> + Sub<Output = F> + Mul<Output = F>>(
    table: Seq<F>,
    index: nat,
    num_vars: nat,
    zero: F,
    one: F,
)
    requires
        table.len() == pow2(num_vars),
        index < pow2(num_vars),
        are_identities(zero, one),
    ensures
        multilinear_value(table, vertex(index, num_vars, zero, one)) == table[index as int],
    decreases num_vars,
{
    lemma2_to64();
    if num_vars > 0 {
        let half = pow2((num_vars - 1) as nat);
        lemma_pow2_unfold(num_vars);
        lemma_pow2_pos((num_vars - 1) as nat);
        let point = vertex(index, num_vars, zero, one);
        let rest = vertex(index % half, (num_vars - 1) as nat, zero, one);
        let top = index / half;
        let low = index % half;
        lemma_fundamental_div_mod(index as int, half as int);
        lemma_mod_bound(index as int, half as int);
        assert(top == 0 || top == 1) by (nonlinear_arith)
            requires
                index == half * top + low,
                0 <= low < half,
                index < 2 * half,
                0 <= top,
        ;
        assert(point.drop_first() =~= rest);
        let folded = fold_first(table, point[0]);
        let lower = table[low as int];
        let upper = table[(low + half) as int];
        if top == 1 {
            assert(index == low + half) by (nonlinear_arith)
                requires
                    index == half * top + low,
                    top == 1,
            ;
        } else {
            assert(index == low) by (nonlinear_arith)
                requires
                    index == half * top + low,
                    top == 0,
            ;
        }
        lemma_value_at_vertex(folded, low, (num_vars - 1) as nat, zero, one);
    }
}

/// At a vertex of the hypercube, whatever the operations of `F` return for
/// the value of a multilinear polynomial is the value that its table holds
/// for that vertex.
pub proof fn lemma_computed_value_at_vertex<F: Add<Output = F> + Sub<Output = F> + Mul<Output = F>>(
    table: Seq<F>,
    index: nat,
    num_vars: nat,
    zero: F,
    one: F,
    value: F,
)
    requires
        table.len() == pow2(num_vars),
        index < pow2(num_vars),
        act_as_identities(zero, one),
        is_multilinear_value(table, vertex(index, num_vars, zero, one), value),
    ensures
        value == table[index as int],
    decreases num_vars,
{
    lemma2_to64();
    if num_vars > 0 {
        let half = pow2((num_vars - 1) as nat);
        lemma_pow2_unfold(num_vars);
        lemma_pow2_pos((num_vars - 1) as nat);
        let point = vertex(index, num_vars, zero, one);
        let rest = vertex(index % half, (num_vars - 1) as nat, zero, one);
        let top = index / half;
        let low = index % half;
        lemma_fundamental_div_mod(index as int, half as int);
        lemma_mod_bound(index as int, half as int);
        assert(top == 0 || top == 1) by (nonlinear_arith)
            requires
                index == half * top + low,
                0 <= low < half,
                index < 2 * half,
                0 <= top,
        ;
        assert(point.drop_first() =~= rest);
        let folded = choose|folded: Seq<F>| #[trigger]
            is_fold(table, point[0], folded) && is_multilinear_value(
                folded,
                point.drop_first(),
                value,
            );
        assert(is_fold_at(table, point[0], folded, low as int));
        let lower = table[low as int];
        let upper = table[(low + half) as int];
        let (difference, step) = choose|difference: F, step: F|
            is_difference(upper, lower, difference) && #[trigger] is_product(
                point[0],
                difference,
                step,
            ) && is_sum(lower, step, folded[low as int]);
        if top == 1 {
            assert(index == low + half) by (nonlinear_arith)
                requires
                    index == half * top + low,
                    top == 1,
            ;
        } else {
            assert(index == low) by (nonlinear_arith)
                requires
                    index == half * top + low,
                    top == 0,
            ;
        }
        lemma_computed_value_at_vertex(folded, low, (num_vars - 1) as nat, zero, one, value);
    }
}

/// The number of vertices of the hypercube in `num_vars` variables, or
/// `None` if it does not fit in a machine word.
pub fn hypercube_size(num_vars: usize) -> (size: Option<usize>)
    ensures
        match size {
            Some(s) => s == pow2(num_vars as nat),
            None => pow2(num_vars as nat) > usize::MAX,
        },
{
    let mut size: usize = 1;
    let mut i: usize = 0;
    proof {
        lemma2_to64();
    }
    while i < num_vars
        invariant
            i <= num_vars,
            size == pow2(i as nat),
        decreases num_vars - i,
    {
        proof {
            lemma_pow2_unfold((i + 1) as nat);
        }
        if size > usize::MAX / 2 {
            proof {
                if i + 1 < num_vars {
                    vstd::arithmetic::power2::lemma_pow2_strictly_increases(
                        (i + 1) as nat,
                        num_vars as nat,
                    );
                }
            }
            return None;
        }
        size = size * 2;
        i = i + 1;
    }
    Some(size)
}

/// Fixes the first variable of `table` to `x`.
fn fold_table<F>(table: &Vec<F>, x: F) -> (folded: Vec<F>)
    where F: Add<Output = F> + Sub<Output = F> + Mul<Output = F> + Copy
    requires
        ring_total::<F>() || (ring_obeys::<F>() && fold_defined(table@, x)),
    ensures
        is_fold(table@, x, folded@),
        ring_obeys::<F>() ==> folded@ == fold_first(table@, x),
{
    let half = table.len() / 2;
    let mut folded: Vec<F> = Vec::with_capacity(half);
    let mut j: usize = 0;
    while j < half
        invariant
            half == table@.len() / 2,
            table@.len() <= usize::MAX,
            j <= half,
            folded@.len() == j,
            ring_total::<F>() || (ring_obeys::<F>() && fold_defined(table@, x)),
            forall|i: int|
                0 <= i < j ==> is_fold_entry(table@[i], table@[i + half], x, #[trigger] folded@[i]),
        decreases half - j,
    {
        let low = table[j];
        let high = table[j + half];
        proof {
            assert(ring_total::<F>() || fold_entry_defined(table@, x, j as int));
        }
        let difference = high - low;
        let step = x * difference;
        let moved = low + step;
        proof {
            assert(is_product(x, difference, step));
        }
        folded.push(moved);
        j = j + 1;
    }
    folded
}

impl<F> Multilinear<F> {
    /// The table has one entry for each vertex of the hypercube.
    pub open spec fn well_formed(&self) -> bool {
        self.evaluations@.len() == pow2(self.num_vars as nat)
    }

    /// The polynomial in `num_vars` variables with the hypercube values
    /// `evaluations`.
    pub fn new(evaluations: Vec<F>, num_vars: usize) -> (poly: Self)
        requires
            evaluations@.len() == pow2(num_vars as nat),
        ensures
            poly.evaluations == evaluations,
            poly.num_vars == num_vars,
            poly.well_formed(),
    {
        Multilinear { evaluations, num_vars }
    }

    pub fn num_vars(&self) -> (n: usize)
        ensures
            n == self.num_vars,
    {
        self.num_vars
    }

    /// The value of the polynomial at `point`, or `None` if `point` does not
    /// have one coordinate for each variable or the table does not have one
    /// entry for each vertex.
    pub fn evaluate(&self, point: &Vec<F>) -> (res: Option<F>)
        where F: Add<Output = F> + Sub<Output = F> + Mul<Output = F> + Copy
        requires
            self.well_formed() && point@.len() == self.num_vars ==> multilinear_computable(
                self.evaluations@,
                point@,
            ),
        ensures
            res is Some <==> self.well_formed() && point@.len() == self.num_vars,
            res matches Some(value) ==> is_multilinear_value(self.evaluations@, point@, value),
            res matches Some(value) ==> (ring_obeys::<F>() ==> value == multilinear_value(
                self.evaluations@,
                point@,
            )),
    {
        let n = self.num_vars;
        let len = self.evaluations.len();
        if point.len() != n {
            return None;
        }
        match hypercube_size(n) {
            None => {
                return None;
            },
            Some(size) => {
                if len != size {
                    return None;
                }
            },
        }
        if n == 0 {
            proof {
                lemma2_to64();
            }
            return Some(self.evaluations[0]);
        }
        proof {
            lemma_pow2_unfold(n as nat);
        }
        let mut table = fold_table(&self.evaluations, point[0]);
        let mut i: usize = 1;
        while i < n
            invariant
                1 <= i <= n,
                n == point@.len(),
                table@.len() == pow2((n - i) as nat),
                forall|value: F| #[trigger]
                    is_multilinear_value(table@, point@.subrange(i as int, n as int), value)
                        ==> is_multilinear_value(self.evaluations@, point@, value),
                ring_total::<F>() || (ring_obeys::<F>() && value_defined(
                    table@,
                    point@.subrange(i as int, n as int),
                )),
                ring_obeys::<F>() ==> multilinear_value(self.evaluations@, point@)
                    == multilinear_value(table@, point@.subrange(i as int, n as int)),
            decreases n - i,
        {
            proof {
                lemma_pow2_unfold((n - i) as nat);
                let rest = point@.subrange(i as int, n as int);
                assert(rest[0] == point@[i as int]);
                assert(rest.drop_first() =~= point@.subrange(i as int + 1, n as int));
            }
            let ghost before = table@;
            table = fold_table(&table, point[i]);
            proof {
                let rest = point@.subrange(i as int, n as int);
                let after = point@.subrange(i as int + 1, n as int);
                assert forall|value: F| #[trigger]
                    is_multilinear_value(table@, after, value) implies is_multilinear_value(
                    self.evaluations@,
                    point@,
                    value,
                ) by {
                    assert(is_multilinear_value(before, rest, value));
                }
            }
            i = i + 1;
        }
        proof {
            lemma2_to64();
            assert(is_multilinear_value(table@, point@.subrange(n as int, n as int), table@[0]));
        }
        Some(table[0])
    }
}

} // verus!
