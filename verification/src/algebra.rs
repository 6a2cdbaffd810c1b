//! What the library asks of the element types it computes with.
//!
//! A function that computes with elements asks that every operation it
//! performs is defined. That is so where the operations of the type are
//! defined on all values, as those of a field are; and it is so where the
//! operations are as `vstd` specifies them, as those of the integers are, and
//! defined on the values at hand. What a function returns is stated over the
//! specification functions of the operators, for the types whose operators
//! are as `vstd` specifies them, and for every type as what its operators
//! return on given operands.

use core::ops::{Add, Mul, Neg, Sub};
use vstd::prelude::*;
use vstd::std_specs::convert::FromSpec;
use vstd::std_specs::ops::{AddSpec, MulSpec, NegSpec, SubSpec};

verus! {

/// `sum` is what the addition of `F` returns for `a` and `b`.
pub open spec fn is_sum<F: Add<Output = F>>(a: F, b: F, sum: F) -> bool {
    call_ensures(<F as Add>::add, (a, b), sum)
}

/// `difference` is what the subtraction of `F` returns for `a` and `b`.
pub open spec fn is_difference<F: Sub<Output = F>>(a: F, b: F, difference: F) -> bool {
    call_ensures(<F as Sub>::sub, (a, b), difference)
}

/// `product` is what the multiplication of `F` returns for `a` and `b`.
pub open spec fn is_product<F: Mul<Output = F>>(a: F, b: F, product: F) -> bool {
    call_ensures(<F as Mul>::mul, (a, b), product)
}

/// `negation` is what the negation of `F` returns for `a`.
pub open spec fn is_negation<F: Neg<Output = F>>(a: F, negation: F) -> bool {
    call_ensures(<F as Neg>::neg, (a,), negation)
}

/// `scaled` is what the multiplication of a value of `G` by a value of `F`
/// returns for `g` and `s`.
pub open spec fn is_scaled<F, G: Mul<F, Output = G>>(g: G, s: F, scaled: G) -> bool {
    call_ensures(<G as Mul<F>>::mul, (g, s), scaled)
}

/// `value` is what `F` makes of the integer `n`.
pub open spec fn is_made_from<F: From<u64>>(n: u64, value: F) -> bool {
    call_ensures(<F as From<u64>>::from, (n,), value)
}

/// `value` is what `G` gives as its default value.
pub open spec fn is_default<G: Default>(value: G) -> bool {
    call_ensures(<G as Default>::default, (), value)
}

/// Addition is defined on every pair of values of `F`.
pub open spec fn add_total<F: Add<Output = F>>() -> bool {
    forall|a: F, b: F| #[trigger] a.add_req(b)
}

/// Subtraction is defined on every pair of values of `F`.
pub open spec fn sub_total<F: Sub<Output = F>>() -> bool {
    forall|a: F, b: F| #[trigger] a.sub_req(b)
}

/// Multiplication is defined on every pair of values of `F`.
pub open spec fn mul_total<F: Mul<Output = F>>() -> bool {
    forall|a: F, b: F| #[trigger] a.mul_req(b)
}

/// Negation is defined on every value of `F`.
pub open spec fn neg_total<F: Neg<Output = F>>() -> bool {
    forall|a: F| #[trigger] a.neg_req()
}

/// A value of `G` can be multiplied by any value of `F`.
pub open spec fn scaling_total<F, G: Mul<F, Output = G>>() -> bool {
    forall|g: G, s: F| #[trigger] g.mul_req(s)
}

/// Addition, subtraction and multiplication are defined on all values of
/// `F`.
pub open spec fn ring_total<F: Add<Output = F> + Sub<Output = F> + Mul<Output = F>>() -> bool {
    add_total::<F>() && sub_total::<F>() && mul_total::<F>()
}

/// Addition, subtraction and multiplication of `F` are as `vstd` specifies
/// them.
pub open spec fn ring_obeys<F: Add<Output = F> + Sub<Output = F> + Mul<Output = F>>() -> bool {
    F::obeys_add_spec() && F::obeys_sub_spec() && F::obeys_mul_spec()
}

/// `zero` and `one` are the additive and the multiplicative identity of `F`,
/// and adding a difference to what was subtracted gives back the rest.
pub open spec fn are_identities<F: Add<Output = F> + Sub<Output = F> + Mul<Output = F>>(
    zero: F,
    one: F,
) -> bool {
    &&& forall|a: F| #[trigger] a.add_spec(zero) == a
    &&& forall|a: F| #[trigger] zero.mul_spec(a) == zero
    &&& forall|a: F| #[trigger] one.mul_spec(a) == a
    &&& forall|a: F, b: F| a.add_spec(#[trigger] b.sub_spec(a)) == b
}

/// What the operations of `F` return shows `zero` and `one` to be the
/// additive and the multiplicative identity, and adding a difference to
/// what was subtracted to give back the rest.
pub open spec fn act_as_identities<F: Add<Output = F> + Sub<Output = F> + Mul<Output = F>>(
    zero: F,
    one: F,
) -> bool {
    &&& forall|a: F, r: F| #[trigger] is_sum(a, zero, r) ==> r == a
    &&& forall|a: F, r: F| #[trigger] is_product(zero, a, r) ==> r == zero
    &&& forall|a: F, r: F| #[trigger] is_product(one, a, r) ==> r == a
    &&& forall|a: F, b: F, d: F, r: F|
        #![trigger is_difference(b, a, d), is_sum(a, d, r)]
        is_difference(b, a, d) && is_sum(a, d, r) ==> r == b
}

} // verus!
