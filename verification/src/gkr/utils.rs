//! Bit widths, the packing of a gate's wiring into one hypercube index, and
//! dense tables of the indicator of a set of indices.

use crate::algebra::is_made_from;
use crate::gkr::primitives::CircuitError;
use crate::polynomial::multilinear::{hypercube_size, Multilinear};
use vstd::arithmetic::div_mod::lemma_fundamental_div_mod_converse;
use vstd::arithmetic::power2::{
    lemma2_to64, lemma2_to64_rest, lemma_pow2_adds, lemma_pow2_pos, lemma_pow2_strictly_increases,
    lemma_pow2_unfold, pow2,
};
use vstd::bits::{lemma_usize_shl_is_mul, lemma_usize_shr_is_div};
use vstd::prelude::*;
use vstd::std_specs::convert::FromSpec;

verus! {

/// The least number of bits that can address `size` positions: the least
/// `bits` with `size <= 2^bits`.
pub open spec fn bits_needed(size: nat) -> nat
    decreases size,
{
    if size <= 1 {
        0
    } else {
        1 + bits_needed((size + 1) / 2)
    }
}

/// `bits_needed(size)` bits address `size` positions, and one bit less does
/// not.
pub proof fn lemma_bits_needed_bounds(size: nat)
    ensures
        size <= pow2(bits_needed(size)),
        bits_needed(size) > 0 ==> pow2((bits_needed(size) - 1) as nat) < size,
    decreases size,
{
    lemma2_to64();
    if size > 1 {
        let half = (size + 1) / 2;
        lemma_bits_needed_bounds(half);
        lemma_pow2_unfold(bits_needed(size));
        if bits_needed(half) > 0 {
            lemma_pow2_unfold(bits_needed(half));
        }
    }
}

/// Any `bits` that address `size` positions while one bit less does not are
/// `bits_needed(size)`.
pub proof fn lemma_bits_needed_unique(size: nat, bits: nat)
    requires
        size <= pow2(bits),
        bits > 0 ==> pow2((bits - 1) as nat) < size,
    ensures
        bits == bits_needed(size),
    decreases bits,
{
    lemma2_to64();
    if bits > 0 {
        lemma_pow2_pos((bits - 1) as nat);
        lemma_pow2_unfold(bits);
        if bits > 1 {
            lemma_pow2_unfold((bits - 1) as nat);
        }
        lemma_bits_needed_unique((size + 1) / 2, (bits - 1) as nat);
    }
}

/// A power of two fits in a machine word exactly when its exponent is less
/// than the word's width.
pub proof fn lemma_pow2_fits_word(bits: nat)
    ensures
        pow2(bits) <= usize::MAX <==> bits < usize::BITS,
{
    lemma2_to64();
    lemma2_to64_rest();
    if bits < usize::BITS {
        vstd::bits::lemma_usize_pow2_no_overflow(bits);
    } else if bits > usize::BITS {
        lemma_pow2_strictly_increases(usize::BITS as nat, bits);
    }
}

/// Computes `bits_needed(size)`.
pub fn compute_bit_width(size: usize) -> (bits: usize)
    ensures
        bits == bits_needed(size as nat),
        bits <= usize::BITS,
{
    let mut bits: usize = 0;
    let mut capacity: usize = 1;
    proof {
        lemma2_to64();
    }
    while capacity < size
        invariant
            capacity == pow2(bits as nat),
            bits < usize::BITS,
            bits > 0 ==> pow2((bits - 1) as nat) < size,
        decreases usize::BITS - bits,
    {
        proof {
            lemma_pow2_unfold((bits + 1) as nat);
            lemma_pow2_fits_word((bits + 1) as nat);
        }
        if capacity > usize::MAX / 2 {
            proof {
                lemma_bits_needed_unique(size as nat, (bits + 1) as nat);
            }
            return bits + 1;
        }
        capacity = capacity * 2;
        bits = bits + 1;
    }
    proof {
        lemma_bits_needed_unique(size as nat, bits as nat);
    }
    bits
}

/// The hypercube index of one gate's wiring: its address in the layer, its left
/// operand and its right operand written in binary one after the other, most
/// significant first, each operand on `width` bits.
pub open spec fn packed_index(gate: nat, left: nat, right: nat, width: nat) -> nat {
    gate * pow2(2 * width) + left * pow2(width) + right
}

/// A wiring whose gate address has `gate_bits` bits and whose operands have
/// `width` bits packs into `gate_bits + 2 * width` bits.
pub proof fn lemma_packed_index_bound(gate: nat, left: nat, right: nat, gate_bits: nat, width: nat)
    requires
        gate < pow2(gate_bits),
        left < pow2(width),
        right < pow2(width),
    ensures
        packed_index(gate, left, right, width) < pow2(gate_bits + 2 * width),
{
    let p = pow2(width) as int;
    let q = pow2(2 * width) as int;
    let g = pow2(gate_bits) as int;
    lemma_pow2_adds(width, width);
    lemma_pow2_adds(gate_bits, 2 * width);
    assert(gate * q + left * p + right < g * q) by (nonlinear_arith)
        requires
            0 <= gate < g,
            0 <= left < p,
            0 <= right < p,
            q == p * p,
    ;
}

/// Wirings with operands of `width` bits that pack into the same index are
/// the same wiring.
pub proof fn lemma_packed_index_injective(
    gate1: nat,
    left1: nat,
    right1: nat,
    gate2: nat,
    left2: nat,
    right2: nat,
    width: nat,
)
    requires
        left1 < pow2(width),
        right1 < pow2(width),
        left2 < pow2(width),
        right2 < pow2(width),
        packed_index(gate1, left1, right1, width) == packed_index(gate2, left2, right2, width),
    ensures
        gate1 == gate2,
        left1 == left2,
        right1 == right2,
{
    let p = pow2(width) as int;
    let q = pow2(2 * width) as int;
    lemma_pow2_adds(width, width);
    lemma_pow2_pos(width);
    let index = packed_index(gate1, left1, right1, width) as int;
    let upper1 = gate1 * p + left1;
    let upper2 = gate2 * p + left2;
    assert(index == upper1 * p + right1) by (nonlinear_arith)
        requires
            index == gate1 * q + left1 * p + right1,
            q == p * p,
            upper1 == gate1 * p + left1,
    ;
    assert(index == upper2 * p + right2) by (nonlinear_arith)
        requires
            index == gate2 * q + left2 * p + right2,
            q == p * p,
            upper2 == gate2 * p + left2,
    ;
    lemma_fundamental_div_mod_converse(index, p, upper1, right1 as int);
    lemma_fundamental_div_mod_converse(index, p, upper2, right2 as int);
    lemma_fundamental_div_mod_converse(upper1, p, gate1 as int, left1 as int);
    lemma_fundamental_div_mod_converse(upper2, p, gate2 as int, left2 as int);
}

/// Joining a multiple of `2^shift` and a value below `2^shift` bit by bit
/// adds them.
proof fn lemma_or_is_add(high: usize, low: usize, shift: usize)
    requires
        shift < usize::BITS,
        high as int % pow2(shift as nat) as int == 0,
        low < pow2(shift as nat),
    ensures
        high | low == high + low,
{
    let p = pow2(shift as nat) as int;
    lemma_pow2_pos(shift as nat);
    lemma_usize_shr_is_div(high, shift);
    lemma_usize_shr_is_div(low, shift);
    let quotient = high >> shift;
    assert(quotient * p == high) by {
        vstd::arithmetic::div_mod::lemma_fundamental_div_mod(high as int, p);
        vstd::arithmetic::mul::lemma_mul_is_commutative(quotient as int, p);
    }
    lemma_usize_shl_is_mul(quotient, shift);
    assert(low >> shift == 0) by {
        vstd::arithmetic::div_mod::lemma_basic_div(low as int, p);
    }
    assert(high | low == high + low) by (bit_vector)
        requires
            (high >> shift) << shift == high,
            low >> shift == 0,
            shift < usize::BITS,
    ;
}

/// Packs one gate's wiring into its hypercube index by shifting its address
/// and its left operand into place above the right operand.
pub fn get_gate_properties(gate: usize, left: usize, right: usize, width: usize) -> (index: usize)
    requires
        2 * width < usize::BITS,
        left < pow2(width as nat),
        right < pow2(width as nat),
        packed_index(gate as nat, left as nat, right as nat, width as nat) <= usize::MAX,
    ensures
        index == packed_index(gate as nat, left as nat, right as nat, width as nat),
{
    let ghost p = pow2(width as nat) as int;
    let ghost q = pow2((2 * width) as nat) as int;
    proof {
        lemma_pow2_adds(width as nat, width as nat);
        assert(gate * q <= usize::MAX && left * p <= usize::MAX && left * p < q) by (nonlinear_arith)
            requires
                gate * q + left * p + right <= usize::MAX,
                0 <= gate,
                0 <= left < p,
                0 <= right,
                q == p * p,
        ;
    }
    let shift: usize = 2 * width;
    let high = gate << shift;
    let middle = left << width;
    proof {
        lemma_usize_shl_is_mul(gate, shift);
        lemma_usize_shl_is_mul(left, width);
        assert(high as int % q == 0) by {
            vstd::arithmetic::div_mod::lemma_mod_multiples_basic(gate as int, q);
        }
        lemma_or_is_add(high, middle, shift);
    }
    let upper = high | middle;
    proof {
        assert(upper == (gate * p + left) * p) by (nonlinear_arith)
            requires
                upper == gate * q + left * p,
                q == p * p,
        ;
        assert(upper as int % p == 0) by {
            vstd::arithmetic::div_mod::lemma_mod_multiples_basic(gate * p + left, p);
        }
        lemma_or_is_add(upper, right, width);
    }
    upper | right
}

/// The positions listed in `indices`.
pub open spec fn hot_positions(indices: Seq<usize>) -> Set<int> {
    Set::new(|position: int| exists|j: int| 0 <= j < indices.len() && #[trigger] indices[j] == position)
}

/// Listing one more position adds it to the listed positions.
pub proof fn lemma_hot_positions_push(indices: Seq<usize>, position: usize)
    ensures
        hot_positions(indices.push(position)) == hot_positions(indices).insert(position as int),
{
    let longer = indices.push(position);
    assert forall|p: int| hot_positions(longer).contains(p) implies hot_positions(indices).insert(
        position as int,
    ).contains(p) by {
        let j = choose|j: int| 0 <= j < longer.len() && #[trigger] longer[j] == p;
    }
    assert forall|p: int|
        hot_positions(indices).insert(position as int).contains(p) implies hot_positions(
        longer,
    ).contains(p) by {
        if p == position {
            assert(longer[indices.len() as int] == p);
        } else {
            let j = choose|j: int| 0 <= j < indices.len() && #[trigger] indices[j] == p;
            assert(longer[j] == p);
        }
    }
}

/// `table` holds `one` at the positions in `hot` and `zero` everywhere else.
pub open spec fn is_indicator<F>(table: Seq<F>, hot: Set<int>, zero: F, one: F) -> bool {
    forall|i: int|
        0 <= i < table.len() ==> #[trigger] table[i] == if hot.contains(i) {
            one
        } else {
            zero
        }
}

/// `table` is the indicator of `hot` over a zero and a one of `F`: values
/// that `F` makes of the integers 0 and 1.
pub open spec fn is_indicator_table<F: From<u64>>(table: Seq<F>, hot: Set<int>) -> bool {
    exists|zero: F, one: F|
        {
            &&& #[trigger] is_indicator(table, hot, zero, one)
            &&& is_made_from(0u64, zero)
            &&& is_made_from(1u64, one)
        }
}

/// Where the conversion from integers is as `vstd` specifies it, an
/// indicator table holds the values that it specifies for 0 and 1.
pub proof fn lemma_indicator_table_values<F: From<u64>>(table: Seq<F>, hot: Set<int>)
    requires
        F::obeys_from_spec(),
        is_indicator_table(table, hot),
    ensures
        is_indicator(table, hot, F::from_spec(0u64), F::from_spec(1u64)),
{
    let (zero, one) = choose|zero: F, one: F|
        {
            &&& #[trigger] is_indicator(table, hot, zero, one)
            &&& is_made_from(0u64, zero)
            &&& is_made_from(1u64, one)
        };
}

/// The table of `size` entries that holds `one` at the positions listed in
/// `indices` and `zero` everywhere else, or `None` if a listed position is
/// not in the table.
pub fn indicator_table<F: Copy>(indices: &Vec<usize>, size: usize, zero: F, one: F) -> (res: Option<
    Vec<F>,
>)
    ensures
        res is Some <==> forall|j: int| 0 <= j < indices@.len() ==> indices@[j] < size,
        res matches Some(table) ==> table@.len() == size && is_indicator(
            table@,
            hot_positions(indices@),
            zero,
            one,
        ),
{
    let mut table: Vec<F> = Vec::with_capacity(size);
    let mut i: usize = 0;
    while i < size
        invariant
            i <= size,
            table@.len() == i,
            forall|k: int| 0 <= k < i ==> #[trigger] table@[k] == zero,
        decreases size - i,
    {
        table.push(zero);
        i = i + 1;
    }
    let count = indices.len();
    let mut j: usize = 0;
    while j < count
        invariant
            count == indices@.len(),
            j <= count,
            table@.len() == size,
            forall|k: int| 0 <= k < j ==> indices@[k] < size,
            is_indicator(table@, hot_positions(indices@.subrange(0, j as int)), zero, one),
        decreases count - j,
    {
        let position = indices[j];
        if position >= size {
            return None;
        }
        let ghost seen_next = indices@.subrange(0, j as int + 1);
        table[position] = one;
        proof {
            assert forall|i: int| 0 <= i < table@.len() implies #[trigger] table@[i] == if hot_positions(
                seen_next,
            ).contains(i) {
                one
            } else {
                zero
            } by {
                if i == position {
                    assert(seen_next[j as int] == i);
                }
            }
        }
        j = j + 1;
    }
    proof {
        assert(indices@.subrange(0, count as int) =~= indices@);
    }
    Some(table)
}

/// The multilinear polynomial in `num_vars` variables that is one at the
/// hypercube vertices listed in `indices` and zero at every other vertex.
///
/// Fails with `VariableCountMismatch` exactly when the hypercube does not
/// fit in a machine word or a listed vertex is not on it.
pub fn usize_vec_to_mle<F: From<u64> + Copy>(indices: &Vec<usize>, num_vars: usize) -> (res: Result<
    Multilinear<F>,
    CircuitError,
>)
    ensures
        res is Ok <==> pow2(num_vars as nat) <= usize::MAX && forall|j: int|
            0 <= j < indices@.len() ==> indices@[j] < pow2(num_vars as nat),
        res matches Err(e) ==> e == CircuitError::VariableCountMismatch,
        res matches Ok(poly) ==> {
            &&& poly.num_vars == num_vars
            &&& poly.well_formed()
            &&& is_indicator_table(poly.evaluations@, hot_positions(indices@))
        },
{
    let size = match hypercube_size(num_vars) {
        Some(size) => size,
        None => {
            return Err(CircuitError::VariableCountMismatch);
        },
    };
    let zero = F::from(0u64);
    let one = F::from(1u64);
    match indicator_table(indices, size, zero, one) {
        Some(table) => {
            Ok(Multilinear::new(table, num_vars))
        },
        None => Err(CircuitError::VariableCountMismatch),
    }
}

} // verus!
