//! The dynamically typed runtime value and the errors of a run.
//!
//! A number is held as the 64 bits of its double-precision encoding: one
//! sign bit, eleven exponent bits, fifty-two fraction bits. The engine never
//! does arithmetic on numbers; it only asks whether a number is zero, which
//! vector index it stands for, and whether two numbers are equal.

use vstd::arithmetic::power2::{
    lemma2_to64, lemma2_to64_rest, lemma_pow2_adds, lemma_pow2_pos, lemma_pow2_unfold, pow2,
};
use vstd::bits::{lemma_u64_shl_is_mul, lemma_u64_shr_is_div};
use vstd::prelude::*;

verus! {

/// A runtime value. Strings, vectors, maps and the frames a closure has
/// captured live in the store; a value holds their handle, so copying the
/// value copies the handle and not the contents.
#[derive(Clone, Copy, Debug, PartialEq, Eq, Structural)]
pub enum Value {
    Null,
    /// The encoding of a double-precision number.
    Number(u64),
    /// The handle of an immutable string.
    Str(usize),
    /// The handle of a shared, mutable vector.
    Vector(usize),
    /// The handle of a shared, mutable map.
    Mapping(usize),
    /// A function of the program, by its index, with the frame that was
    /// current where the function value was made.
    Closure(usize, usize),
    /// A callable of the host, by its number.
    Native(usize),
}

/// Why a run stopped without a result.
#[derive(Clone, Copy, Debug, PartialEq, Eq, Structural)]
pub enum RunError {
    /// The callee of a call is neither a closure nor a native callable.
    NotCallable,
    /// An element was asked of something that is neither vector nor map.
    NotIndexable,
    /// A vector index is no number, or its truncation is outside the vector.
    IndexOutOfRange,
    /// A map was read at a key it does not hold.
    KeyNotFound,
    /// An operand has the wrong type.
    TypeMismatch,
    /// A native callable failed, with the code it gave.
    Native(u64),
    /// A variable address leads outside the chain of frames.
    BadAddress,
    /// A value names a string, vector, map, frame or function that does not
    /// exist.
    BadHandle,
    /// A literal names a constant that the program does not hold.
    BadConstant,
    /// The run used up its allowance of nested calls and loop rounds.
    OutOfFuel,
}

pub const SIGN_BIT: u64 = 0x8000_0000_0000_0000;

pub const FRACTION_MASK: u64 = 0x000f_ffff_ffff_ffff;

pub const HIDDEN_BIT: u64 = 0x0010_0000_0000_0000;

/// The exponent field of a number's encoding.
pub open spec fn biased_exponent(bits: u64) -> nat {
    ((bits >> 52) & 0x7ff) as nat
}

/// The fraction field with the hidden leading one: the significand of a
/// normal number, scaled by 2^52.
pub open spec fn significand(bits: u64) -> nat {
    ((bits & FRACTION_MASK) | HIDDEN_BIT) as nat
}

/// Whether the encoding is that of a NaN.
pub open spec fn number_is_nan(bits: u64) -> bool {
    biased_exponent(bits) == 0x7ff && bits & FRACTION_MASK != 0
}

/// Whether the encoding is that of zero, of either sign.
pub open spec fn number_is_zero(bits: u64) -> bool {
    bits & !SIGN_BIT == 0
}

/// Equality of two numbers as values: a NaN equals nothing, the two zeros
/// equal each other, and otherwise the encodings decide.
pub open spec fn numbers_equal(a: u64, b: u64) -> bool {
    !number_is_nan(a) && !number_is_nan(b) && (a == b || (number_is_zero(a) && number_is_zero(b)))
}

/// The index a number stands for: its truncation toward zero, where that is
/// not negative. Infinities, NaNs and numbers at or below minus one stand
/// for none.
pub open spec fn number_index(bits: u64) -> Option<nat> {
    let e = biased_exponent(bits);
    if e == 0x7ff {
        None
    } else if e < 1023 {
        Some(0)
    } else if bits & SIGN_BIT != 0 {
        None
    } else if e <= 1075 {
        Some(significand(bits) / pow2((1075 - e) as nat))
    } else {
        Some(significand(bits) * pow2((e - 1075) as nat))
    }
}

/// The index a number stands for, where it is at most `limit`.
pub open spec fn number_index_upto(bits: u64, limit: nat) -> Option<usize> {
    match number_index(bits) {
        Some(i) => if i <= limit && i <= usize::MAX {
            Some(i as usize)
        } else {
            None
        },
        None => None,
    }
}

impl Value {
    /// Whether a test on this value succeeds: everything is true but `Null`
    /// and the number zero.
    pub open spec fn truthy(self) -> bool {
        match self {
            Value::Null => false,
            Value::Number(bits) => !number_is_zero(bits),
            _ => true,
        }
    }

    pub fn is_truthy(&self) -> (b: bool)
        ensures
            b == self.truthy(),
    {
        match self {
            Value::Null => false,
            Value::Number(bits) => !is_zero(*bits),
            _ => true,
        }
    }
}

pub fn is_nan(bits: u64) -> (b: bool)
    ensures
        b == number_is_nan(bits),
{
    (bits >> 52) & 0x7ff == 0x7ff && bits & FRACTION_MASK != 0
}

pub fn is_zero(bits: u64) -> (b: bool)
    ensures
        b == number_is_zero(bits),
{
    bits & !SIGN_BIT == 0
}

pub fn equal_numbers(a: u64, b: u64) -> (r: bool)
    ensures
        r == numbers_equal(a, b),
{
    !is_nan(a) && !is_nan(b) && (a == b || (is_zero(a) && is_zero(b)))
}

/// The index that the number `bits` stands for, if it is at most `limit`.
pub fn number_to_index(bits: u64, limit: usize) -> (r: Option<usize>)
    ensures
        r == number_index_upto(bits, limit as nat),
{
    let e: u64 = (bits >> 52) & 0x7ff;
    if e == 0x7ff {
        return None;
    }
    if e < 1023 {
        return Some(0);
    }
    if bits & SIGN_BIT != 0 {
        return None;
    }
    let sig: u64 = (bits & FRACTION_MASK) | HIDDEN_BIT;
    assert(0x0010_0000_0000_0000 <= sig < 0x0020_0000_0000_0000) by (bit_vector)
        requires
            sig == (bits & 0x000f_ffff_ffff_ffff) | 0x0010_0000_0000_0000,
    ;
    assert(e <= 0x7ff) by (bit_vector)
        requires
            e == (bits >> 52) & 0x7ff,
    ;
    if e <= 1075 {
        let shift: u64 = 1075 - e;
        let v: u64 = sig >> shift;
        proof {
            lemma_u64_shr_is_div(sig, shift);
        }
        if v <= limit as u64 {
            Some(v as usize)
        } else {
            None
        }
    } else {
        let shift: u64 = e - 1075;
        if shift <= 11 {
            proof {
                lemma2_to64();
                lemma_pow2_adds((11 - shift) as nat, shift as nat);
                lemma_pow2_pos((11 - shift) as nat);
                assert(sig * pow2(shift as nat) <= sig * 2048) by (nonlinear_arith)
                    requires
                        pow2((11 - shift) as nat) * pow2(shift as nat) == 2048,
                        pow2((11 - shift) as nat) >= 1,
                        pow2(shift as nat) >= 0,
                        sig >= 0,
                ;
                lemma_u64_shl_is_mul(sig, shift);
            }
            let v: u64 = sig << shift;
            if v <= limit as u64 {
                Some(v as usize)
            } else {
                None
            }
        } else {
            proof {
                lemma2_to64();
                lemma_pow2_adds(12, (shift - 12) as nat);
                lemma_pow2_pos((shift - 12) as nat);
                assert(sig * pow2(shift as nat) >= 0x1_0000_0000_0000_0000) by (nonlinear_arith)
                    requires
                        pow2(shift as nat) == 4096 * pow2((shift - 12) as nat),
                        pow2((shift - 12) as nat) >= 1,
                        sig >= 0x0010_0000_0000_0000,
                ;
            }
            None
        }
    }
}

/// The significand `m` doubled, and the exponent `e` lowered by one for
/// each doubling, until the significand has its leading one in place.
pub open spec fn normalized(m: nat, e: nat) -> (nat, nat)
    decreases e,
{
    if m >= pow2(52) || e == 0 {
        (m, e)
    } else {
        normalized(2 * m, (e - 1) as nat)
    }
}

/// The encoding of the whole number `n`, where `n` is below 2^53 and so
/// has an encoding that denotes it exactly; 0 for every other `n`.
pub open spec fn integer_bits(n: nat) -> u64 {
    if n == 0 || n >= pow2(53) {
        0
    } else {
        let (m, e) = normalized(n, 1075);
        (e * pow2(52) + (m - pow2(52))) as u64
    }
}

/// The value of the decimal digit `c`.
pub open spec fn digit_value(c: char) -> Option<nat> {
    if '0' <= c <= '9' {
        Some((c as u32 - '0' as u32) as nat)
    } else {
        None
    }
}

/// The whole number that a text of decimal digits denotes; none where a
/// character of the text is no digit.
pub open spec fn digits_value(text: Seq<char>) -> Option<nat>
    decreases text.len(),
{
    if text.len() == 0 {
        Some(0)
    } else {
        match (digits_value(text.drop_last()), digit_value(text.last())) {
            (Some(before), Some(d)) => Some(before * 10 + d),
            _ => None,
        }
    }
}

/// The encoding of the number that a literal denotes, where the literal is
/// a whole number below 2^53 in decimal digits; 0 for every other literal,
/// whose value takes floating-point arithmetic to find.
pub open spec fn literal_bits(text: Seq<char>) -> u64 {
    match digits_value(text) {
        Some(n) => integer_bits(n),
        None => 0,
    }
}

/// What normalizing arrives at: the significand has been doubled once for
/// each step the exponent went down, and has its leading one in place.
pub proof fn lemma_normalized(m: nat, e: nat, steps: nat)
    requires
        1 <= m < pow2(53),
        m * pow2(steps) >= pow2(52),
        steps <= e,
    ensures
        ({
            let (m1, e1) = normalized(m, e);
            &&& e - steps <= e1 <= e
            &&& m1 == m * pow2((e - e1) as nat)
            &&& pow2(52) <= m1 < pow2(53)
        }),
    decreases e,
{
    lemma2_to64();
    lemma2_to64_rest();
    if m >= pow2(52) || e == 0 {
        if m < pow2(52) {
            assert(steps == 0);
            assert(m * pow2(0) == m) by (nonlinear_arith)
                requires
                    pow2(0) == 1,
            ;
        }
        assert(m * pow2(0) == m) by (nonlinear_arith)
            requires
                pow2(0) == 1,
        ;
    } else {
        if steps == 0 {
            assert(m * pow2(0) == m) by (nonlinear_arith)
                requires
                    pow2(0) == 1,
            ;
        }
        lemma_pow2_unfold(steps);
        assert(2 * m * pow2((steps - 1) as nat) == m * pow2(steps)) by (nonlinear_arith)
            requires
                pow2(steps) == 2 * pow2((steps - 1) as nat),
        ;
        lemma_normalized(2 * m, (e - 1) as nat, (steps - 1) as nat);
        let (m1, e1) = normalized(2 * m, (e - 1) as nat);
        lemma_pow2_unfold((e - e1) as nat);
        assert(2 * m * pow2((e - 1 - e1) as nat) == m * pow2((e - e1) as nat)) by (nonlinear_arith)
            requires
                pow2((e - e1) as nat) == 2 * pow2((e - 1 - e1) as nat),
        ;
    }
}

/// The encoding of a whole number below 2^53 denotes that number: the index
/// it stands for is the number itself.
pub proof fn lemma_integer_is_its_index(n: nat)
    requires
        n < pow2(53),
    ensures
        number_index(integer_bits(n)) == Some(n),
{
    lemma2_to64();
    lemma2_to64_rest();
    if n == 0 {
        assert(((0u64 >> 52) & 0x7ff) == 0) by (bit_vector);
    } else {
        assert(n * pow2(52) >= pow2(52)) by (nonlinear_arith)
            requires
                n >= 1,
                pow2(52) > 0,
        ;
        lemma_normalized(n, 1075, 52);
        let (m, e) = normalized(n, 1075);
        let frac: u64 = (m - pow2(52)) as u64;
        let exp: u64 = e as u64;
        let bits: u64 = integer_bits(n);
        assert(bits == exp * 0x10_0000_0000_0000 + frac);
        assert((bits >> 52) & 0x7ff == exp && (bits & 0x000f_ffff_ffff_ffff)
            | 0x0010_0000_0000_0000 == frac + 0x0010_0000_0000_0000 && bits
            & 0x8000_0000_0000_0000 == 0) by (bit_vector)
            requires
                bits == exp * 0x10_0000_0000_0000 + frac,
                exp <= 1075,
                frac < 0x10_0000_0000_0000,
        ;
        let down = (1075 - e) as nat;
        lemma_pow2_pos(down);
        assert((n * pow2(down)) / pow2(down) == n) by (nonlinear_arith)
            requires
                pow2(down) > 0,
        ;
    }
}

/// A text of digits denotes at least what its beginnings denote.
pub proof fn lemma_digits_grow(text: Seq<char>, i: int)
    requires
        0 <= i <= text.len(),
        digits_value(text) is Some,
    ensures
        digits_value(text.take(i)) is Some,
        digits_value(text.take(i)).unwrap() <= digits_value(text).unwrap(),
    decreases text.len(),
{
    if i == text.len() {
        assert(text.take(i) =~= text);
    } else {
        assert(text.drop_last().take(i) =~= text.take(i));
        lemma_digits_grow(text.drop_last(), i);
    }
}

/// The encoding of the whole number `n`.
pub fn bits_of_integer(n: u64) -> (bits: u64)
    ensures
        bits == integer_bits(n as nat),
{
    proof {
        lemma2_to64();
        lemma2_to64_rest();
    }
    if n == 0 || n >= 0x20_0000_0000_0000 {
        return 0;
    }
    let mut m: u64 = n;
    let mut e: u64 = 1075;
    let ghost mut steps: nat = 52;
    proof {
        assert(n * pow2(52) >= pow2(52)) by (nonlinear_arith)
            requires
                n >= 1,
                pow2(52) > 0,
        ;
    }
    while m < 0x10_0000_0000_0000
        invariant
            1 <= m < 0x20_0000_0000_0000,
            steps <= 52,
            1075 - 52 + steps <= e <= 1075,
            m * pow2(steps) >= pow2(52),
            normalized(m as nat, e as nat) == normalized(n as nat, 1075),
        decreases e,
    {
        proof {
            lemma2_to64();
            lemma2_to64_rest();
            if steps == 0 {
                assert(m * pow2(0) == m) by (nonlinear_arith)
                    requires
                        pow2(0) == 1,
                ;
            }
            lemma_pow2_unfold(steps);
            assert(2 * m * pow2((steps - 1) as nat) == m * pow2(steps)) by (nonlinear_arith)
                requires
                    pow2(steps) == 2 * pow2((steps - 1) as nat),
            ;
            steps = (steps - 1) as nat;
        }
        m = m * 2;
        e = e - 1;
    }
    proof {
        lemma2_to64_rest();
    }
    e * 0x10_0000_0000_0000 + (m - 0x10_0000_0000_0000)
}

/// The encoding of the number that the literal `text` denotes, where the
/// engine can find it.
pub fn bits_of_literal(text: &Vec<char>) -> (bits: u64)
    ensures
        bits == literal_bits(text@),
{
    let mut value: u64 = 0;
    let mut i: usize = 0;
    proof {
        lemma2_to64();
        lemma2_to64_rest();
    }
    while i < text.len()
        invariant
            i <= text@.len(),
            digits_value(text@.take(i as int)) == Some(value as nat),
            value < 0x20_0000_0000_0000,
        decreases text@.len() - i,
    {
        let c = text[i];
        proof {
            lemma2_to64_rest();
            assert(text@.take(i + 1).drop_last() =~= text@.take(i as int));
            assert(text@.take(i + 1).last() == c);
        }
        if !('0' <= c && c <= '9') {
            proof {
                if digits_value(text@) is Some {
                    lemma_digits_grow(text@, i + 1);
                }
            }
            return 0;
        }
        let d = (c as u32 - '0' as u32) as u64;
        value = value * 10 + d;
        if value >= 0x20_0000_0000_0000 {
            proof {
                if digits_value(text@) is Some {
                    lemma_digits_grow(text@, i + 1);
                }
            }
            return 0;
        }
        i += 1;
    }
    assert(text@.take(i as int) =~= text@);
    bits_of_integer(value)
}

} // verus!
