use vstd::prelude::*;

verus! {

/// One step of the palette. Every operation maps a signed 64-bit integer to
/// another, with two's-complement wraparound where the exact result does not fit.
#[derive(Clone, Copy, Debug, PartialEq, Eq, Structural)]
pub enum Operation {
    /// `n -> n + a`
    Add(i64),
    /// `n -> n * a`
    Mul(i64),
    /// `n -> n / a`, truncating toward zero; `a` must not be zero.
    Div(i64),
    /// `n -> n * 10^(digits of a) + a`: appends the decimal digits of `a`.
    Insert(u64),
    /// `n -> n / 10`: drops the last decimal digit.
    Rem,
}

/// Integer division rounding toward zero, as the machine's signed division does.
pub open spec fn trunc_div(a: int, b: int) -> int {
    if (a >= 0) == (b >= 0) {
        abs(a) / abs(b)
    } else {
        -(abs(a) / abs(b))
    }
}

pub open spec fn abs(a: int) -> int {
    if a >= 0 { a } else { -a }
}

/// The value `x` takes in a signed 64-bit register: `x` reduced modulo 2^64.
pub open spec fn wrap(x: int) -> i64 {
    vstd::wrapping::i64_specs::signed_crop(x)
}

/// Number of decimal digits of `a` (one for zero).
pub open spec fn digit_count(a: nat) -> nat
    decreases a,
{
    if a < 10 { 1 } else { 1 + digit_count(a / 10) }
}

/// `10^d`.
pub open spec fn pow10(d: nat) -> nat
    decreases d,
{
    if d == 0 { 1 } else { 10 * pow10((d - 1) as nat) }
}

/// Whether the operation can be applied to every value (no division by zero).
pub open spec fn well_formed(op: Operation) -> bool {
    !(op matches Operation::Div(a) && a == 0)
}

/// What the operation does to `n`.
pub open spec fn apply(op: Operation, n: i64) -> i64 {
    match op {
        Operation::Add(a) => wrap(n + a),
        Operation::Mul(a) => wrap(n * a),
        Operation::Div(a) => wrap(trunc_div(n as int, a as int)),
        Operation::Insert(a) => wrap(n * pow10(digit_count(a as nat)) + a),
        Operation::Rem => wrap(trunc_div(n as int, 10)),
    }
}

/// `2^64`, the number of values a 64-bit register holds.
pub open spec fn modulus() -> int {
    0x1_0000_0000_0000_0000
}

proof fn lemma_wrap_mod(x: int)
    ensures
        wrap(x) as int % modulus() == x % modulus(),
{
    let m = modulus();
    let r = x % m;
    assert(0 <= r < m) by {
        vstd::arithmetic::div_mod::lemma_mod_bound(x, m);
    }
    vstd::arithmetic::div_mod::lemma_small_mod(r as nat, m as nat);
    if r > i64::MAX {
        vstd::arithmetic::div_mod::lemma_mod_sub_multiples_vanish(r, m);
    }
}

proof fn lemma_wrap_congruent(x: int, y: int)
    requires
        x % modulus() == y % modulus(),
    ensures
        wrap(x) == wrap(y),
{
}

proof fn lemma_wrap_in_range(x: int)
    requires
        i64::MIN <= x <= i64::MAX,
    ensures
        wrap(x) == x,
{
    let m = modulus();
    if x >= 0 {
        vstd::arithmetic::div_mod::lemma_small_mod(x as nat, m as nat);
    } else {
        vstd::arithmetic::div_mod::lemma_mod_add_multiples_vanish(x, m);
        vstd::arithmetic::div_mod::lemma_small_mod((m + x) as nat, m as nat);
    }
}

/// Reduces a value known to lie within one modulus of the `i64` range.
fn wrap_wide(x: i128) -> (r: i64)
    requires
        i64::MIN - modulus() <= x <= i64::MAX + modulus(),
    ensures
        r == wrap(x as int),
{
    let m: i128 = 0x1_0000_0000_0000_0000;
    if x > i64::MAX as i128 {
        proof {
            vstd::arithmetic::div_mod::lemma_mod_sub_multiples_vanish(x as int, modulus());
            lemma_wrap_congruent(x as int, x - modulus());
            lemma_wrap_in_range(x - modulus());
        }
        (x - m) as i64
    } else if x < i64::MIN as i128 {
        proof {
            vstd::arithmetic::div_mod::lemma_mod_add_multiples_vanish(x as int, modulus());
            lemma_wrap_congruent(x as int, x + modulus());
            lemma_wrap_in_range(x + modulus());
        }
        (x + m) as i64
    } else {
        proof {
            lemma_wrap_in_range(x as int);
        }
        x as i64
    }
}

/// The magnitude of `n`, which always fits in 64 unsigned bits.
pub(crate) fn magnitude(n: i64) -> (r: u64)
    ensures
        r == abs(n as int),
{
    if n >= 0 {
        n as u64
    } else {
        (0 - (n as i128)) as u64
    }
}

/// Signed division rounding toward zero, wrapping the one quotient that does
/// not fit (`i64::MIN / -1`).
fn div_toward_zero(n: i64, a: i64) -> (r: i64)
    requires
        a != 0,
    ensures
        r == wrap(trunc_div(n as int, a as int)),
{
    let q: u64 = magnitude(n) / magnitude(a);
    if (n >= 0) == (a >= 0) {
        wrap_wide(q as i128)
    } else {
        wrap_wide(0 - (q as i128))
    }
}

proof fn lemma_digit_count_bound(a: nat)
    ensures
        digit_count(a) <= if a == 0 { 1 } else { a },
    decreases a,
{
    if a >= 10 {
        lemma_digit_count_bound(a / 10);
    }
}

/// How many decimal digits `a` is written with.
pub fn digits_of(a: u64) -> (r: u64)
    ensures
        r == digit_count(a as nat),
{
    let mut count: u64 = 1;
    let mut rest: u64 = a;
    proof {
        lemma_digit_count_bound(a as nat);
    }
    while rest >= 10
        invariant
            count >= 1,
            count - 1 + digit_count(rest as nat) == digit_count(a as nat),
            digit_count(a as nat) <= if a == 0 { 1 } else { a as int },
        decreases rest,
    {
        assert(digit_count(rest as nat) == 1 + digit_count((rest / 10) as nat));
        assert(digit_count((rest / 10) as nat) >= 1);
        rest = rest / 10;
        count = count + 1;
    }
    count
}

/// `10^d` as it comes out of a 64-bit register.
fn pow10_wrapped(d: u64) -> (r: i64)
    ensures
        r == wrap(pow10(d as nat) as int),
{
    let mut p: i64 = 1;
    let mut k: u64 = 0;
    proof {
        lemma_wrap_in_range(1);
    }
    while k < d
        invariant
            k <= d,
            p == wrap(pow10(k as nat) as int),
        decreases d - k,
    {
        proof {
            let m = modulus();
            let big = pow10(k as nat) as int;
            lemma_wrap_mod(big);
            vstd::arithmetic::div_mod::lemma_mul_mod_noop_left(p as int, 10, m);
            vstd::arithmetic::div_mod::lemma_mul_mod_noop_left(big, 10, m);
            lemma_wrap_congruent(p * 10, big * 10);
            assert(pow10((k + 1) as nat) == 10 * pow10(k as nat));
        }
        p = p.wrapping_mul(10);
        k = k + 1;
    }
    p
}

/// Applies one operation to `n`.
pub fn transform(node: &Operation, n: i64) -> (r: i64)
    requires
        well_formed(*node),
    ensures
        r == apply(*node, n),
{
    match node {
        Operation::Add(a) => wrap_wide(n as i128 + *a as i128),
        Operation::Mul(a) => n.wrapping_mul(*a),
        Operation::Div(a) => div_toward_zero(n, *a),
        Operation::Insert(a) => {
            let d = digits_of(*a);
            let p = pow10_wrapped(d);
            let w = n.wrapping_mul(p);
            proof {
                let m = modulus();
                let big = pow10(d as nat) as int;
                lemma_wrap_mod(big);
                lemma_wrap_mod(n * p);
                vstd::arithmetic::div_mod::lemma_mul_mod_noop_right(n as int, p as int, m);
                vstd::arithmetic::div_mod::lemma_mul_mod_noop_right(n as int, big, m);
                vstd::arithmetic::div_mod::lemma_add_mod_noop(w as int, *a as int, m);
                vstd::arithmetic::div_mod::lemma_add_mod_noop(n * big, *a as int, m);
                lemma_wrap_congruent(w + *a, n * big + *a);
            }
            wrap_wide(w as i128 + *a as i128)
        },
        Operation::Rem => {
            let r = div_toward_zero(n, 10);
            proof {
                lemma_wrap_in_range(trunc_div(n as int, 10));
            }
            r
        },
    }
}

} // verus!
