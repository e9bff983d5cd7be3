//! Ordering of 64-bit binary floating-point numbers, by their bit patterns.
//!
//! A real is carried as its IEEE 754 bit pattern. Ordering two reals, or a real and an integer,
//! needs no arithmetic on them: the magnitude bits of a pattern are ordered as the magnitudes are.

use vstd::arithmetic::power2::{lemma2_to64, lemma_pow2_adds, lemma_pow2_pos, lemma_pow2_strictly_increases, lemma_pow2_unfold, pow2};
use vstd::prelude::*;

verus! {

/// The three outcomes of comparing two values.
#[derive(Clone, Copy, Debug, PartialEq, Eq, Structural)]
pub enum Order {
    Less,
    Equal,
    Greater,
}

impl Order {
    /// The same comparison seen from the other side.
    pub open spec fn flipped(self) -> Order {
        match self {
            Order::Less => Order::Greater,
            Order::Equal => Order::Equal,
            Order::Greater => Order::Less,
        }
    }

    pub fn reverse(self) -> (r: Order)
        ensures
            r == self.flipped(),
    {
        match self {
            Order::Less => Order::Greater,
            Order::Equal => Order::Equal,
            Order::Greater => Order::Less,
        }
    }
}

/// How two integers compare.
pub open spec fn int_order(a: int, b: int) -> Order {
    if a < b {
        Order::Less
    } else if a == b {
        Order::Equal
    } else {
        Order::Greater
    }
}

pub const SIGN_BIT: u64 = 0x8000_0000_0000_0000;

/// The bit pattern of positive infinity; a magnitude above it is no number.
pub const INFINITY_BITS: u64 = 0x7ff0_0000_0000_0000;

/// The bits of a pattern without its sign.
pub open spec fn magnitude(bits: u64) -> int {
    if bits >= SIGN_BIT {
        bits - SIGN_BIT
    } else {
        bits as int
    }
}

/// Whether the pattern stands for no number (NaN).
pub open spec fn is_nan(bits: u64) -> bool {
    magnitude(bits) > INFINITY_BITS
}

/// An integer that orders patterns as the reals they stand for; both zeros are 0.
pub open spec fn real_key(bits: u64) -> int {
    if bits >= SIGN_BIT {
        -magnitude(bits)
    } else {
        magnitude(bits)
    }
}

/// The position of the highest bit of a positive number.
pub open spec fn log2(a: nat) -> nat
    decreases a,
{
    if a < 2 {
        0
    } else {
        1 + log2(a / 2)
    }
}

/// `a / unit` rounded to the nearest integer, ties to the even one.
pub open spec fn nearest_even(a: nat, unit: nat) -> nat {
    let q = a / unit;
    let r = a % unit;
    if 2 * r > unit || (2 * r == unit && q % 2 == 1) {
        q + 1
    } else {
        q
    }
}

/// The magnitude bits of the double nearest to the positive integer `a`, ties to even. With
/// 53 significant bits the mantissa of a double holds `a` up to its 53rd bit.
pub open spec fn nearest_double(a: nat) -> nat {
    if a == 0 {
        0
    } else {
        let e = log2(a);
        let mantissa = if e <= 52 {
            a * pow2((52 - e) as nat)
        } else {
            nearest_even(a, pow2((e - 52) as nat))
        };
        (e + 1022) * 0x10_0000_0000_0000 + mantissa
    }
}

/// The order key of the double nearest to an integer.
pub open spec fn int_key(n: int) -> int {
    if n < 0 {
        -(nearest_double((-n) as nat) as int)
    } else {
        nearest_double(n as nat) as int
    }
}

/// How two reals compare; a comparison with NaN counts as equal.
pub open spec fn real_order(a: u64, b: u64) -> Order {
    if is_nan(a) || is_nan(b) {
        Order::Equal
    } else {
        int_order(real_key(a), real_key(b))
    }
}

/// How an integer and a real compare, the integer taken as its nearest double.
pub open spec fn int_real_order(a: i64, b: u64) -> Order {
    if is_nan(b) {
        Order::Equal
    } else {
        int_order(int_key(a as int), real_key(b))
    }
}

fn key_of(bits: u64) -> (r: i64)
    ensures
        r == real_key(bits),
{
    if bits >= SIGN_BIT {
        -((bits - SIGN_BIT) as i64)
    } else {
        bits as i64
    }
}

fn nan(bits: u64) -> (r: bool)
    ensures
        r == is_nan(bits),
{
    if bits >= SIGN_BIT {
        bits - SIGN_BIT > INFINITY_BITS
    } else {
        bits > INFINITY_BITS
    }
}

pub fn order_i64(a: i64, b: i64) -> (r: Order)
    ensures
        r == int_order(a as int, b as int),
{
    if a < b {
        Order::Less
    } else if a == b {
        Order::Equal
    } else {
        Order::Greater
    }
}

pub fn order_reals(a: u64, b: u64) -> (r: Order)
    ensures
        r == real_order(a, b),
{
    if nan(a) || nan(b) {
        Order::Equal
    } else {
        order_i64(key_of(a), key_of(b))
    }
}

proof fn lemma_log2_bounds(a: nat)
    requires
        a > 0,
    ensures
        pow2(log2(a)) <= a,
        a < pow2(log2(a) + 1),
    decreases a,
{
    lemma2_to64();
    if a >= 2 {
        lemma_log2_bounds(a / 2);
        lemma_pow2_unfold(log2(a));
        lemma_pow2_unfold(log2(a) + 1);
    }
}

proof fn lemma_log2_is(a: nat, e: nat)
    requires
        pow2(e) <= a < pow2(e + 1),
    ensures
        log2(a) == e,
{
    lemma_pow2_pos(e);
    lemma_log2_bounds(a);
    let l = log2(a);
    if l < e {
        if l + 1 < e {
            lemma_pow2_strictly_increases(l + 1, e);
        }
    } else if l > e {
        if e + 1 < l {
            lemma_pow2_strictly_increases(e + 1, l);
        }
    }
}

proof fn lemma_nearest_even_bound(a: nat, unit: nat, top: nat)
    requires
        unit > 0,
        a < unit * top,
    ensures
        nearest_even(a, unit) <= top,
{
    assert(a / unit < top) by (nonlinear_arith)
        requires
            unit > 0,
            a < unit * top,
    ;
}

/// The magnitude bits of the double nearest to `a`.
fn double_of(a: u64) -> (r: u64)
    requires
        a <= SIGN_BIT,
    ensures
        r == nearest_double(a as nat),
        r <= i64::MAX,
{
    if a == 0 {
        return 0;
    }
    let mut e: u64 = 0;
    let mut power: u64 = 1;
    proof {
        lemma2_to64();
    }
    while e < 63 && power <= a / 2
        invariant
            0 < a <= SIGN_BIT,
            e <= 63,
            power == pow2(e as nat),
            power <= a,
        decreases 63 - e,
    {
        proof {
            lemma_pow2_unfold((e + 1) as nat);
        }
        power = power * 2;
        e = e + 1;
    }
    proof {
        lemma_pow2_unfold((e + 1) as nat);
        if e == 63 {
            lemma2_to64();
            assert(pow2(63) == 0x8000_0000_0000_0000) by {
                lemma2_to64();
                lemma_pow2_unfold(64);
            }
        }
        lemma_log2_is(a as nat, e as nat);
    }
    let mantissa: u64 = if e <= 52 {
        let mut scaled: u64 = a;
        let mut k: u64 = e;
        proof {
            assert(a * pow2(0) == a) by {
                lemma2_to64();
            }
        }
        while k < 52
            invariant
                e <= k <= 52,
                scaled == a * pow2((k - e) as nat),
                a < pow2((e + 1) as nat),
                scaled < pow2((k + 1) as nat),
                a > 0,
            decreases 52 - k,
        {
            proof {
                lemma_pow2_unfold((k + 1 - e) as nat);
                lemma_pow2_unfold((k + 2) as nat);
                assert(a * (2 * pow2((k - e) as nat)) == 2 * (a * pow2((k - e) as nat)))
                    by (nonlinear_arith);
                lemma2_to64();
                assert(pow2((k + 1) as nat) <= pow2(52)) by {
                    if k + 1 < 52 {
                        lemma_pow2_strictly_increases((k + 1) as nat, 52);
                    }
                }
                assert(pow2(52) == 0x10_0000_0000_0000) by {
                    lemma_small_powers();
                }
            }
            scaled = scaled * 2;
            k = k + 1;
        }
        proof {
            lemma_small_powers();
        }
        scaled
    } else {
        let mut unit: u64 = 1;
        let mut k: u64 = 52;
        proof {
            lemma2_to64();
        }
        while k < e
            invariant
                52 <= k <= e <= 63,
                unit == pow2((k - 52) as nat),
                unit <= 2048,
                k - 52 <= 11,
                unit == pow2((k - 52) as nat),
            decreases e - k,
        {
            proof {
                lemma_pow2_unfold((k + 1 - 52) as nat);
                lemma2_to64();
                assert(pow2((k - 52) as nat) <= 1024) by {
                    if k - 52 < 10 {
                        lemma_pow2_strictly_increases((k - 52) as nat, 10);
                    }
                }
            }
            unit = unit * 2;
            k = k + 1;
        }
        let q: u64 = a / unit;
        let rem: u64 = a % unit;
        proof {
            lemma_pow2_adds((e - 52) as nat, 53);
            lemma_small_powers();
            lemma_nearest_even_bound(a as nat, unit as nat, pow2(53));
        }
        if 2 * rem > unit || (2 * rem == unit && q % 2 == 1) {
            q + 1
        } else {
            q
        }
    };
    assert(mantissa <= 0x20_0000_0000_0000);
    assert((e + 1022) * 0x10_0000_0000_0000 + mantissa <= 0x43f0_0000_0000_0000 + 0x20_0000_0000_0000);
    (e + 1022) * 0x10_0000_0000_0000 + mantissa
}

proof fn lemma_small_powers()
    ensures
        pow2(52) == 0x10_0000_0000_0000,
        pow2(53) == 0x20_0000_0000_0000,
{
    lemma2_to64();
    lemma_pow2_adds(32, 20);
    lemma_pow2_adds(32, 21);
}

/// The largest integer up to which every integer is a double.
pub const EXACT_INTEGERS: i64 = 0x20_0000_0000_0000;

/// The mantissa of a positive integer that is a double has 53 bits.
proof fn lemma_exact_mantissa(a: nat)
    requires
        0 < a <= EXACT_INTEGERS,
    ensures
        log2(a) <= 53,
        log2(a) == 53 ==> a == EXACT_INTEGERS && nearest_double(a) == (53 + 1022)
            * 0x10_0000_0000_0000 + 0x10_0000_0000_0000,
        log2(a) <= 52 ==> nearest_double(a) == (log2(a) + 1022) * 0x10_0000_0000_0000 + a * pow2(
            (52 - log2(a)) as nat,
        ) && 0x10_0000_0000_0000 <= a * pow2((52 - log2(a)) as nat) < 0x20_0000_0000_0000,
{
    lemma_small_powers();
    lemma2_to64();
    lemma_log2_bounds(a);
    let e = log2(a);
    if e > 53 {
        lemma_pow2_strictly_increases(53, e);
    }
    if e == 53 {
        assert(a == 0x20_0000_0000_0000);
        assert(pow2(1) == 2);
        assert(nearest_even(0x20_0000_0000_0000, 2) == 0x10_0000_0000_0000);
    }
    if e <= 52 {
        let p = pow2((52 - e) as nat);
        lemma_pow2_adds(e, (52 - e) as nat);
        lemma_pow2_adds(e + 1, (52 - e) as nat);
        lemma_pow2_pos((52 - e) as nat);
        assert(pow2(e) * p <= a * p) by (nonlinear_arith)
            requires
                pow2(e) <= a,
        ;
        assert(a * p < pow2(e + 1) * p) by (nonlinear_arith)
            requires
                a < pow2(e + 1),
                p > 0,
        ;
    }
}

proof fn lemma_nearest_double_increases(a: nat, b: nat)
    requires
        a < b <= EXACT_INTEGERS,
    ensures
        nearest_double(a) < nearest_double(b),
{
    lemma_exact_mantissa(b);
    if a > 0 {
        lemma_exact_mantissa(a);
        let (e, f) = (log2(a), log2(b));
        lemma_log2_bounds(a);
        lemma_log2_bounds(b);
        if e > f {
            if f + 1 < e {
                lemma_pow2_strictly_increases(f + 1, e);
            }
        }
        if e == f && e <= 52 {
            let p = pow2((52 - e) as nat);
            lemma_pow2_pos((52 - e) as nat);
            assert(a * p < b * p) by (nonlinear_arith)
                requires
                    a < b,
                    p > 0,
            ;
        }
    }
}

/// Taking integers that are doubles as such keeps their order.
pub proof fn lemma_int_key_keeps_order(a: int, b: int)
    requires
        -EXACT_INTEGERS <= a <= EXACT_INTEGERS,
        -EXACT_INTEGERS <= b <= EXACT_INTEGERS,
    ensures
        int_order(int_key(a), int_key(b)) == int_order(a, b),
{
    let (x, y) = (
        if a < 0 { (-a) as nat } else { a as nat },
        if b < 0 { (-b) as nat } else { b as nat },
    );
    if x < y {
        lemma_nearest_double_increases(x, y);
    } else if y < x {
        lemma_nearest_double_increases(y, x);
    }
    if a < 0 && 0 < x {
        lemma_nearest_double_increases(0, x);
    }
    if b < 0 && 0 < y {
        lemma_nearest_double_increases(0, y);
    }
}

/// An integer that is a double stands before, at or behind the double of an exponent and a mantissa
/// as its size says.
pub proof fn lemma_integer_beside_real(n: nat, e: nat, m: nat)
    requires
        0 < n <= EXACT_INTEGERS,
        e <= 52,
        0x10_0000_0000_0000 <= m < 0x20_0000_0000_0000,
    ensures
        ({
            let key = (e + 1022) * 0x10_0000_0000_0000 + m;
            let scaled = n * pow2((52 - e) as nat);
            &&& scaled < m <==> nearest_double(n) < key
            &&& scaled == m <==> nearest_double(n) == key
        }),
        nearest_double(n) > 0,
{
    lemma_exact_mantissa(n);
    lemma_small_powers();
    lemma_log2_bounds(n);
    let f = log2(n);
    let p = pow2((52 - e) as nat);
    lemma_pow2_pos((52 - e) as nat);
    if f < e {
        let q = pow2((e - f) as nat);
        lemma_pow2_adds((52 - e) as nat, (e - f) as nat);
        lemma_pow2_unfold((e - f) as nat);
        lemma_pow2_pos((e - f - 1) as nat);
        assert(q >= 2);
        assert(n * pow2((52 - f) as nat) == (n * p) * q) by (nonlinear_arith)
            requires
                pow2((52 - f) as nat) == p * q,
        ;
        assert(n * p < 0x10_0000_0000_0000) by (nonlinear_arith)
            requires
                (n * p) * q < 0x20_0000_0000_0000,
                q >= 2,
                n * p >= 0,
        ;
    } else if f > e {
        lemma_pow2_adds(e + 1, (52 - e) as nat);
        if e + 1 < f {
            lemma_pow2_strictly_increases(e + 1, f);
        }
        assert(n * p >= pow2(e + 1) * p) by (nonlinear_arith)
            requires
                n >= pow2(e + 1),
                p > 0,
        ;
    }
}

/// How an integer and a real compare.
pub fn order_int_real(a: i64, b: u64) -> (r: Order)
    ensures
        r == int_real_order(a, b),
{
    if nan(b) {
        return Order::Equal;
    }
    let key: i64 = if a == i64::MIN {
        -(double_of(SIGN_BIT) as i64)
    } else if a < 0 {
        -(double_of((-a) as u64) as i64)
    } else {
        double_of(a as u64) as i64
    };
    order_i64(key, key_of(b))
}

} // verus!
