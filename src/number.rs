use vstd::arithmetic::div_mod::lemma_fundamental_div_mod_converse;
use vstd::arithmetic::power2::{lemma2_to64, lemma2_to64_rest, lemma_pow2_adds, lemma_pow2_pos, lemma_pow2_unfold, pow2};
use vstd::prelude::*;

verus! {

/// 2^52: the unit of the exponent field of a binary64 pattern.
pub const EXP_UNIT: u64 = 0x10_0000_0000_0000;

pub const SIGN_BIT: u64 = 0x8000_0000_0000_0000;

/// The quiet NaN that conversions produce.
pub const NAN_BITS: u64 = 0x7FF8_0000_0000_0000;

pub const POS_INFINITY_BITS: u64 = 0x7FF0_0000_0000_0000;

pub const NEG_INFINITY_BITS: u64 = 0xFFF0_0000_0000_0000;

pub const ONE_BITS: u64 = 0x3FF0_0000_0000_0000;

/// Magnitudes below this bound are integers that binary64 holds exactly.
pub const SAFE_BOUND: u64 = 0x20_0000_0000_0000;

/// The biased exponent field of a binary64 pattern.
pub open spec fn exp_field(b: u64) -> int {
    ((b as int) / 0x10_0000_0000_0000) % 2048
}

/// The fraction field of a binary64 pattern.
pub open spec fn frac_field(b: u64) -> int {
    (b as int) % 0x10_0000_0000_0000
}

pub open spec fn sign_field(b: u64) -> bool {
    b >= 0x8000_0000_0000_0000
}

pub open spec fn is_nan_bits(b: u64) -> bool {
    exp_field(b) == 2047 && frac_field(b) != 0
}

pub open spec fn is_infinite_bits(b: u64) -> bool {
    exp_field(b) == 2047 && frac_field(b) == 0
}

pub open spec fn is_zero_bits(b: u64) -> bool {
    exp_field(b) == 0 && frac_field(b) == 0
}

/// The integer that `b` encodes, when it is an integer of magnitude below
/// 2^53 other than -0; `None` for every other pattern.
pub open spec fn safe_int(b: u64) -> Option<int> {
    let e = exp_field(b);
    let f = frac_field(b);
    if e == 0 && f == 0 {
        if sign_field(b) {
            None
        } else {
            Some(0)
        }
    } else if 1023 <= e <= 1075 {
        let m = f + 0x10_0000_0000_0000;
        let d = pow2((1075 - e) as nat) as int;
        if m % d == 0 {
            Some(
                if sign_field(b) {
                    -(m / d)
                } else {
                    m / d
                },
            )
        } else {
            None
        }
    } else {
        None
    }
}

/// A key whose integer order is the numeric order of the non-NaN patterns:
/// the magnitude bits, negated for a set sign bit (both zeros map to 0).
pub open spec fn order_key(b: u64) -> int {
    if sign_field(b) {
        -((b as int) - 0x8000_0000_0000_0000)
    } else {
        b as int
    }
}

/// Numeric equality: NaN equals nothing and the two zeros are equal.
pub open spec fn num_eq(a: u64, b: u64) -> bool {
    !is_nan_bits(a) && !is_nan_bits(b) && (a == b || (is_zero_bits(a) && is_zero_bits(b)))
}

/// Numeric order: NaN is unordered.
pub open spec fn num_lt(a: u64, b: u64) -> bool {
    !is_nan_bits(a) && !is_nan_bits(b) && order_key(a) < order_key(b)
}

/// The decimal digits of `n`, most significant first.
pub open spec fn decimal_text(n: nat) -> Seq<char>
    decreases n,
{
    if n < 10 {
        seq![digit_char(n)]
    } else {
        decimal_text(n / 10) + seq![digit_char(n % 10)]
    }
}

pub open spec fn digit_char(d: nat) -> char {
    ((d + 48) as u8) as char
}

/// The text of an integer: its digits, after a minus sign when negative.
pub open spec fn int_text(n: int) -> Seq<char> {
    if n < 0 {
        seq!['-'] + decimal_text((-n) as nat)
    } else {
        decimal_text(n as nat)
    }
}

/// An IEEE-754 binary64 number, held as its bit pattern.
#[derive(Clone, Copy, Debug, PartialEq, Eq, Structural)]
pub struct AvmNumber {
    pub bits: u64,
}

pub fn exp_of(b: u64) -> (r: u64)
    ensures
        r as int == exp_field(b),
        r < 2048,
{
    (b / EXP_UNIT) % 2048
}

pub fn frac_of(b: u64) -> (r: u64)
    ensures
        r as int == frac_field(b),
        r < EXP_UNIT,
{
    b % EXP_UNIT
}

/// 2^k for k up to 63.
fn pow2_u64(k: u64) -> (r: u64)
    requires
        k < 64,
    ensures
        r as nat == pow2(k as nat),
{
    let mut r: u64 = 1;
    let mut i: u64 = 0;
    proof {
        lemma2_to64();
    }
    while i < k
        invariant
            i <= k < 64,
            r as nat == pow2(i as nat),
        decreases k - i,
    {
        proof {
            lemma_pow2_unfold((i + 1) as nat);
            lemma_pow2_strictly_below((i + 1) as u64);
        }
        r = r * 2;
        i = i + 1;
    }
    r
}

proof fn lemma_pow2_strictly_below(k: u64)
    requires
        k < 64,
    ensures
        pow2(k as nat) <= 0x8000_0000_0000_0000,
    decreases 63 - k,
{
    lemma2_to64();
    if k < 63 {
        lemma_pow2_strictly_below((k + 1) as u64);
        lemma_pow2_unfold((k + 1) as nat);
        lemma_pow2_pos(k as nat);
    } else {
        lemma_pow2_unfold(64);
    }
}

/// Splitting a pattern into sign, exponent and fraction fields.
proof fn lemma_fields(s: int, e: int, f: int)
    requires
        0 <= s <= 1,
        0 <= e < 2048,
        0 <= f < 0x10_0000_0000_0000,
    ensures
        ({
            let b = (s * 0x8000_0000_0000_0000 + e * 0x10_0000_0000_0000 + f) as u64;
            &&& b as int == s * 0x8000_0000_0000_0000 + e * 0x10_0000_0000_0000 + f
            &&& exp_field(b) == e
            &&& frac_field(b) == f
            &&& sign_field(b) == (s == 1)
        }),
{
    let x = s * 0x8000_0000_0000_0000 + e * 0x10_0000_0000_0000 + f;
    assert(0 <= x < 0x1_0000_0000_0000_0000) by (nonlinear_arith)
        requires
            0 <= s <= 1,
            0 <= e < 2048,
            0 <= f < 0x10_0000_0000_0000,
            x == s * 0x8000_0000_0000_0000 + e * 0x10_0000_0000_0000 + f,
    ;
    let q = s * 2048 + e;
    assert(x == q * 0x10_0000_0000_0000 + f) by (nonlinear_arith)
        requires
            x == s * 0x8000_0000_0000_0000 + e * 0x10_0000_0000_0000 + f,
            q == s * 2048 + e,
    ;
    lemma_fundamental_div_mod_converse(x, 0x10_0000_0000_0000, q, f);
    lemma_fundamental_div_mod_converse(q, 2048, s, e);
    assert(s == 1 ==> x >= 0x8000_0000_0000_0000);
    if s == 0 {
        assert(x < 0x8000_0000_0000_0000) by (nonlinear_arith)
            requires
                s == 0,
                0 <= e < 2048,
                0 <= f < 0x10_0000_0000_0000,
                x == s * 0x8000_0000_0000_0000 + e * 0x10_0000_0000_0000 + f,
        ;
    }
}

impl AvmNumber {
    pub fn nan() -> (r: AvmNumber)
        ensures
            r.bits == NAN_BITS,
            is_nan_bits(r.bits),
    {
        AvmNumber { bits: NAN_BITS }
    }

    pub fn is_nan(&self) -> (r: bool)
        ensures
            r == is_nan_bits(self.bits),
    {
        exp_of(self.bits) == 2047 && frac_of(self.bits) != 0
    }

    pub fn is_zero(&self) -> (r: bool)
        ensures
            r == is_zero_bits(self.bits),
    {
        exp_of(self.bits) == 0 && frac_of(self.bits) == 0
    }

    pub fn is_infinite(&self) -> (r: bool)
        ensures
            r == is_infinite_bits(self.bits),
    {
        exp_of(self.bits) == 2047 && frac_of(self.bits) == 0
    }

    pub fn is_negative(&self) -> (r: bool)
        ensures
            r == sign_field(self.bits),
    {
        self.bits >= SIGN_BIT
    }

    /// The number that encodes `n` exactly.
    pub fn from_u64(n: u64) -> (r: AvmNumber)
        requires
            n < SAFE_BOUND,
        ensures
            safe_int(r.bits) == Some(n as int),
            !sign_field(r.bits),
    {
        if n == 0 {
            proof {
                lemma_fields(0, 0, 0);
            }
            return AvmNumber { bits: 0 };
        }
        let mut e: u64 = 0;
        let mut p: u64 = 1;
        proof {
            lemma2_to64();
            lemma2_to64_rest();
        }
        while p <= n / 2
            invariant
                1 <= p <= n < SAFE_BOUND,
                e <= 52,
                p as nat == pow2(e as nat),
                pow2(52) == 0x10_0000_0000_0000,
            decreases n - p,
        {
            proof {
                lemma_pow2_unfold((e + 1) as nat);
                if e == 52 {
                    assert(p * 2 >= SAFE_BOUND);
                }
            }
            p = p * 2;
            e = e + 1;
        }
        let q = pow2_u64(52 - e);
        proof {
            lemma_pow2_adds(e as nat, (52 - e) as nat);
            assert(e as nat + (52 - e) as nat == 52nat);
            assert(pow2(52) == pow2(e as nat) * pow2((52 - e) as nat));
            lemma2_to64();
            lemma2_to64_rest();
            lemma_pow2_pos((52 - e) as nat);
            assert(p * q == EXP_UNIT) by (nonlinear_arith)
                requires
                    p as nat * q as nat == pow2(52),
                    pow2(52) == 0x10_0000_0000_0000,
            ;
            assert(n * q < 2 * EXP_UNIT) by (nonlinear_arith)
                requires
                    n < 2 * p,
                    p * q == EXP_UNIT,
                    q > 0,
            ;
            assert(n * q >= EXP_UNIT) by (nonlinear_arith)
                requires
                    n >= p,
                    p * q == EXP_UNIT,
                    q > 0,
            ;
        }
        let m = n * q;
        let f = m - EXP_UNIT;
        let bits = (1023 + e) * EXP_UNIT + f;
        proof {
            lemma_fields(0, (1023 + e) as int, f as int);
            assert((1075 - (1023 + e)) as nat == (52 - e) as nat);
            lemma_fundamental_div_mod_converse(m as int, q as int, n as int, 0);
        }
        AvmNumber { bits }
    }

    /// The number that encodes `n` exactly.
    pub fn from_i64(n: i64) -> (r: AvmNumber)
        requires
            -(SAFE_BOUND as int) < n < SAFE_BOUND,
        ensures
            safe_int(r.bits) == Some(n as int),
    {
        if n >= 0 {
            AvmNumber::from_u64(n as u64)
        } else {
            let m = AvmNumber::from_u64((-n) as u64);
            proof {
                let b = m.bits;
                let e = exp_field(b);
                let f = frac_field(b);
                lemma_fields(0, e, f);
                assert(b as int == e * 0x10_0000_0000_0000 + f) by (nonlinear_arith)
                    requires
                        e == ((b as int) / 0x10_0000_0000_0000) % 2048,
                        f == (b as int) % 0x10_0000_0000_0000,
                        b < 0x8000_0000_0000_0000,
                ;
                lemma_fields(1, e, f);
            }
            AvmNumber { bits: m.bits + SIGN_BIT }
        }
    }

    /// The integer that this number encodes, if it is a safe integer other
    /// than -0.
    pub fn to_safe_int(&self) -> (r: Option<i64>)
        ensures
            r matches Some(n) ==> safe_int(self.bits) == Some(n as int) && -(SAFE_BOUND as int) < n
                < SAFE_BOUND,
            r is None ==> safe_int(self.bits) is None,
    {
        let e = exp_of(self.bits);
        let f = frac_of(self.bits);
        let neg = self.bits >= SIGN_BIT;
        if e == 0 && f == 0 {
            if neg {
                None
            } else {
                Some(0)
            }
        } else if 1023 <= e && e <= 1075 {
            let m = f + EXP_UNIT;
            let d = pow2_u64(1075 - e);
            proof {
                lemma_pow2_pos((1075 - e) as nat);
            }
            if m % d == 0 {
                let v = (m / d) as i64;
                proof {
                    assert(m / d <= m);
                }
                if neg {
                    Some(-v)
                } else {
                    Some(v)
                }
            } else {
                None
            }
        } else {
            None
        }
    }

    /// Numeric equality (`NaN` equals nothing, `+0` equals `-0`).
    pub fn num_equals(&self, other: &AvmNumber) -> (r: bool)
        ensures
            r == num_eq(self.bits, other.bits),
    {
        !self.is_nan() && !other.is_nan() && (self.bits == other.bits || (self.is_zero()
            && other.is_zero()))
    }

    fn key(&self) -> (r: i64)
        ensures
            r as int == order_key(self.bits),
    {
        if self.bits >= SIGN_BIT {
            -((self.bits - SIGN_BIT) as i64)
        } else {
            self.bits as i64
        }
    }

    /// Numeric order (`NaN` is unordered).
    pub fn num_less(&self, other: &AvmNumber) -> (r: bool)
        ensures
            r == num_lt(self.bits, other.bits),
    {
        !self.is_nan() && !other.is_nan() && self.key() < other.key()
    }
}

/// The decimal text of `n`.
pub fn decimal_chars(n: u64) -> (r: Vec<char>)
    ensures
        r@ == decimal_text(n as nat),
    decreases n,
{
    if n < 10 {
        let c = ((n + 48) as u8) as char;
        vec![c]
    } else {
        let mut r = decimal_chars(n / 10);
        let c = ((n % 10 + 48) as u8) as char;
        r.push(c);
        r
    }
}

/// The text of the integer `n`.
pub fn int_chars(n: i64) -> (r: Vec<char>)
    requires
        n > i64::MIN,
    ensures
        r@ == int_text(n as int),
{
    if n < 0 {
        let mut r = vec!['-'];
        let mut d = decimal_chars((-n) as u64);
        r.append(&mut d);
        r
    } else {
        decimal_chars(n as u64)
    }
}

/// `k` zeros.
pub open spec fn zeros(k: int) -> Seq<char> {
    Seq::new(k as nat, |i: int| '0')
}

/// The exponent part of the scientific form: `e`, a sign, the magnitude.
pub open spec fn exponent_text(x: int) -> Seq<char> {
    if x >= 0 {
        seq!['e', '+'] + decimal_text(x as nat)
    } else {
        seq!['e', '-'] + decimal_text((-x) as nat)
    }
}

/// ECMA-262 ToString of the positive number `0.s × 10^n`, where `s` holds
/// the shortest decimal digits of the number.
pub open spec fn ecma_positive_text(s: Seq<char>, n: int) -> Seq<char> {
    let k = s.len() as int;
    if k <= n <= 21 {
        s + zeros(n - k)
    } else if 0 < n <= 21 {
        s.subrange(0, n) + seq!['.'] + s.subrange(n, k)
    } else if -6 < n <= 0 {
        seq!['0', '.'] + zeros(-n) + s
    } else if k == 1 {
        s + exponent_text(n - 1)
    } else {
        s.subrange(0, 1) + seq!['.'] + s.subrange(1, k) + exponent_text(n - 1)
    }
}

pub open spec fn ecma_text(negative: bool, s: Seq<char>, n: int) -> Seq<char> {
    if negative {
        seq!['-'] + ecma_positive_text(s, n)
    } else {
        ecma_positive_text(s, n)
    }
}

pub open spec fn is_digit(c: char) -> bool {
    '0' <= c <= '9'
}

/// Shortest digits as ECMA-262 wants them: at least one, all decimal, the
/// first not zero.
pub open spec fn valid_digits(s: Seq<char>) -> bool {
    &&& s.len() >= 1
    &&& s[0] != '0'
    &&& forall|i: int| 0 <= i < s.len() ==> is_digit(#[trigger] s[i])
}

fn push_zeros(out: &mut Vec<char>, k: i64)
    requires
        k >= 0,
    ensures
        final(out)@ == old(out)@ + zeros(k as int),
{
    let mut i: i64 = 0;
    while i < k
        invariant
            0 <= i <= k,
            out@ == old(out)@ + zeros(i as int),
        decreases k - i,
    {
        out.push('0');
        i = i + 1;
        assert(out@ =~= old(out)@ + zeros(i as int));
    }
}

fn push_range(out: &mut Vec<char>, s: &Vec<char>, from: usize, to: usize)
    requires
        from <= to <= s@.len(),
    ensures
        final(out)@ == old(out)@ + s@.subrange(from as int, to as int),
{
    let mut i = from;
    while i < to
        invariant
            from <= i <= to,
            to <= s@.len(),
            out@ == old(out)@ + s@.subrange(from as int, i as int),
        decreases to - i,
    {
        out.push(s[i]);
        i = i + 1;
        assert(out@ =~= old(out)@ + s@.subrange(from as int, i as int));
    }
}

fn push_exponent(out: &mut Vec<char>, x: i64)
    requires
        -100000 < x < 100000,
    ensures
        final(out)@ == old(out)@ + exponent_text(x as int),
{
    out.push('e');
    if x >= 0 {
        out.push('+');
        let mut d = decimal_chars(x as u64);
        out.append(&mut d);
    } else {
        out.push('-');
        let mut d = decimal_chars((-x) as u64);
        out.append(&mut d);
    }
    assert(final(out)@ =~= old(out)@ + exponent_text(x as int));
}

/// ECMA-262 ToString of `±0.s × 10^n`.
pub fn ecma_chars(negative: bool, s: &Vec<char>, n: i64) -> (r: Vec<char>)
    requires
        s@.len() >= 1,
        s@.len() < 1000,
        -10000 < n < 10000,
    ensures
        r@ == ecma_text(negative, s@, n as int),
{
    let mut out: Vec<char> = Vec::new();
    if negative {
        out.push('-');
    }
    let ghost start = out@;
    let k = s.len() as i64;
    if k <= n && n <= 21 {
        push_range(&mut out, s, 0, s.len());
        push_zeros(&mut out, n - k);
        assert(s@.subrange(0, k as int) =~= s@);
    } else if 0 < n && n <= 21 {
        push_range(&mut out, s, 0, n as usize);
        out.push('.');
        push_range(&mut out, s, n as usize, s.len());
    } else if -6 < n && n <= 0 {
        out.push('0');
        out.push('.');
        push_zeros(&mut out, -n);
        push_range(&mut out, s, 0, s.len());
        assert(s@.subrange(0, k as int) =~= s@);
    } else if k == 1 {
        push_range(&mut out, s, 0, 1);
        push_exponent(&mut out, n - 1);
        assert(s@.subrange(0, 1) =~= s@);
    } else {
        push_range(&mut out, s, 0, 1);
        out.push('.');
        push_range(&mut out, s, 1, s.len());
        push_exponent(&mut out, n - 1);
    }
    proof {
        let p = ecma_positive_text(s@, n as int);
        assert(out@ =~= start + p);
        if negative {
            assert(start =~= seq!['-']);
        } else {
            assert(start =~= Seq::<char>::empty());
        }
    }
    out
}

} // verus!
