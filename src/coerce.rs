use crate::gc::{Gc, GcState};
use vstd::arithmetic::div_mod::{lemma_fundamental_div_mod, lemma_fundamental_div_mod_converse};
use crate::number::{
    ecma_chars, ecma_text, int_chars, int_text, is_infinite_bits, is_nan_bits, is_zero_bits,
    num_eq, num_lt, safe_int, sign_field, valid_digits, AvmNumber, NAN_BITS, NEG_INFINITY_BITS,
    ONE_BITS, POS_INFINITY_BITS, SAFE_BOUND,
};
use crate::object::{
    chars_of, copy_chars, object_at, object_in, text_at, text_in, AvmCallable, AvmObjectPrototype,
    HeapCell, HostFunction,
};
use crate::values::{AvmValue, ToPrimitiveHint};
use vstd::prelude::*;

verus! {

/// The float operations that the machine leaves to its host.
#[derive(Clone, Copy, Debug, PartialEq, Eq, Structural)]
pub enum FloatOp {
    Add,
    Subtract,
    Multiply,
    Divide,
}

/// A question about binary64 arithmetic that the machine cannot settle with
/// exact integer reasoning.
#[derive(Clone, Copy, Debug, PartialEq, Eq, Structural)]
pub enum FloatQuery {
    /// The rounded result of `left op right`.
    Arithmetic { op: FloatOp, left: u64, right: u64 },
    /// The shortest decimal digits `s` and the exponent `n` such that the
    /// magnitude of the number is `0.s × 10^n`.
    Digits { bits: u64 },
}

/// The host's answer to a `FloatQuery`.
pub enum FloatAnswer {
    Arithmetic { op: FloatOp, left: u64, right: u64, result: u64 },
    Digits { bits: u64, digits: Vec<char>, exponent: i64 },
}

#[derive(Clone, Copy, Debug, PartialEq, Eq, Structural)]
pub enum Fault {
    /// The operation is reserved and not carried out.
    Unsupported,
    /// ECMA-262 would throw a TypeError.
    TypeError,
    /// A handle does not name a cell of the expected kind, or the heap is
    /// exhausted.
    Heap,
    /// An answer of the host is malformed.
    BadAnswer,
}

/// The result of a computation that may need an answer from the host.
pub enum Eval<T> {
    Done(T),
    Ask(FloatQuery),
    Fault(Fault),
}

/// The first recorded result of `left op right`.
pub open spec fn first_arith(answers: Seq<FloatAnswer>, op: FloatOp, left: u64, right: u64) -> Option<u64>
    decreases answers.len(),
{
    if answers.len() == 0 {
        None
    } else {
        match first_arith(answers.drop_last(), op, left, right) {
            Some(r) => Some(r),
            None => match answers.last() {
                FloatAnswer::Arithmetic { op: o, left: l, right: r, result } => if o == op && l == left
                    && r == right {
                    Some(result)
                } else {
                    None
                },
                _ => None,
            },
        }
    }
}

/// The first recorded digits and exponent of `bits`.
pub open spec fn first_digits(answers: Seq<FloatAnswer>, bits: u64) -> Option<(Seq<char>, i64)>
    decreases answers.len(),
{
    if answers.len() == 0 {
        None
    } else {
        match first_digits(answers.drop_last(), bits) {
            Some(r) => Some(r),
            None => match answers.last() {
                FloatAnswer::Digits { bits: b, digits, exponent } => if b == bits {
                    Some((digits@, exponent))
                } else {
                    None
                },
                _ => None,
            },
        }
    }
}

pub fn find_arith(answers: &Vec<FloatAnswer>, op: FloatOp, left: u64, right: u64) -> (r: Option<u64>)
    ensures
        r == first_arith(answers@, op, left, right),
{
    let mut i: usize = 0;
    while i < answers.len()
        invariant
            i <= answers@.len(),
            first_arith(answers@.take(i as int), op, left, right) is None,
        decreases answers@.len() - i,
    {
        assert(answers@.take(i + 1).drop_last() =~= answers@.take(i as int));
        match &answers[i] {
            FloatAnswer::Arithmetic { op: o, left: l, right: rr, result } => {
                if *o == op && *l == left && *rr == right {
                    proof {
                        lemma_first_arith_prefix(answers@, (i + 1) as int, op, left, right);
                    }
                    return Some(*result);
                }
            },
            _ => {},
        }
        i = i + 1;
    }
    assert(answers@.take(answers@.len() as int) =~= answers@);
    None
}

proof fn lemma_first_arith_prefix(s: Seq<FloatAnswer>, k: int, op: FloatOp, left: u64, right: u64)
    requires
        0 <= k <= s.len(),
        first_arith(s.take(k), op, left, right) is Some,
    ensures
        first_arith(s, op, left, right) == first_arith(s.take(k), op, left, right),
    decreases s.len() - k,
{
    if k < s.len() {
        assert(s.take(k + 1).drop_last() =~= s.take(k));
        lemma_first_arith_prefix(s, k + 1, op, left, right);
    } else {
        assert(s.take(k) =~= s);
    }
}

proof fn lemma_first_digits_prefix(s: Seq<FloatAnswer>, k: int, bits: u64)
    requires
        0 <= k <= s.len(),
        first_digits(s.take(k), bits) is Some,
    ensures
        first_digits(s, bits) == first_digits(s.take(k), bits),
    decreases s.len() - k,
{
    if k < s.len() {
        assert(s.take(k + 1).drop_last() =~= s.take(k));
        lemma_first_digits_prefix(s, k + 1, bits);
    } else {
        assert(s.take(k) =~= s);
    }
}

/// The recorded digits of `bits`, as an index into `answers`.
pub fn find_digits(answers: &Vec<FloatAnswer>, bits: u64) -> (r: Option<usize>)
    ensures
        r is None ==> first_digits(answers@, bits) is None,
        r matches Some(i) ==> i < answers@.len() && (answers@[i as int] matches FloatAnswer::Digits {
            bits: b,
            digits,
            exponent,
        } && b == bits && first_digits(answers@, bits) == Some((digits@, exponent))),
{
    let mut i: usize = 0;
    while i < answers.len()
        invariant
            i <= answers@.len(),
            first_digits(answers@.take(i as int), bits) is None,
        decreases answers@.len() - i,
    {
        assert(answers@.take(i + 1).drop_last() =~= answers@.take(i as int));
        match &answers[i] {
            FloatAnswer::Digits { bits: b, digits: _, exponent: _ } => {
                if *b == bits {
                    proof {
                        lemma_first_digits_prefix(answers@, (i + 1) as int, bits);
                    }
                    return Some(i);
                }
            },
            _ => {},
        }
        i = i + 1;
    }
    assert(answers@.take(answers@.len() as int) =~= answers@);
    None
}

pub open spec fn eval_text(r: Eval<Vec<char>>) -> Eval<Seq<char>> {
    match r {
        Eval::Done(t) => Eval::Done(t@),
        Eval::Ask(q) => Eval::Ask(q),
        Eval::Fault(f) => Eval::Fault(f),
    }
}

/// ECMA-262 ToString of a number (section 9.8.1). Numbers that are not
/// integers below 2^53 take their shortest digits from the host's answers.
pub open spec fn number_text(bits: u64, answers: Seq<FloatAnswer>) -> Eval<Seq<char>> {
    if is_nan_bits(bits) {
        Eval::Done("NaN"@)
    } else if is_zero_bits(bits) {
        Eval::Done("0"@)
    } else if is_infinite_bits(bits) {
        Eval::Done(
            if sign_field(bits) {
                "-Infinity"@
            } else {
                "Infinity"@
            },
        )
    } else if safe_int(bits) is Some {
        Eval::Done(int_text(safe_int(bits).unwrap()))
    } else {
        match first_digits(answers, bits) {
            Some((s, n)) => if valid_digits(s) && s.len() < 1000 && -10000 < n < 10000 {
                Eval::Done(ecma_text(sign_field(bits), s, n as int))
            } else {
                Eval::Fault(Fault::BadAnswer)
            },
            None => Eval::Ask(FloatQuery::Digits { bits }),
        }
    }
}

fn check_digits(s: &Vec<char>) -> (r: bool)
    ensures
        r == valid_digits(s@),
{
    if s.len() == 0 || s[0] == '0' {
        return false;
    }
    let mut i: usize = 0;
    while i < s.len()
        invariant
            i <= s@.len(),
            forall|j: int| 0 <= j < i ==> crate::number::is_digit(#[trigger] s@[j]),
        decreases s@.len() - i,
    {
        if !('0' <= s[i] && s[i] <= '9') {
            return false;
        }
        i = i + 1;
    }
    true
}

pub fn number_chars(n: AvmNumber, answers: &Vec<FloatAnswer>) -> (r: Eval<Vec<char>>)
    ensures
        eval_text(r) == number_text(n.bits, answers@),
{
    if n.is_nan() {
        Eval::Done(chars_of("NaN"))
    } else if n.is_zero() {
        Eval::Done(chars_of("0"))
    } else if n.is_infinite() {
        if n.is_negative() {
            Eval::Done(chars_of("-Infinity"))
        } else {
            Eval::Done(chars_of("Infinity"))
        }
    } else {
        match n.to_safe_int() {
            Some(v) => {
                Eval::Done(int_chars(v))
            },
            None => match find_digits(answers, n.bits) {
                Some(i) => match &answers[i] {
                    FloatAnswer::Digits { bits: _, digits, exponent } => {
                        if check_digits(digits) && digits.len() < 1000 && -10000 < *exponent
                            && *exponent < 10000 {
                            Eval::Done(ecma_chars(n.is_negative(), digits, *exponent))
                        } else {
                            Eval::Fault(Fault::BadAnswer)
                        }
                    },
                    _ => Eval::Fault(Fault::BadAnswer),
                },
                None => Eval::Ask(FloatQuery::Digits { bits: n.bits }),
            },
        }
    }
}

/// The result of `x op y` when both are integers, the result is an integer
/// below 2^53 in magnitude and, for a zero, its sign is `+`: then binary64
/// arithmetic is exact.
pub open spec fn exact_int(op: FloatOp, x: int, y: int) -> Option<int> {
    let v = match op {
        FloatOp::Add => Some(x + y),
        FloatOp::Subtract => Some(x - y),
        FloatOp::Multiply => if x * y != 0 || (x >= 0 && y >= 0) {
            Some(x * y)
        } else {
            None
        },
        FloatOp::Divide => if y != 0 && (exists|q: int| #[trigger] (q * y) == x) {
            let q = choose|q: int| #[trigger] (q * y) == x;
            if q != 0 || y > 0 {
                Some(q)
            } else {
                None
            }
        } else {
            None
        },
    };
    match v {
        Some(z) => if -(SAFE_BOUND as int) < z < SAFE_BOUND {
            Some(z)
        } else {
            None
        },
        None => None,
    }
}

/// IEEE-754 division by a zero.
pub open spec fn div_by_zero_bits(a: u64, b: u64) -> u64 {
    if is_nan_bits(a) || is_zero_bits(a) {
        NAN_BITS
    } else if sign_field(a) != sign_field(b) {
        NEG_INFINITY_BITS
    } else {
        POS_INFINITY_BITS
    }
}

/// What `a op b` evaluates to: NaN operands and division by zero are
/// settled here, exact integer results are computed, and every other result
/// is the host's recorded answer, or a question to it.
pub open spec fn arith_spec(op: FloatOp, a: u64, b: u64, answers: Seq<FloatAnswer>, r: Eval<u64>) -> bool {
    if is_nan_bits(a) || is_nan_bits(b) {
        r == Eval::<u64>::Done(NAN_BITS)
    } else if op == FloatOp::Divide && is_zero_bits(b) {
        r == Eval::<u64>::Done(div_by_zero_bits(a, b))
    } else if safe_int(a) is Some && safe_int(b) is Some && exact_int(
        op,
        safe_int(a).unwrap(),
        safe_int(b).unwrap(),
    ) is Some {
        r matches Eval::Done(z) && safe_int(z) == exact_int(op, safe_int(a).unwrap(), safe_int(b).unwrap())
    } else {
        match first_arith(answers, op, a, b) {
            Some(z) => r == Eval::<u64>::Done(z),
            None => r == Eval::<u64>::Ask(FloatQuery::Arithmetic { op, left: a, right: b }),
        }
    }
}

fn exact_i64(op: FloatOp, x: i64, y: i64) -> (r: Option<i64>)
    requires
        -(SAFE_BOUND as int) < x < SAFE_BOUND,
        -(SAFE_BOUND as int) < y < SAFE_BOUND,
    ensures
        r matches Some(z) ==> exact_int(op, x as int, y as int) == Some(z as int),
        r is None ==> exact_int(op, x as int, y as int) is None,
{
    let bound: i128 = SAFE_BOUND as i128;
    let z: i128 = match op {
        FloatOp::Add => x as i128 + y as i128,
        FloatOp::Subtract => x as i128 - y as i128,
        FloatOp::Multiply => {
            proof {
                let ax: int = if x < 0 { -(x as int) } else { x as int };
                let ay: int = if y < 0 { -(y as int) } else { y as int };
                assert(ax * ay <= 0x1F_FFFF_FFFF_FFFF * 0x1F_FFFF_FFFF_FFFF) by (nonlinear_arith)
                    requires
                        0 <= ax <= 0x1F_FFFF_FFFF_FFFF,
                        0 <= ay <= 0x1F_FFFF_FFFF_FFFF,
                ;
                assert(ax * ay >= 0) by (nonlinear_arith)
                    requires
                        0 <= ax,
                        0 <= ay,
                ;
                assert((x as int) * (y as int) == ax * ay || (x as int) * (y as int) == -(ax * ay))
                    by (nonlinear_arith)
                    requires
                        ax == if x < 0 { -(x as int) } else { x as int },
                        ay == if y < 0 { -(y as int) } else { y as int },
                ;
            }
            let p = x as i128 * y as i128;
            if p == 0 && (x < 0 || y < 0) {
                return None;
            }
            p
        },
        FloatOp::Divide => {
            if y == 0 {
                return None;
            }
            let ux: u64 = if x < 0 {
                (-x) as u64
            } else {
                x as u64
            };
            let uy: u64 = if y < 0 {
                (-y) as u64
            } else {
                y as u64
            };
            if ux % uy != 0 {
                proof {
                    assert forall|q: int| #[trigger] (q * (y as int)) != x as int by {
                        if q * (y as int) == x as int {
                            let aq = if q < 0 { -q } else { q };
                            assert(aq * (uy as int) == ux as int) by (nonlinear_arith)
                                requires
                                    q * (y as int) == x as int,
                                    aq == if q < 0 { -q } else { q },
                                    uy as int == if y < 0 { -(y as int) } else { y as int },
                                    ux as int == if x < 0 { -(x as int) } else { x as int },
                            ;
                            lemma_fundamental_div_mod_converse(ux as int, uy as int, aq, 0);
                        }
                    }
                }
                return None;
            }
            let uq = ux / uy;
            let q: i64 = if (x < 0) != (y < 0) {
                -(uq as i64)
            } else {
                uq as i64
            };
            proof {
                lemma_fundamental_div_mod(ux as int, uy as int);
                assert(ux as int == (uq as int) * (uy as int) + 0) by (nonlinear_arith)
                    requires
                        ux as int == (uy as int) * ((ux as int) / (uy as int)) + (ux as int) % (uy as int),
                        (ux as int) % (uy as int) == 0,
                        uq as int == (ux as int) / (uy as int),
                ;
                assert(uq <= ux) by (nonlinear_arith)
                    requires
                        uq == ux / uy,
                        uy >= 1,
                ;
                assert((q as int) * (y as int) == x as int) by (nonlinear_arith)
                    requires
                        ux as int == (uq as int) * (uy as int) + 0,
                        q as int == if (x < 0) != (y < 0) { -(uq as int) } else { uq as int },
                        uy as int == if y < 0 { -(y as int) } else { y as int },
                        ux as int == if x < 0 { -(x as int) } else { x as int },
                ;
                let c = choose|c: int| #[trigger] (c * (y as int)) == x as int;
                assert(c == q as int) by (nonlinear_arith)
                    requires
                        c * (y as int) == x as int,
                        (q as int) * (y as int) == x as int,
                        y != 0,
                ;
            }
            if q == 0 && y < 0 {
                return None;
            }
            q as i128
        },
    };
    if -bound < z && z < bound {
        Some(z as i64)
    } else {
        None
    }
}

/// Evaluates `a op b` over binary64 numbers.
pub fn arith(op: FloatOp, a: AvmNumber, b: AvmNumber, answers: &Vec<FloatAnswer>) -> (r: Eval<u64>)
    ensures
        arith_spec(op, a.bits, b.bits, answers@, r),
{
    if a.is_nan() || b.is_nan() {
        return Eval::Done(NAN_BITS);
    }
    if op == FloatOp::Divide && b.is_zero() {
        if a.is_zero() {
            return Eval::Done(NAN_BITS);
        } else if a.is_negative() != b.is_negative() {
            return Eval::Done(NEG_INFINITY_BITS);
        } else {
            return Eval::Done(POS_INFINITY_BITS);
        }
    }
    match (a.to_safe_int(), b.to_safe_int()) {
        (Some(x), Some(y)) => {
            match exact_i64(op, x, y) {
                Some(z) => {
                    return Eval::Done(AvmNumber::from_i64(z).bits);
                },
                None => {},
            }
        },
        _ => {},
    }
    match find_arith(answers, op, a.bits, b.bits) {
        Some(z) => Eval::Done(z),
        None => Eval::Ask(FloatQuery::Arithmetic { op, left: a.bits, right: b.bits }),
    }
}

/// `[[Get]]`: the value stored under `key` on the object that `h` names or
/// along its prototype chain, following at most `fuel` links (a chain that
/// long has a cycle, and ends the search).
pub open spec fn chain_get(heap: GcState<HeapCell>, h: Gc, key: Seq<char>, fuel: nat) -> Eval<Option<AvmValue>>
    decreases fuel,
{
    if fuel == 0 {
        Eval::Done(None)
    } else {
        match object_at(heap, h) {
            None => Eval::Fault(Fault::Heap),
            Some(o) => if !o.wf() {
                Eval::Fault(Fault::Heap)
            } else {
                match o.property_spec(key) {
                    Some(p) => Eval::Done(Some(p.value)),
                    None => match o.prototype {
                        AvmObjectPrototype::Null(_) => Eval::Done(None),
                        AvmObjectPrototype::Object(p) => chain_get(heap, p.handle, key, (fuel - 1) as nat),
                    },
                }
            },
        }
    }
}

pub open spec fn get_spec(heap: GcState<HeapCell>, h: Gc, key: Seq<char>) -> Eval<Option<AvmValue>> {
    chain_get(heap, h, key, heap.boxes@.len())
}

pub fn get_member(heap: &GcState<HeapCell>, h: Gc, key: &Vec<char>) -> (r: Eval<Option<AvmValue>>)
    ensures
        r == get_spec(*heap, h, key@),
{
    let mut fuel: usize = heap.boxes.len();
    let mut cur = h;
    while fuel > 0
        invariant
            chain_get(*heap, cur, key@, fuel as nat) == get_spec(*heap, h, key@),
        decreases fuel,
    {
        match object_in(heap, cur) {
            None => {
                return Eval::Fault(Fault::Heap);
            },
            Some(o) => {
                if !o.is_wf() {
                    return Eval::Fault(Fault::Heap);
                }
                match o.get_local(key) {
                    Some(v) => {
                        return Eval::Done(Some(v));
                    },
                    None => match o.prototype {
                        AvmObjectPrototype::Null(_) => {
                            return Eval::Done(None);
                        },
                        AvmObjectPrototype::Object(p) => {
                            cur = p.handle;
                        },
                    },
                }
            },
        }
        fuel = fuel - 1;
    }
    Eval::Done(None)
}

/// Calls `method` with `this` bound to the object that `this` names, for a
/// text; `None` when `method` is not usable (not a callable object), so
/// that the next method is tried. Calling a byte-code function from a
/// conversion is reserved.
pub open spec fn call_for_text(heap: GcState<HeapCell>, this: Gc, method: Option<AvmValue>) -> Option<Eval<Seq<char>>> {
    match method {
        Some(AvmValue::Object(f)) => match object_at(heap, f.handle) {
            None => Some(Eval::Fault(Fault::Heap)),
            Some(fo) => match fo.callable {
                Some(AvmCallable::HostFunction(HostFunction::ObjectPrototypeToString)) => Some(
                    match object_at(heap, this) {
                        Some(t) => Eval::Done("[object "@ + t.class.text() + "]"@),
                        None => Eval::Fault(Fault::Heap),
                    },
                ),
                Some(AvmCallable::AvmFunction(_)) => Some(Eval::Fault(Fault::Unsupported)),
                None => None,
            },
        },
        _ => None,
    }
}

fn call_text(heap: &GcState<HeapCell>, this: Gc, method: Option<AvmValue>) -> (r: Option<Eval<Vec<char>>>)
    ensures
        r matches Some(e) ==> call_for_text(*heap, this, method) == Some(eval_text(e)),
        r is None ==> call_for_text(*heap, this, method) is None,
{
    match method {
        Some(AvmValue::Object(f)) => match object_in(heap, f.handle) {
            None => Some(Eval::Fault(Fault::Heap)),
            Some(fo) => match &fo.callable {
                Some(AvmCallable::HostFunction(HostFunction::ObjectPrototypeToString)) => {
                    match object_in(heap, this) {
                        Some(t) => {
                            let mut r = chars_of("[object ");
                            let mut c = t.class.name();
                            r.append(&mut c);
                            let mut e = chars_of("]");
                            r.append(&mut e);
                            Some(Eval::Done(r))
                        },
                        None => Some(Eval::Fault(Fault::Heap)),
                    }
                },
                Some(AvmCallable::AvmFunction(_)) => Some(Eval::Fault(Fault::Unsupported)),
                None => None,
            },
        },
        _ => None,
    }
}

/// `[[DefaultValue]](hint)` of an object, which with the intrinsic methods
/// is always a text: `toString` then `valueOf` (the other way round for the
/// `Number` hint); the first usable method (a callable object) is called;
/// when neither is usable, a TypeError.
pub open spec fn default_text(heap: GcState<HeapCell>, this: Gc, hint: ToPrimitiveHint) -> Eval<Seq<char>> {
    let first = if hint == ToPrimitiveHint::Number {
        "valueOf"@
    } else {
        "toString"@
    };
    let second = if hint == ToPrimitiveHint::Number {
        "toString"@
    } else {
        "valueOf"@
    };
    match get_spec(heap, this, first) {
        Eval::Done(m1) => match call_for_text(heap, this, m1) {
            Some(r) => r,
            None => match get_spec(heap, this, second) {
                Eval::Done(m2) => match call_for_text(heap, this, m2) {
                    Some(r) => r,
                    None => Eval::Fault(Fault::TypeError),
                },
                Eval::Ask(q) => Eval::Ask(q),
                Eval::Fault(f) => Eval::Fault(f),
            },
        },
        Eval::Ask(q) => Eval::Ask(q),
        Eval::Fault(f) => Eval::Fault(f),
    }
}

pub fn default_chars(heap: &GcState<HeapCell>, this: Gc, hint: ToPrimitiveHint) -> (r: Eval<Vec<char>>)
    ensures
        eval_text(r) == default_text(*heap, this, hint),
{
    let first = if hint == ToPrimitiveHint::Number {
        chars_of("valueOf")
    } else {
        chars_of("toString")
    };
    let second = if hint == ToPrimitiveHint::Number {
        chars_of("toString")
    } else {
        chars_of("valueOf")
    };
    match get_member(heap, this, &first) {
        Eval::Done(m1) => match call_text(heap, this, m1) {
            Some(r) => r,
            None => match get_member(heap, this, &second) {
                Eval::Done(m2) => match call_text(heap, this, m2) {
                    Some(r) => r,
                    None => Eval::Fault(Fault::TypeError),
                },
                Eval::Ask(q) => Eval::Ask(q),
                Eval::Fault(f) => Eval::Fault(f),
            },
        },
        Eval::Ask(q) => Eval::Ask(q),
        Eval::Fault(f) => Eval::Fault(f),
    }
}

/// ECMA-262 ToString (section 9.8), with `undefined` as the empty text
/// before SWF 7; an object goes through `[[DefaultValue]](String)`.
pub open spec fn value_text(heap: GcState<HeapCell>, swf_version: u8, answers: Seq<FloatAnswer>, v: AvmValue) -> Eval<Seq<char>> {
    match v {
        AvmValue::Undefined(_) => Eval::Done(
            if swf_version >= 7 {
                "undefined"@
            } else {
                ""@
            },
        ),
        AvmValue::Null(_) => Eval::Done("null"@),
        AvmValue::Boolean(b) => Eval::Done(
            if b.value {
                "true"@
            } else {
                "false"@
            },
        ),
        AvmValue::Number(n) => number_text(n.bits, answers),
        AvmValue::String(h) => match text_at(heap, h) {
            Some(t) => Eval::Done(t),
            None => Eval::Fault(Fault::Heap),
        },
        AvmValue::Object(o) => default_text(heap, o.handle, ToPrimitiveHint::String),
    }
}

pub fn value_chars(heap: &GcState<HeapCell>, swf_version: u8, answers: &Vec<FloatAnswer>, v: AvmValue) -> (r: Eval<Vec<char>>)
    ensures
        eval_text(r) == value_text(*heap, swf_version, answers@, v),
{
    match v {
        AvmValue::Undefined(_) => Eval::Done(
            if swf_version >= 7 {
                chars_of("undefined")
            } else {
                chars_of("")
            },
        ),
        AvmValue::Null(_) => Eval::Done(chars_of("null")),
        AvmValue::Boolean(b) => Eval::Done(
            if b.value {
                chars_of("true")
            } else {
                chars_of("false")
            },
        ),
        AvmValue::Number(n) => number_chars(n, answers),
        AvmValue::String(h) => match text_in(heap, h) {
            Some(t) => Eval::Done(copy_chars(t)),
            None => Eval::Fault(Fault::Heap),
        },
        AvmValue::Object(o) => default_chars(heap, o.handle, ToPrimitiveHint::String),
    }
}

/// A primitive value, or a text that a conversion produced and that is not
/// in the heap yet.
pub enum Primitive {
    Value(AvmValue),
    Text(Vec<char>),
}

pub enum PrimitiveSpec {
    Value(AvmValue),
    Text(Seq<char>),
}

pub open spec fn view_primitive(p: Primitive) -> PrimitiveSpec {
    match p {
        Primitive::Value(v) => PrimitiveSpec::Value(v),
        Primitive::Text(t) => PrimitiveSpec::Text(t@),
    }
}

pub open spec fn eval_primitive(r: Eval<Primitive>) -> Eval<PrimitiveSpec> {
    match r {
        Eval::Done(p) => Eval::Done(view_primitive(p)),
        Eval::Ask(q) => Eval::Ask(q),
        Eval::Fault(f) => Eval::Fault(f),
    }
}

/// ECMA-262 ToPrimitive (section 9.1): a primitive is itself; an object
/// goes through `[[DefaultValue]](hint)`.
pub open spec fn to_primitive_spec(heap: GcState<HeapCell>, v: AvmValue, hint: ToPrimitiveHint) -> Eval<PrimitiveSpec> {
    match v {
        AvmValue::Object(o) => match default_text(heap, o.handle, hint) {
            Eval::Done(t) => Eval::Done(PrimitiveSpec::Text(t)),
            Eval::Ask(q) => Eval::Ask(q),
            Eval::Fault(f) => Eval::Fault(f),
        },
        _ => Eval::Done(PrimitiveSpec::Value(v)),
    }
}

pub fn to_primitive(heap: &GcState<HeapCell>, v: AvmValue, hint: ToPrimitiveHint) -> (r: Eval<Primitive>)
    ensures
        eval_primitive(r) == to_primitive_spec(*heap, v, hint),
{
    match v {
        AvmValue::Object(o) => match default_chars(heap, o.handle, hint) {
            Eval::Done(t) => Eval::Done(Primitive::Text(t)),
            Eval::Ask(q) => Eval::Ask(q),
            Eval::Fault(f) => Eval::Fault(f),
        },
        _ => Eval::Done(Primitive::Value(v)),
    }
}

/// ToString of what ToPrimitive produced.
pub open spec fn primitive_text(heap: GcState<HeapCell>, swf_version: u8, answers: Seq<FloatAnswer>, p: Eval<PrimitiveSpec>) -> Eval<Seq<char>> {
    match p {
        Eval::Done(PrimitiveSpec::Value(v)) => value_text(heap, swf_version, answers, v),
        Eval::Done(PrimitiveSpec::Text(t)) => Eval::Done(t),
        Eval::Ask(q) => Eval::Ask(q),
        Eval::Fault(f) => Eval::Fault(f),
    }
}

/// ToString after ToPrimitive with the `String` hint is ToString.
pub proof fn lemma_to_string_of_to_primitive(
    heap: GcState<HeapCell>,
    swf_version: u8,
    answers: Seq<FloatAnswer>,
    v: AvmValue,
)
    ensures
        primitive_text(heap, swf_version, answers, to_primitive_spec(heap, v, ToPrimitiveHint::String))
            == value_text(heap, swf_version, answers, v),
{
}

/// Strict equality (ECMA-262 section 11.9.6): the same type is required;
/// numbers compare numerically (NaN equals nothing), strings by their
/// texts, objects by identity.
pub open spec fn strict_equals_eval(heap: GcState<HeapCell>, l: AvmValue, r: AvmValue) -> Eval<bool> {
    match (l, r) {
        (AvmValue::String(a), AvmValue::String(b)) => match (text_at(heap, a), text_at(heap, b)) {
            (Some(x), Some(y)) => Eval::Done(x == y),
            _ => Eval::Fault(Fault::Heap),
        },
        (AvmValue::Undefined(_), AvmValue::Undefined(_)) => Eval::Done(true),
        (AvmValue::Null(_), AvmValue::Null(_)) => Eval::Done(true),
        (AvmValue::Boolean(a), AvmValue::Boolean(b)) => Eval::Done(a.value == b.value),
        (AvmValue::Number(a), AvmValue::Number(b)) => Eval::Done(num_eq(a.bits, b.bits)),
        (AvmValue::Object(a), AvmValue::Object(b)) => Eval::Done(a.handle == b.handle),
        _ => Eval::Done(false),
    }
}

/// Whether two string handles hold the same text.
pub fn same_text(heap: &GcState<HeapCell>, a: Gc, b: Gc) -> (r: Eval<bool>)
    ensures
        r == match (text_at(*heap, a), text_at(*heap, b)) {
            (Some(x), Some(y)) => Eval::Done(x == y),
            _ => Eval::<bool>::Fault(Fault::Heap),
        },
{
    match (text_in(heap, a), text_in(heap, b)) {
        (Some(x), Some(y)) => Eval::Done(crate::object::same_chars(x, y)),
        _ => Eval::Fault(Fault::Heap),
    }
}

pub fn strict_equals(heap: &GcState<HeapCell>, l: AvmValue, r: AvmValue) -> (res: Eval<bool>)
    ensures
        res == strict_equals_eval(*heap, l, r),
{
    match (l, r) {
        (AvmValue::String(a), AvmValue::String(b)) => same_text(heap, a, b),
        (AvmValue::Undefined(_), AvmValue::Undefined(_)) => Eval::Done(true),
        (AvmValue::Null(_), AvmValue::Null(_)) => Eval::Done(true),
        (AvmValue::Boolean(a), AvmValue::Boolean(b)) => Eval::Done(a.value == b.value),
        (AvmValue::Number(a), AvmValue::Number(b)) => Eval::Done(a.num_equals(&b)),
        (AvmValue::Object(a), AvmValue::Object(b)) => Eval::Done(a.handle == b.handle),
        _ => Eval::Done(false),
    }
}

/// Strict equality is reflexive on every value but NaN, whenever the
/// strings involved are in the heap.
pub proof fn lemma_strict_equals_reflexive(heap: GcState<HeapCell>, v: AvmValue)
    requires
        v matches AvmValue::String(h) ==> text_at(heap, h) is Some,
    ensures
        strict_equals_eval(heap, v, v) == Eval::<bool>::Done(!(v matches AvmValue::Number(n) && is_nan_bits(n.bits))),
{
}

/// Abstract equality (ECMA-262 section 11.9.3), pair by pair without
/// recursion. Comparing a string with a number or a boolean needs ToNumber
/// of a string, which is left open.
pub open spec fn abstract_equals_eval(heap: GcState<HeapCell>, l: AvmValue, r: AvmValue) -> Eval<bool> {
    match (l, r) {
        (AvmValue::Undefined(_), AvmValue::Undefined(_)) => Eval::Done(true),
        (AvmValue::Undefined(_), AvmValue::Null(_)) => Eval::Done(true),
        (AvmValue::Null(_), AvmValue::Undefined(_)) => Eval::Done(true),
        (AvmValue::Null(_), AvmValue::Null(_)) => Eval::Done(true),
        (AvmValue::Undefined(_), _) => Eval::Done(false),
        (AvmValue::Null(_), _) => Eval::Done(false),
        (_, AvmValue::Undefined(_)) => Eval::Done(false),
        (_, AvmValue::Null(_)) => Eval::Done(false),
        (AvmValue::Boolean(a), AvmValue::Boolean(b)) => Eval::Done(a.value == b.value),
        (AvmValue::Number(a), AvmValue::Number(b)) => Eval::Done(num_eq(a.bits, b.bits)),
        (AvmValue::Boolean(a), AvmValue::Number(b)) => Eval::Done(num_eq(bool_bits(a.value), b.bits)),
        (AvmValue::Number(a), AvmValue::Boolean(b)) => Eval::Done(num_eq(a.bits, bool_bits(b.value))),
        (AvmValue::String(a), AvmValue::String(b)) => match (text_at(heap, a), text_at(heap, b)) {
            (Some(x), Some(y)) => Eval::Done(x == y),
            _ => Eval::Fault(Fault::Heap),
        },
        (AvmValue::Object(a), AvmValue::Object(b)) => Eval::Done(a.handle == b.handle),
        (AvmValue::Object(o), AvmValue::String(b)) => match (default_text(heap, o.handle, ToPrimitiveHint::Default), text_at(heap, b)) {
            (Eval::Done(x), Some(y)) => Eval::Done(x == y),
            (Eval::Done(_), None) => Eval::Fault(Fault::Heap),
            (Eval::Ask(q), _) => Eval::Ask(q),
            (Eval::Fault(f), _) => Eval::Fault(f),
        },
        (AvmValue::String(a), AvmValue::Object(o)) => match (text_at(heap, a), default_text(heap, o.handle, ToPrimitiveHint::Default)) {
            (Some(x), Eval::Done(y)) => Eval::Done(x == y),
            (None, Eval::Done(_)) => Eval::Fault(Fault::Heap),
            (_, Eval::Ask(q)) => Eval::Ask(q),
            (_, Eval::Fault(f)) => Eval::Fault(f),
        },
        (AvmValue::Object(o), _) => match default_text(heap, o.handle, ToPrimitiveHint::Default) {
            Eval::Done(_) => Eval::Fault(Fault::Unsupported),
            Eval::Ask(q) => Eval::Ask(q),
            Eval::Fault(f) => Eval::Fault(f),
        },
        (_, AvmValue::Object(o)) => match default_text(heap, o.handle, ToPrimitiveHint::Default) {
            Eval::Done(_) => Eval::Fault(Fault::Unsupported),
            Eval::Ask(q) => Eval::Ask(q),
            Eval::Fault(f) => Eval::Fault(f),
        },
        _ => Eval::Fault(Fault::Unsupported),
    }
}

pub open spec fn bool_bits(b: bool) -> u64 {
    if b {
        ONE_BITS
    } else {
        0u64
    }
}

fn default_equals_text(heap: &GcState<HeapCell>, o: Gc, s: Gc) -> (r: Eval<bool>)
    ensures
        r == match (default_text(*heap, o, ToPrimitiveHint::Default), text_at(*heap, s)) {
            (Eval::Done(x), Some(y)) => Eval::Done(x == y),
            (Eval::Done(_), None) => Eval::Fault(Fault::Heap),
            (Eval::Ask(q), _) => Eval::Ask(q),
            (Eval::Fault(f), _) => Eval::<bool>::Fault(f),
        },
{
    match default_chars(heap, o, ToPrimitiveHint::Default) {
        Eval::Done(x) => match text_in(heap, s) {
            Some(y) => Eval::Done(crate::object::same_chars(&x, y)),
            None => Eval::Fault(Fault::Heap),
        },
        Eval::Ask(q) => Eval::Ask(q),
        Eval::Fault(f) => Eval::Fault(f),
    }
}

fn default_then_unsupported(heap: &GcState<HeapCell>, o: Gc) -> (r: Eval<bool>)
    ensures
        r == match default_text(*heap, o, ToPrimitiveHint::Default) {
            Eval::Done(_) => Eval::Fault(Fault::Unsupported),
            Eval::Ask(q) => Eval::Ask(q),
            Eval::Fault(f) => Eval::<bool>::Fault(f),
        },
{
    match default_chars(heap, o, ToPrimitiveHint::Default) {
        Eval::Done(_) => Eval::Fault(Fault::Unsupported),
        Eval::Ask(q) => Eval::Ask(q),
        Eval::Fault(f) => Eval::Fault(f),
    }
}

pub fn abstract_equals(heap: &GcState<HeapCell>, l: AvmValue, r: AvmValue) -> (res: Eval<bool>)
    ensures
        res == abstract_equals_eval(*heap, l, r),
{
    let one = AvmNumber { bits: ONE_BITS };
    let zero = AvmNumber { bits: 0 };
    match (l, r) {
        (AvmValue::Undefined(_), AvmValue::Undefined(_)) => Eval::Done(true),
        (AvmValue::Undefined(_), AvmValue::Null(_)) => Eval::Done(true),
        (AvmValue::Null(_), AvmValue::Undefined(_)) => Eval::Done(true),
        (AvmValue::Null(_), AvmValue::Null(_)) => Eval::Done(true),
        (AvmValue::Undefined(_), _) => Eval::Done(false),
        (AvmValue::Null(_), _) => Eval::Done(false),
        (_, AvmValue::Undefined(_)) => Eval::Done(false),
        (_, AvmValue::Null(_)) => Eval::Done(false),
        (AvmValue::Boolean(a), AvmValue::Boolean(b)) => Eval::Done(a.value == b.value),
        (AvmValue::Number(a), AvmValue::Number(b)) => Eval::Done(a.num_equals(&b)),
        (AvmValue::Boolean(a), AvmValue::Number(b)) => Eval::Done(
            if a.value {
                one.num_equals(&b)
            } else {
                zero.num_equals(&b)
            },
        ),
        (AvmValue::Number(a), AvmValue::Boolean(b)) => Eval::Done(
            if b.value {
                a.num_equals(&one)
            } else {
                a.num_equals(&zero)
            },
        ),
        (AvmValue::String(a), AvmValue::String(b)) => same_text(heap, a, b),
        (AvmValue::Object(a), AvmValue::Object(b)) => Eval::Done(a.handle == b.handle),
        (AvmValue::Object(o), AvmValue::String(b)) => default_equals_text(heap, o.handle, b),
        (AvmValue::String(a), AvmValue::Object(o)) => default_equals_text(heap, o.handle, a),
        (AvmValue::Object(o), _) => default_then_unsupported(heap, o.handle),
        (_, AvmValue::Object(o)) => default_then_unsupported(heap, o.handle),
        _ => Eval::Fault(Fault::Unsupported),
    }
}

/// The number of a primitive, for the values that need no parsing.
pub open spec fn primitive_number(p: Eval<PrimitiveSpec>) -> Eval<u64> {
    match p {
        Eval::Done(PrimitiveSpec::Value(v)) => match crate::values::to_number_spec(v) {
            Some(x) => Eval::Done(x),
            None => Eval::Fault(Fault::Unsupported),
        },
        Eval::Done(PrimitiveSpec::Text(_)) => Eval::Fault(Fault::Unsupported),
        Eval::Ask(q) => Eval::Ask(q),
        Eval::Fault(f) => Eval::Fault(f),
    }
}

/// The abstract relational comparison `x < y` (ECMA-262 section 11.8.5),
/// with an undefined result (a NaN operand) read as false. Strings are
/// compared through ToNumber, which is left open for them.
pub open spec fn less_than_eval(heap: GcState<HeapCell>, x: AvmValue, y: AvmValue) -> Eval<bool> {
    match primitive_number(to_primitive_spec(heap, x, ToPrimitiveHint::Number)) {
        Eval::Done(a) => match primitive_number(to_primitive_spec(heap, y, ToPrimitiveHint::Number)) {
            Eval::Done(b) => Eval::Done(num_lt(a, b)),
            Eval::Ask(q) => Eval::Ask(q),
            Eval::Fault(f) => Eval::Fault(f),
        },
        Eval::Ask(q) => Eval::Ask(q),
        Eval::Fault(f) => Eval::Fault(f),
    }
}

fn number_of(heap: &GcState<HeapCell>, x: AvmValue) -> (r: Eval<u64>)
    ensures
        r == primitive_number(to_primitive_spec(*heap, x, ToPrimitiveHint::Number)),
{
    match to_primitive(heap, x, ToPrimitiveHint::Number) {
        Eval::Done(Primitive::Value(v)) => match v.to_avm_number() {
            Some(n) => Eval::Done(n.bits),
            None => Eval::Fault(Fault::Unsupported),
        },
        Eval::Done(Primitive::Text(_)) => Eval::Fault(Fault::Unsupported),
        Eval::Ask(q) => Eval::Ask(q),
        Eval::Fault(f) => Eval::Fault(f),
    }
}

pub fn less_than(heap: &GcState<HeapCell>, x: AvmValue, y: AvmValue) -> (r: Eval<bool>)
    ensures
        r == less_than_eval(*heap, x, y),
{
    match number_of(heap, x) {
        Eval::Done(a) => match number_of(heap, y) {
            Eval::Done(b) => Eval::Done(AvmNumber { bits: a }.num_less(&AvmNumber { bits: b })),
            Eval::Ask(q) => Eval::Ask(q),
            Eval::Fault(f) => Eval::Fault(f),
        },
        Eval::Ask(q) => Eval::Ask(q),
        Eval::Fault(f) => Eval::Fault(f),
    }
}

impl AvmValue {
    /// ToString of this value.
    pub fn to_avm_string(&self, heap: &GcState<HeapCell>, swf_version: u8, answers: &Vec<FloatAnswer>) -> (r: Eval<Vec<char>>)
        ensures
            eval_text(r) == value_text(*heap, swf_version, answers@, *self),
    {
        value_chars(heap, swf_version, answers, *self)
    }

    /// ToPrimitive of this value with `hint`.
    pub fn to_avm_primitive(&self, heap: &GcState<HeapCell>, hint: ToPrimitiveHint) -> (r: Eval<Primitive>)
        ensures
            eval_primitive(r) == to_primitive_spec(*heap, *self, hint),
    {
        to_primitive(heap, *self, hint)
    }
}

} // verus!
