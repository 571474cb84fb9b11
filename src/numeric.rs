//! Flat arithmetic `a op b` on decimal numbers.
//!
//! Operands are decimals of at most `MAX_DIGITS` digits. Results are
//! computed exactly; one that is whole is written without a decimal point,
//! any other is cut towards zero to `SHOWN_PLACES` places and written
//! without trailing zeros. `%` works on the operands cut to whole numbers.

use vstd::prelude::*;

use crate::template::{digits_end, digits_value, is_digit};
use crate::text::{is_space, is_space_char};

verus! {

/// Longest number, in digits, that an operand may have.
pub const MAX_DIGITS: usize = 11;

/// Decimal places shown of a result that is not whole.
pub const SHOWN_PLACES: u32 = 15;

pub open spec fn pow10(k: nat) -> nat
    decreases k,
{
    if k == 0 {
        1
    } else {
        10 * pow10((k - 1) as nat)
    }
}

/// The digits of `s`, in order, with everything else left out.
pub open spec fn only_digits(s: Seq<char>) -> Seq<char>
    decreases s.len(),
{
    if s.len() == 0 {
        Seq::empty()
    } else if is_digit(s.last()) {
        only_digits(s.drop_last()).push(s.last())
    } else {
        only_digits(s.drop_last())
    }
}

pub open spec fn has_dot(s: Seq<char>) -> bool
    decreases s.len(),
{
    s.len() > 0 && (s.last() == '.' || has_dot(s.drop_last()))
}

/// Number of digits after the last decimal point of `s`.
pub open spec fn places(s: Seq<char>) -> nat
    decreases s.len(),
{
    if s.len() == 0 || s.last() == '.' {
        0
    } else if is_digit(s.last()) && has_dot(s.drop_last()) {
        places(s.drop_last()) + 1
    } else {
        places(s.drop_last())
    }
}

/// A number `-?digits(.digits*)?` as its value in units of
/// `10^-places`, its number of places, and its number of digits.
pub open spec fn number_parts(t: Seq<char>) -> (int, nat, nat) {
    let mag = digits_value(only_digits(t)) as int;
    (if t.len() > 0 && t[0] == '-' {
        -mag
    } else {
        mag
    }, places(t), only_digits(t).len())
}

/// The powers of ten that bound the arithmetic.
pub proof fn lemma_pow10_values()
    ensures
        pow10(11) == 100000000000,
        pow10(15) == 1000000000000000,
        pow10(22) == 10000000000000000000000,
        pow10(38) == 100000000000000000000000000000000000000,
{
    reveal_with_fuel(pow10, 39);
}

pub proof fn lemma_pow10_positive(k: nat)
    ensures
        pow10(k) >= 1,
    decreases k,
{
    if k > 0 {
        lemma_pow10_positive((k - 1) as nat);
    }
}

pub proof fn lemma_pow10_monotone(j: nat, k: nat)
    requires
        j <= k,
    ensures
        pow10(j) <= pow10(k),
    decreases k,
{
    if j < k {
        lemma_pow10_monotone(j, (k - 1) as nat);
        lemma_pow10_positive((k - 1) as nat);
    }
}

/// A number of `k` digits is below `10^k`.
pub proof fn lemma_digits_value_below(s: Seq<char>)
    requires
        forall|i: int| 0 <= i < s.len() ==> is_digit(#[trigger] s[i]),
    ensures
        digits_value(s) < pow10(s.len()),
    decreases s.len(),
{
    if s.len() > 0 {
        lemma_digits_value_below(s.drop_last());
        let v = digits_value(s.drop_last());
        let p = pow10(s.drop_last().len());
        let d = (s.last() as u32 - '0' as u32) as nat;
        assert(v * 10 + d < 10 * p) by (nonlinear_arith)
            requires
                v < p,
                d <= 9,
        ;
    }
}

proof fn lemma_only_digits_are_digits(s: Seq<char>)
    ensures
        forall|i: int| 0 <= i < only_digits(s).len() ==> is_digit(#[trigger] only_digits(s)[i]),
    decreases s.len(),
{
    if s.len() > 0 {
        lemma_only_digits_are_digits(s.drop_last());
        let earlier = only_digits(s.drop_last());
        if is_digit(s.last()) {
            assert forall|i: int| 0 <= i < earlier.len() + 1 implies is_digit(
                #[trigger] earlier.push(s.last())[i],
            ) by {
                if i < earlier.len() {
                    assert(earlier.push(s.last())[i] == earlier[i]);
                }
            }
        }
    }
}

pub fn pow10_of(k: u32) -> (r: u128)
    requires
        k <= 38,
    ensures
        r == pow10(k as nat),
{
    let mut r: u128 = 1;
    let mut i: u32 = 0;
    while i < k
        invariant
            i <= k <= 38,
            r == pow10(i as nat),
        decreases k - i,
    {
        proof {
            lemma_pow10_monotone((i + 1) as nat, 38);
            lemma_pow10_values();
        }
        r = r * 10;
        i += 1;
    }
    r
}

/// Reads the number `v[lo..hi]`: its value in units of `10^-places` and its
/// places; `None` when it has more than `MAX_DIGITS` digits.
fn read_number(v: &Vec<char>, lo: usize, hi: usize) -> (r: Option<(i64, u32)>)
    requires
        lo <= hi <= v.len(),
    ensures
        ({
            let (n, p, count) = number_parts(v@.subrange(lo as int, hi as int));
            &&& r is Some <==> count <= MAX_DIGITS
            &&& r is Some ==> r->0 == (n as i64, p as u32) && -pow10(11) < n < pow10(11) && p <= 11
        }),
{
    let ghost t = v@.subrange(lo as int, hi as int);
    let mut acc: u64 = 0;
    let mut count: usize = 0;
    let mut dot = false;
    let mut scale: u32 = 0;
    let mut k = lo;
    assert(t.take(0) =~= Seq::<char>::empty());
    while k < hi
        invariant
            lo <= k <= hi <= v.len(),
            t == v@.subrange(lo as int, hi as int),
            count == only_digits(t.take(k - lo)).len(),
            count <= MAX_DIGITS,
            acc == digits_value(only_digits(t.take(k - lo))),
            dot == has_dot(t.take(k - lo)),
            scale == places(t.take(k - lo)),
            scale <= count,
        decreases hi - k,
    {
        let c = v[k];
        let ghost before = t.take(k - lo);
        assert(t.take(k - lo + 1).drop_last() =~= before);
        assert(t.take(k - lo + 1).last() == c);
        proof {
            lemma_only_digits_are_digits(before);
            lemma_digits_value_below(only_digits(before));
            lemma_pow10_monotone(count as nat, 11);
            lemma_pow10_values();
        }
        if '0' <= c && c <= '9' {
            if count == MAX_DIGITS {
                proof {
                    lemma_only_digits_grow(t, k - lo + 1);
                }
                return None;
            }
            assert(only_digits(before).push(c).drop_last() =~= only_digits(before));
            acc = acc * 10 + (c as u32 - '0' as u32) as u64;
            count += 1;
            if dot {
                scale += 1;
            }
        } else if c == '.' {
            dot = true;
            scale = 0;
        }
        k += 1;
    }
    assert(t.take(hi - lo) =~= t);
    proof {
        lemma_only_digits_are_digits(t);
        lemma_digits_value_below(only_digits(t));
        lemma_pow10_monotone(count as nat, 11);
        lemma_pow10_values();
    }
    let n: i64 = if hi > lo && v[lo] == '-' {
        -(acc as i64)
    } else {
        acc as i64
    };
    Some((n, scale))
}

proof fn lemma_only_digits_grow(s: Seq<char>, k: int)
    requires
        0 <= k <= s.len(),
    ensures
        only_digits(s).len() >= only_digits(s.take(k)).len(),
    decreases s.len() - k,
{
    if k < s.len() {
        lemma_only_digits_grow(s, k + 1);
        assert(s.take(k + 1).drop_last() =~= s.take(k));
    } else {
        assert(s.take(k) =~= s);
    }
}


/// Why a numeric placeholder was not evaluated.
#[derive(Debug, Clone, Copy, PartialEq, Eq, Structural)]
pub enum NumericError {
    /// The text is not of the form `number op number`.
    Unsupported,
    /// An operand has more than `MAX_DIGITS` digits.
    TooManyDigits,
    /// The divisor of `/`, or of `%` once cut to a whole number, is zero.
    DivisionByZero,
}

/// `s` with every space character removed.
pub open spec fn without_spaces(s: Seq<char>) -> Seq<char>
    decreases s.len(),
{
    if s.len() == 0 {
        Seq::empty()
    } else if s.last() == ' ' {
        without_spaces(s.drop_last())
    } else {
        without_spaces(s.drop_last()).push(s.last())
    }
}

/// Where the number `-?digits(.digits*)?` that starts at index `i` of `s`
/// ends, if one starts there.
pub open spec fn number_end(s: Seq<char>, i: int) -> Option<int> {
    let ds = if 0 <= i < s.len() && s[i] == '-' {
        i + 1
    } else {
        i
    };
    let de = digits_end(s, ds);
    if de == ds {
        None
    } else if de < s.len() && s[de] == '.' {
        Some(digits_end(s, de + 1))
    } else {
        Some(de)
    }
}

/// Index of the first character at or after `j` that is not white space.
pub open spec fn space_end(s: Seq<char>, j: int) -> int
    decreases s.len() - j,
{
    if 0 <= j < s.len() && is_space(s[j]) {
        space_end(s, j + 1)
    } else {
        j
    }
}

pub open spec fn is_operator(c: char) -> bool {
    c == '+' || c == '-' || c == '*' || c == '/' || c == '%'
}

/// When the whole of `s` is `number ws* op ws* number`: the end of the left
/// number, the index of the operator and the start of the right number.
pub open spec fn binary_form(s: Seq<char>) -> Option<(int, int, int)> {
    match number_end(s, 0) {
        Some(le) => {
            let o = space_end(s, le);
            if o < s.len() && is_operator(s[o]) {
                let rs = space_end(s, o + 1);
                if number_end(s, rs) == Some(s.len() as int) {
                    Some((le, o, rs))
                } else {
                    None
                }
            } else {
                None
            }
        },
        None => None,
    }
}

pub open spec fn abs(x: int) -> int {
    if x < 0 {
        -x
    } else {
        x
    }
}

/// `a·10^-p` cut towards zero to a whole number.
pub open spec fn truncated(a: int, p: nat) -> int {
    if a >= 0 {
        a / pow10(p) as int
    } else {
        -((-a) / pow10(p) as int)
    }
}

/// The remainder of `x` by `y`, with the sign of `x`, as Rust's `%` has it.
pub open spec fn remainder(x: int, y: int) -> int {
    if x >= 0 {
        x % abs(y)
    } else {
        -((-x) % abs(y))
    }
}

/// `a·10^-p op b·10^-q` as a fraction `n / d` with `d > 0`; `%` works on the
/// operands cut to whole numbers. `None` when the divisor is zero.
pub open spec fn arith(a: int, p: nat, op: char, b: int, q: nat) -> Option<(int, int)> {
    if op == '+' {
        Some((a * pow10(q) + b * pow10(p), pow10(p + q) as int))
    } else if op == '-' {
        Some((a * pow10(q) - b * pow10(p), pow10(p + q) as int))
    } else if op == '*' {
        Some((a * b, pow10(p + q) as int))
    } else if op == '/' {
        if b == 0 {
            None
        } else if b > 0 {
            Some((a * pow10(q), b * pow10(p)))
        } else {
            Some((-a * pow10(q), -b * pow10(p)))
        }
    } else if truncated(b, q) == 0 {
        None
    } else {
        Some((remainder(truncated(a, p), truncated(b, q)), 1))
    }
}

pub open spec fn digit_char(d: nat) -> char {
    if d == 0 {
        '0'
    } else if d == 1 {
        '1'
    } else if d == 2 {
        '2'
    } else if d == 3 {
        '3'
    } else if d == 4 {
        '4'
    } else if d == 5 {
        '5'
    } else if d == 6 {
        '6'
    } else if d == 7 {
        '7'
    } else if d == 8 {
        '8'
    } else {
        '9'
    }
}

/// The decimal digits of `n`, without leading zeros.
pub open spec fn digits_text(n: nat) -> Seq<char>
    decreases n,
{
    if n < 10 {
        seq![digit_char(n)]
    } else {
        digits_text(n / 10).push(digit_char(n % 10))
    }
}

/// The last `k` decimal digits of `f`, with leading zeros.
pub open spec fn padded_digits(f: nat, k: nat) -> Seq<char>
    decreases k,
{
    if k == 0 {
        Seq::empty()
    } else {
        padded_digits(f / 10, (k - 1) as nat).push(digit_char(f % 10))
    }
}

/// The `k` places of the fraction `f·10^-k`, without trailing zeros.
pub open spec fn fraction_text(f: nat, k: nat) -> Seq<char>
    decreases k,
{
    if k > 0 && f % 10 == 0 {
        fraction_text(f / 10, (k - 1) as nat)
    } else {
        padded_digits(f, k)
    }
}

/// The fraction `n / d` (`d > 0`) cut towards zero to `SHOWN_PLACES`
/// decimal places and written out: a whole number without a decimal point,
/// otherwise without trailing zeros.
pub open spec fn decimal_text(n: int, d: int) -> Seq<char> {
    let m = (abs(n) * pow10(15)) / d;
    let whole = m / pow10(15) as int;
    let frac = m % pow10(15) as int;
    (if n < 0 && m > 0 {
        seq!['-']
    } else {
        Seq::empty()
    }) + digits_text(whole as nat) + (if frac == 0 {
        Seq::empty()
    } else {
        seq!['.'] + fraction_text(frac as nat, 15)
    })
}

/// The value of a numeric placeholder: spaces are dropped, then the whole
/// text must be `number op number` with `op` one of `+ - * / %`.
pub open spec fn numeric_value(expr: Seq<char>) -> Result<Seq<char>, NumericError> {
    let s = without_spaces(expr);
    match binary_form(s) {
        None => Err(NumericError::Unsupported),
        Some((le, o, rs)) => {
            let (a, p, na) = number_parts(s.subrange(0, le));
            let (b, q, nb) = number_parts(s.subrange(rs, s.len() as int));
            if na > MAX_DIGITS || nb > MAX_DIGITS {
                Err(NumericError::TooManyDigits)
            } else {
                match arith(a, p, s[o], b, q) {
                    None => Err(NumericError::DivisionByZero),
                    Some((n, d)) => Ok(decimal_text(n, d)),
                }
            }
        },
    }
}

fn without_spaces_chars(v: &Vec<char>) -> (r: Vec<char>)
    ensures
        r@ == without_spaces(v@),
{
    let mut r: Vec<char> = Vec::new();
    for i in 0..v.len()
        invariant
            r@ == without_spaces(v@.take(i as int)),
    {
        assert(v@.take(i + 1).drop_last() =~= v@.take(i as int));
        if v[i] != ' ' {
            r.push(v[i]);
        }
    }
    assert(v@.take(v.len() as int) =~= v@);
    r
}

fn digits_end_in(v: &Vec<char>, from: usize) -> (r: usize)
    requires
        from <= v.len(),
    ensures
        r == digits_end(v@, from as int),
        from <= r <= v.len(),
        forall|k: int| from <= k < r ==> is_digit(#[trigger] v@[k]),
{
    let mut j = from;
    while j < v.len() && '0' <= v[j] && v[j] <= '9'
        invariant
            from <= j <= v.len(),
            digits_end(v@, from as int) == digits_end(v@, j as int),
            forall|k: int| from <= k < j ==> is_digit(#[trigger] v@[k]),
        decreases v.len() - j,
    {
        j += 1;
    }
    j
}

fn space_end_in(v: &Vec<char>, from: usize) -> (r: usize)
    requires
        from <= v.len(),
    ensures
        r == space_end(v@, from as int),
        from <= r <= v.len(),
{
    let mut j = from;
    while j < v.len() && is_space_char(v[j])
        invariant
            from <= j <= v.len(),
            space_end(v@, from as int) == space_end(v@, j as int),
        decreases v.len() - j,
    {
        j += 1;
    }
    j
}

fn number_end_in(v: &Vec<char>, i: usize) -> (r: Option<usize>)
    requires
        i <= v.len(),
    ensures
        match r {
            Some(e) => number_end(v@, i as int) == Some(e as int) && i < e <= v.len(),
            None => number_end(v@, i as int) is None,
        },
{
    let ds = if i < v.len() && v[i] == '-' {
        i + 1
    } else {
        i
    };
    let de = digits_end_in(v, ds);
    if de == ds {
        None
    } else if de < v.len() && v[de] == '.' {
        Some(digits_end_in(v, de + 1))
    } else {
        Some(de)
    }
}

fn binary_form_of(v: &Vec<char>) -> (r: Option<(usize, usize, usize)>)
    ensures
        match r {
            Some((le, o, rs)) => binary_form(v@) == Some((le as int, o as int, rs as int)) && le
                <= o < rs <= v.len(),
            None => binary_form(v@) is None,
        },
{
    let le = match number_end_in(v, 0) {
        Some(e) => e,
        None => {
            return None;
        },
    };
    let o = space_end_in(v, le);
    if o < v.len() && (v[o] == '+' || v[o] == '-' || v[o] == '*' || v[o] == '/' || v[o] == '%') {
        let rs = space_end_in(v, o + 1);
        match number_end_in(v, rs) {
            Some(re) => {
                if re == v.len() {
                    Some((le, o, rs))
                } else {
                    None
                }
            },
            None => None,
        }
    } else {
        None
    }
}


fn digit_char_of(d: u128) -> (r: char)
    requires
        d < 10,
    ensures
        r == digit_char(d as nat),
{
    if d == 0 {
        '0'
    } else if d == 1 {
        '1'
    } else if d == 2 {
        '2'
    } else if d == 3 {
        '3'
    } else if d == 4 {
        '4'
    } else if d == 5 {
        '5'
    } else if d == 6 {
        '6'
    } else if d == 7 {
        '7'
    } else if d == 8 {
        '8'
    } else {
        '9'
    }
}

fn push_digits(out: &mut Vec<char>, n: u128)
    ensures
        final(out)@ == old(out)@ + digits_text(n as nat),
    decreases n,
{
    if n >= 10 {
        push_digits(out, n / 10);
    }
    out.push(digit_char_of(n % 10));
    proof {
        if n >= 10 {
            assert(final(out)@ =~= old(out)@ + digits_text((n / 10) as nat).push(
                digit_char((n % 10) as nat),
            ));
        } else {
            assert(final(out)@ =~= old(out)@ + seq![digit_char(n as nat)]);
        }
    }
}

fn push_padded(out: &mut Vec<char>, f: u128, k: u32)
    ensures
        final(out)@ == old(out)@ + padded_digits(f as nat, k as nat),
    decreases k,
{
    if k > 0 {
        push_padded(out, f / 10, k - 1);
        out.push(digit_char_of(f % 10));
        assert(final(out)@ =~= old(out)@ + padded_digits((f / 10) as nat, (k - 1) as nat).push(
            digit_char((f % 10) as nat),
        ));
    } else {
        assert(final(out)@ =~= old(out)@);
    }
}

/// Writes `n / d` as `decimal_text` describes.
fn render(n: i128, d: i128) -> (r: Vec<char>)
    requires
        0 < d <= pow10(22),
        abs(n as int) < 2 * pow10(22),
    ensures
        r@ == decimal_text(n as int, d as int),
{
    proof {
        lemma_pow10_values();
    }
    let mag: u128 = if n < 0 {
        (-n) as u128
    } else {
        n as u128
    };
    let scale: u128 = 1_000_000_000_000_000;
    let m = mag * scale / (d as u128);
    let whole = m / scale;
    let frac = m % scale;
    let mut out: Vec<char> = Vec::new();
    if n < 0 && m > 0 {
        out.push('-');
    }
    let ghost sign = out@;
    push_digits(&mut out, whole);
    if frac != 0 {
        out.push('.');
        let mut f = frac;
        let mut k: u32 = 15;
        while k > 0 && f % 10 == 0
            invariant
                fraction_text(frac as nat, 15) == fraction_text(f as nat, k as nat),
            decreases k,
        {
            f = f / 10;
            k = k - 1;
        }
        push_padded(&mut out, f, k);
        assert(out@ =~= sign + digits_text(whole as nat) + (seq!['.'] + fraction_text(
            frac as nat,
            15,
        )));
    } else {
        assert(out@ =~= sign + digits_text(whole as nat) + Seq::<char>::empty());
    }
    out
}

/// `a·10^-p` cut towards zero, for `10^-p` given as `scale`.
fn truncate(a: i64, p: u32, scale: u64) -> (r: i64)
    requires
        -pow10(11) < a < pow10(11),
        scale == pow10(p as nat),
    ensures
        r == truncated(a as int, p as nat),
        abs(r as int) <= abs(a as int),
{
    proof {
        lemma_pow10_positive(p as nat);
        lemma_pow10_values();
    }
    if a >= 0 {
        ((a as u64) / scale) as i64
    } else {
        -(((-a) as u64 / scale) as i64)
    }
}

/// Computes `arith` on operands of at most `MAX_DIGITS` digits.
fn compute(a: i64, p: u32, op: char, b: i64, q: u32) -> (r: Option<(i128, i128)>)
    requires
        -pow10(11) < a < pow10(11),
        -pow10(11) < b < pow10(11),
        p <= 11,
        q <= 11,
        is_operator(op),
    ensures
        match r {
            Some((n, d)) => arith(a as int, p as nat, op, b as int, q as nat) == Some(
                (n as int, d as int),
            ) && 0 < d <= pow10(22) && abs(n as int) < 2 * pow10(22),
            None => arith(a as int, p as nat, op, b as int, q as nat) is None,
        },
{
    proof {
        lemma_pow10_values();
        lemma_pow10_monotone(p as nat, 11);
        lemma_pow10_monotone(q as nat, 11);
        lemma_pow10_monotone((p + q) as nat, 22);
        lemma_pow10_positive(p as nat);
        lemma_pow10_positive(q as nat);
        lemma_pow10_positive((p + q) as nat);
    }
    let pa = pow10_of(p) as i128;
    let pb = pow10_of(q) as i128;
    let pab = pow10_of(p + q) as i128;
    let a1 = a as i128;
    let b1 = b as i128;
    assert(-10000000000000000000000 < a1 * pb < 10000000000000000000000) by (nonlinear_arith)
        requires
            -100000000000 < a1 < 100000000000,
            1 <= pb <= 100000000000,
    ;
    assert(-10000000000000000000000 < b1 * pa < 10000000000000000000000) by (nonlinear_arith)
        requires
            -100000000000 < b1 < 100000000000,
            1 <= pa <= 100000000000,
    ;
    assert(-10000000000000000000000 < a1 * b1 < 10000000000000000000000) by (nonlinear_arith)
        requires
            -100000000000 < a1 < 100000000000,
            -100000000000 < b1 < 100000000000,
    ;
    if op == '+' {
        Some((a1 * pb + b1 * pa, pab))
    } else if op == '-' {
        Some((a1 * pb - b1 * pa, pab))
    } else if op == '*' {
        Some((a1 * b1, pab))
    } else if op == '/' {
        if b == 0 {
            None
        } else if b > 0 {
            assert(b1 * pa > 0) by (nonlinear_arith)
                requires
                    b1 > 0,
                    pa >= 1,
            ;
            Some((a1 * pb, b1 * pa))
        } else {
            assert((-b1) * pa > 0 && (-b1) * pa == -(b1 * pa) && (-a1) * pb == -(a1 * pb))
                by (nonlinear_arith)
                requires
                    b1 < 0,
                    pa >= 1,
            ;
            Some(((-a1) * pb, (-b1) * pa))
        }
    } else {
        let x = truncate(a, p, pa as u64);
        let y = truncate(b, q, pb as u64);
        if y == 0 {
            return None;
        }
        let m: u64 = if y < 0 {
            (-y) as u64
        } else {
            y as u64
        };
        let rem: i64 = if x >= 0 {
            ((x as u64) % m) as i64
        } else {
            -((((-x) as u64) % m) as i64)
        };
        Some((rem as i128, 1))
    }
}

/// Evaluates a numeric placeholder given as characters.
pub fn evaluate_numeric_chars(expr: &Vec<char>) -> (r: Result<Vec<char>, NumericError>)
    ensures
        match r {
            Ok(v) => numeric_value(expr@) == Ok::<Seq<char>, NumericError>(v@),
            Err(e) => numeric_value(expr@) == Err::<Seq<char>, NumericError>(e),
        },
{
    proof {
        lemma_pow10_values();
    }
    let s = without_spaces_chars(expr);
    let (le, o, rs) = match binary_form_of(&s) {
        Some(form) => form,
        None => {
            return Err(NumericError::Unsupported);
        },
    };
    let left = read_number(&s, 0, le);
    let right = read_number(&s, rs, s.len());
    match (left, right) {
        (Some((a, p)), Some((b, q))) => match compute(a, p, s[o], b, q) {
            Some((n, d)) => Ok(render(n, d)),
            None => Err(NumericError::DivisionByZero),
        },
        _ => Err(NumericError::TooManyDigits),
    }
}

} // verus!
