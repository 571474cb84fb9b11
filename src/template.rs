//! Note templates: `{{...}}` placeholders holding a date expression, a
//! small arithmetic expression or a variable name.

use vstd::prelude::*;

use std::collections::HashMap;

use crate::datetime::{
    add_days, add_months, days_later, format_date_time, months_later, now_local, strftime_text,
    sub_days, sub_months, LocalDateTime,
};
use crate::numeric::{evaluate_numeric_chars, is_operator, numeric_value, NumericError};
use crate::text::{chars_of, extend_chars, is_space, is_space_char, slice_of, string_of, trim, trim_chars};

verus! {

/// Letters whose runs stand for one calendar field in a date format.
pub open spec fn is_run_letter(c: char) -> bool {
    c == 'Y' || c == 'M' || c == 'D' || c == 'H' || c == 'm' || c == 's' || c == 'w' || c == 'd'
}

fn is_run_letter_char(c: char) -> (r: bool)
    ensures
        r == is_run_letter(c),
{
    c == 'Y' || c == 'M' || c == 'D' || c == 'H' || c == 'm' || c == 's' || c == 'w' || c == 'd'
}

/// Length of the run of `c` at the start of `s`.
pub open spec fn run_len(s: Seq<char>, c: char) -> nat
    decreases s.len(),
{
    if s.len() > 0 && s[0] == c {
        1 + run_len(s.subrange(1, s.len() as int), c)
    } else {
        0
    }
}

pub proof fn lemma_run_len_bounds(s: Seq<char>, c: char)
    ensures
        run_len(s, c) <= s.len(),
        s.len() > 0 && s[0] == c ==> run_len(s, c) >= 1,
    decreases s.len(),
{
    if s.len() > 0 && s[0] == c {
        lemma_run_len_bounds(s.subrange(1, s.len() as int), c);
    }
}

/// The strftime field for a run of `n` copies of the letter `c`.
pub open spec fn field_pattern(c: char, n: nat) -> Seq<char> {
    if c == 'Y' {
        if n >= 4 {
            seq!['%', 'Y']
        } else {
            seq!['%', 'y']
        }
    } else if c == 'M' {
        if n == 4 {
            seq!['%', 'B']
        } else if n == 3 {
            seq!['%', 'b']
        } else if n == 2 {
            seq!['%', 'm']
        } else {
            seq!['%', '-', 'm']
        }
    } else if c == 'D' {
        if n == 3 {
            seq!['%', 'j']
        } else if n == 2 {
            seq!['%', 'd']
        } else {
            seq!['%', '-', 'd']
        }
    } else if c == 'H' {
        if n >= 2 {
            seq!['%', 'H']
        } else {
            seq!['%', '-', 'H']
        }
    } else if c == 'm' {
        if n >= 2 {
            seq!['%', 'M']
        } else {
            seq!['%', '-', 'M']
        }
    } else if c == 's' {
        if n >= 2 {
            seq!['%', 'S']
        } else {
            seq!['%', '-', 'S']
        }
    } else if c == 'w' {
        seq!['%', 'V']
    } else if n == 4 {
        seq!['%', 'A']
    } else if n == 3 {
        seq!['%', 'a']
    } else if n == 2 {
        seq!['%', 'd']
    } else {
        seq!['%', '-', 'd']
    }
}

/// How many characters of the date format `s` (not empty) its first token
/// takes.
pub open spec fn token_len(s: Seq<char>) -> int {
    if is_run_letter(s[0]) {
        run_len(s, s[0]) as int
    } else if s[0] == 'a' && s.len() > 1 && s[1] == 'a' {
        2
    } else {
        1
    }
}

/// What the first token of the date format `s` (not empty) becomes.
pub open spec fn token_pattern(s: Seq<char>) -> Seq<char> {
    if is_run_letter(s[0]) {
        field_pattern(s[0], run_len(s, s[0]))
    } else if s[0] == 'a' || s[0] == 'A' {
        seq!['%', 'p']
    } else if s[0] == '%' {
        seq!['%', '%']
    } else {
        seq![s[0]]
    }
}

/// The strftime pattern for a date format written with moment-style letter
/// runs (`YYYY-MM-DD`, `dddd`, `HH:mm`): each run becomes its field, `a` or
/// `aa` and `A` the AM/PM marker, and every other character stands for
/// itself.
pub open spec fn chrono_pattern(s: Seq<char>) -> Seq<char>
    decreases s.len(),
{
    if s.len() == 0 {
        Seq::empty()
    } else {
        proof {
            lemma_run_len_bounds(s, s[0]);
        }
        token_pattern(s) + chrono_pattern(s.subrange(token_len(s), s.len() as int))
    }
}

fn field_pattern_chars(c: char, n: usize) -> (r: Vec<char>)
    requires
        is_run_letter(c),
    ensures
        r@ == field_pattern(c, n as nat),
{
    if c == 'Y' {
        if n >= 4 {
            vec!['%', 'Y']
        } else {
            vec!['%', 'y']
        }
    } else if c == 'M' {
        if n == 4 {
            vec!['%', 'B']
        } else if n == 3 {
            vec!['%', 'b']
        } else if n == 2 {
            vec!['%', 'm']
        } else {
            vec!['%', '-', 'm']
        }
    } else if c == 'D' {
        if n == 3 {
            vec!['%', 'j']
        } else if n == 2 {
            vec!['%', 'd']
        } else {
            vec!['%', '-', 'd']
        }
    } else if c == 'H' {
        if n >= 2 {
            vec!['%', 'H']
        } else {
            vec!['%', '-', 'H']
        }
    } else if c == 'm' {
        if n >= 2 {
            vec!['%', 'M']
        } else {
            vec!['%', '-', 'M']
        }
    } else if c == 's' {
        if n >= 2 {
            vec!['%', 'S']
        } else {
            vec!['%', '-', 'S']
        }
    } else if c == 'w' {
        vec!['%', 'V']
    } else if n == 4 {
        vec!['%', 'A']
    } else if n == 3 {
        vec!['%', 'a']
    } else if n == 2 {
        vec!['%', 'd']
    } else {
        vec!['%', '-', 'd']
    }
}

/// Converts a moment-style date format into a strftime pattern.
pub fn moment_format_chars(v: &Vec<char>) -> (r: Vec<char>)
    ensures
        r@ == chrono_pattern(v@),
{
    let n = v.len();
    let mut out: Vec<char> = Vec::new();
    let mut i: usize = 0;
    assert(v@.subrange(0, n as int) =~= v@);
    while i < n
        invariant
            i <= n == v.len(),
            chrono_pattern(v@) == out@ + chrono_pattern(v@.subrange(i as int, n as int)),
        decreases n - i,
    {
        let ghost rest = v@.subrange(i as int, n as int);
        let c = v[i];
        let mut j: usize = i + 1;
        let head: Vec<char>;
        if is_run_letter_char(c) {
            assert(rest.subrange(1, rest.len() as int) =~= v@.subrange(i + 1, n as int));
            while j < n && v[j] == c
                invariant
                    i < j <= n == v.len(),
                    c == rest[0],
                    rest == v@.subrange(i as int, n as int),
                    run_len(rest, c) == (j - i) + run_len(v@.subrange(j as int, n as int), c),
                decreases n - j,
            {
                assert(v@.subrange(j as int, n as int).subrange(1, n - j) =~= v@.subrange(
                    j + 1,
                    n as int,
                ));
                j += 1;
            }
            head = field_pattern_chars(c, j - i);
        } else if c == 'a' || c == 'A' {
            if c == 'a' && j < n && v[j] == 'a' {
                j += 1;
            }
            head = vec!['%', 'p'];
        } else if c == '%' {
            head = vec!['%', '%'];
        } else {
            head = vec![c];
        }
        assert(token_len(rest) == j - i);
        assert(rest.subrange(j - i, rest.len() as int) =~= v@.subrange(j as int, n as int));
        extend_chars(&mut out, &head);
        i = j;
    }
    out
}



pub open spec fn is_digit(c: char) -> bool {
    '0' <= c <= '9'
}

/// The number that the decimal digits `s` spell.
pub open spec fn digits_value(s: Seq<char>) -> nat
    decreases s.len(),
{
    if s.len() == 0 {
        0
    } else {
        digits_value(s.drop_last()) * 10 + (s.last() as u32 - '0' as u32) as nat
    }
}

/// Index of the first character at or after `j` that is not a digit.
pub open spec fn digits_end(s: Seq<char>, j: int) -> int
    decreases s.len() - j,
{
    if 0 <= j < s.len() && is_digit(s[j]) {
        digits_end(s, j + 1)
    } else {
        j
    }
}

pub open spec fn is_unit(c: char) -> bool {
    c == 'd' || c == 'w' || c == 'm' || c == 'y'
}

/// The offset step `[+-]?digits[dwmy]` that starts at index `i` of `s`, if
/// one does: where it ends, whether it counts backwards, its amount and its
/// unit.
pub open spec fn step_at(s: Seq<char>, i: int) -> Option<(int, bool, nat, char)> {
    let signed = s[i] == '+' || s[i] == '-';
    let ds = if signed {
        i + 1
    } else {
        i
    };
    let de = digits_end(s, ds);
    if ds < de < s.len() && is_unit(s[de]) {
        Some((de + 1, s[i] == '-', digits_value(s.subrange(ds, de)), s[de]))
    } else {
        None
    }
}

/// The offset steps of `s` from index `i` on, when all that stands there
/// is steps `[+-]?digits[dwmy]`, with white space allowed around and
/// between them; `None` when anything else does.
pub open spec fn offset_steps_from(s: Seq<char>, i: int) -> Option<Seq<(bool, nat, char)>>
    decreases s.len() - i,
{
    if i < 0 || i >= s.len() {
        Some(Seq::empty())
    } else if is_space(s[i]) {
        offset_steps_from(s, i + 1)
    } else {
        match step_at(s, i) {
            Some((e, back, amount, unit)) => match offset_steps_from(s, e) {
                Some(rest) => Some(seq![(back, amount, unit)] + rest),
                None => None,
            },
            None => None,
        }
    }
}

/// The steps `done` followed by the steps `rest`, if `rest` is well formed.
pub open spec fn after_steps(
    done: Seq<(bool, nat, char)>,
    rest: Option<Seq<(bool, nat, char)>>,
) -> Option<Seq<(bool, nat, char)>> {
    match rest {
        Some(r) => Some(done + r),
        None => None,
    }
}

/// `t` moved by the offset `s`: `None` when `s` is not wholly offset steps
/// or a step leaves chrono's range.
pub open spec fn shifted_by(t: LocalDateTime, s: Seq<char>) -> Option<LocalDateTime> {
    match offset_steps_from(s, 0) {
        Some(steps) => apply_steps(t, steps),
        None => None,
    }
}

/// One offset step applied to `t`: days, weeks of seven days, months, or
/// years of twelve months. `None` when the date leaves chrono's range or
/// the count of days or months is beyond what chrono takes.
pub open spec fn apply_step(t: LocalDateTime, back: bool, amount: nat, unit: char) -> Option<
    LocalDateTime,
> {
    let (count, within) = if unit == 'd' {
        (amount as int, amount <= u64::MAX)
    } else if unit == 'w' {
        ((7 * amount) as int, 7 * amount <= u64::MAX)
    } else if unit == 'm' {
        (amount as int, amount <= u32::MAX)
    } else {
        ((12 * amount) as int, 12 * amount <= u32::MAX)
    };
    let signed = if back {
        -count
    } else {
        count
    };
    if !within {
        None
    } else if unit == 'd' || unit == 'w' {
        days_later(t, signed)
    } else {
        months_later(t, signed)
    }
}

/// The steps applied to `t` one after another, from the first.
pub open spec fn apply_steps(t: LocalDateTime, steps: Seq<(bool, nat, char)>) -> Option<
    LocalDateTime,
>
    decreases steps.len(),
{
    if steps.len() == 0 {
        Some(t)
    } else {
        match apply_steps(t, steps.drop_last()) {
            Some(u) => apply_step(u, steps.last().0, steps.last().1, steps.last().2),
            None => None,
        }
    }
}

proof fn lemma_apply_steps_fails_on(
    t: LocalDateTime,
    steps: Seq<(bool, nat, char)>,
    more: Seq<(bool, nat, char)>,
)
    requires
        apply_steps(t, steps) is None,
    ensures
        apply_steps(t, steps + more) is None,
    decreases more.len(),
{
    if more.len() > 0 {
        lemma_apply_steps_fails_on(t, steps, more.drop_last());
        assert((steps + more).drop_last() =~= steps + more.drop_last());
    }
}

proof fn lemma_digits_value_grows(s: Seq<char>, k: int)
    requires
        0 <= k <= s.len(),
    ensures
        digits_value(s) >= digits_value(s.take(k)),
    decreases s.len() - k,
{
    if k < s.len() {
        lemma_digits_value_grows(s, k + 1);
        assert(s.take(k + 1).drop_last() =~= s.take(k));
    } else {
        assert(s.take(k) =~= s);
    }
}

fn is_digit_char(c: char) -> (r: bool)
    ensures
        r == is_digit(c),
{
    '0' <= c && c <= '9'
}

/// The number spelled by the digits `v[lo..hi]`, or `None` beyond `u64`.
fn digits_number(v: &Vec<char>, lo: usize, hi: usize) -> (r: Option<u64>)
    requires
        lo <= hi <= v.len(),
        forall|k: int| lo <= k < hi ==> is_digit(#[trigger] v@[k]),
    ensures
        r is Some <==> digits_value(v@.subrange(lo as int, hi as int)) <= u64::MAX,
        r is Some ==> r->0 == digits_value(v@.subrange(lo as int, hi as int)),
{
    let ghost s = v@.subrange(lo as int, hi as int);
    let mut acc: u64 = 0;
    let mut k = lo;
    assert(s.take(0) =~= Seq::<char>::empty());
    while k < hi
        invariant
            lo <= k <= hi <= v.len(),
            s == v@.subrange(lo as int, hi as int),
            forall|j: int| lo <= j < hi ==> is_digit(#[trigger] v@[j]),
            acc == digits_value(s.take(k - lo)),
        decreases hi - k,
    {
        let d = (v[k] as u32 - '0' as u32) as u64;
        assert(s.take(k - lo + 1).drop_last() =~= s.take(k - lo));
        assert(s.take(k - lo + 1).last() == v@[k as int]);
        if acc > (u64::MAX - d) / 10 {
            proof {
                assert(acc * 10 + d > u64::MAX) by (nonlinear_arith)
                    requires
                        acc > (u64::MAX - d) / 10,
                        d <= 9,
                ;
                lemma_digits_value_grows(s, k - lo + 1);
            }
            return None;
        }
        assert(acc * 10 + d <= u64::MAX) by (nonlinear_arith)
            requires
                acc <= (u64::MAX - d) / 10,
                d <= 9,
        ;
        acc = acc * 10 + d;
        k += 1;
    }
    assert(s.take(hi - lo) =~= s);
    Some(acc)
}

/// The offset step at index `i`: its end, direction, the bounds of its
/// digits, and its unit.
fn step_at_chars(v: &Vec<char>, i: usize) -> (r: Option<(usize, bool, usize, usize)>)
    requires
        i < v.len(),
    ensures
        match r {
            Some((e, back, ds, de)) => {
                &&& i <= ds < de < e <= v.len()
                &&& e == de + 1
                &&& forall|k: int| ds <= k < de ==> is_digit(#[trigger] v@[k])
                &&& step_at(v@, i as int) == Some(
                    (
                        e as int,
                        back,
                        digits_value(v@.subrange(ds as int, de as int)),
                        v@[de as int],
                    ),
                )
            },
            None => step_at(v@, i as int) is None,
        },
{
    let n = v.len();
    let signed = v[i] == '+' || v[i] == '-';
    let ds = if signed {
        i + 1
    } else {
        i
    };
    let mut de = ds;
    while de < n && is_digit_char(v[de])
        invariant
            ds <= de <= n == v.len(),
            digits_end(v@, ds as int) == digits_end(v@, de as int),
            forall|k: int| ds <= k < de ==> is_digit(#[trigger] v@[k]),
        decreases n - de,
    {
        de += 1;
    }
    if ds < de && de < n && (v[de] == 'd' || v[de] == 'w' || v[de] == 'm' || v[de] == 'y') {
        Some((de + 1, v[i] == '-', ds, de))
    } else {
        None
    }
}

/// One offset step applied to `t`.
fn apply_step_to(t: LocalDateTime, back: bool, amount: u64, unit: char) -> (r: Option<
    LocalDateTime,
>)
    requires
        t.wf(),
        is_unit(unit),
    ensures
        r == apply_step(t, back, amount as nat, unit),
        r is Some ==> r->0.wf(),
{
    if unit == 'd' || unit == 'w' {
        let days = if unit == 'd' {
            amount
        } else if amount > u64::MAX / 7 {
            return None;
        } else {
            amount * 7
        };
        if back {
            sub_days(t, days)
        } else {
            add_days(t, days)
        }
    } else {
        let months = if unit == 'm' {
            if amount > u32::MAX as u64 {
                return None;
            }
            amount as u32
        } else if amount > (u32::MAX / 12) as u64 {
            return None;
        } else {
            (amount * 12) as u32
        };
        if back {
            sub_months(t, months)
        } else {
            add_months(t, months)
        }
    }
}

/// Applies the offset steps of `offset` (such as `-7d` or `+1m 2w`) to
/// `t`, from the first; `None` when the offset holds anything but steps and
/// white space, or a step leaves chrono's range.
pub fn apply_date_offset(t: LocalDateTime, offset: &Vec<char>) -> (r: Option<LocalDateTime>)
    requires
        t.wf(),
    ensures
        r == shifted_by(t, offset@),
        offset_steps_from(offset@, 0) is None ==> r is None,
        r is Some ==> r->0.wf(),
{
    let n = offset.len();
    let mut i: usize = 0;
    let mut cur = t;
    let ghost done: Seq<(bool, nat, char)> = Seq::empty();
    assert(after_steps(done, offset_steps_from(offset@, 0)) == offset_steps_from(offset@, 0)) by {
        match offset_steps_from(offset@, 0) {
            Some(r) => assert(done + r =~= r),
            None => {},
        }
    }
    while i < n
        invariant
            i <= n == offset.len(),
            cur.wf(),
            offset_steps_from(offset@, 0) == after_steps(done, offset_steps_from(offset@, i as int)),
            apply_steps(t, done) == Some(cur),
        decreases n - i,
    {
        if is_space_char(offset[i]) {
            i += 1;
        } else {
            match step_at_chars(offset, i) {
                Some((e, back, ds, de)) => {
                    let ghost step = (
                        back,
                        digits_value(offset@.subrange(ds as int, de as int)),
                        offset@[de as int],
                    );
                    let ghost rest = offset_steps_from(offset@, e as int);
                    assert(after_steps(done, offset_steps_from(offset@, i as int)) == after_steps(
                        done.push(step),
                        rest,
                    )) by {
                        match rest {
                            Some(r) => assert(done + (seq![step] + r) =~= done.push(step) + r),
                            None => {},
                        }
                    }
                    assert(done.push(step).drop_last() =~= done);
                    let next = match digits_number(offset, ds, de) {
                        Some(amount) => apply_step_to(cur, back, amount, offset[de]),
                        None => None,
                    };
                    match next {
                        Some(u) => {
                            cur = u;
                            proof {
                                done = done.push(step);
                            }
                            i = e;
                        },
                        None => {
                            proof {
                                match rest {
                                    Some(r) => lemma_apply_steps_fails_on(t, done.push(step), r),
                                    None => {},
                                }
                            }
                            return None;
                        },
                    }
                },
                None => {
                    return None;
                },
            }
        }
    }
    assert(done + Seq::<(bool, nat, char)>::empty() =~= done);
    Some(cur)
}

/// Index of the first `'|'` of `s`, or its length when there is none.
pub open spec fn bar_index(s: Seq<char>) -> int
    decreases s.len(),
{
    if s.len() == 0 || s[0] == '|' {
        0
    } else {
        1 + bar_index(s.subrange(1, s.len() as int))
    }
}

pub open spec fn date_prefix() -> Seq<char> {
    seq!['d', 'a', 't', 'e', ':']
}

/// The format and the offset of a date expression `date:FORMAT|OFFSET`
/// (the offset and its bar optional), each trimmed; `None` for text that
/// does not start with `date:`. Text after a second bar is ignored.
pub open spec fn date_parts(expr: Seq<char>) -> Option<(Seq<char>, Option<Seq<char>>)> {
    if expr.len() >= 5 && expr.take(5) == date_prefix() {
        let rest = expr.skip(5);
        let i = bar_index(rest);
        let offset = if i < rest.len() {
            let after = rest.skip(i + 1);
            Some(trim(after.take(bar_index(after))))
        } else {
            None
        };
        Some((trim(rest.take(i)), offset))
    } else {
        None
    }
}

/// Whether the text asks for arithmetic: it holds an operator and a digit.
pub open spec fn looks_numeric(expr: Seq<char>) -> bool {
    (exists|i: int| 0 <= i < expr.len() && is_operator(#[trigger] expr[i])) && (exists|i: int|
        0 <= i < expr.len() && is_digit(#[trigger] expr[i]))
}

/// The text of a date expression at the time `now`: shifted by the offset
/// steps, then formatted; `None` when either fails.
pub open spec fn date_value(format: Seq<char>, offset: Option<Seq<char>>, now: LocalDateTime) -> Option<
    Seq<char>,
> {
    let shifted = match offset {
        Some(o) => shifted_by(now, o),
        None => Some(now),
    };
    match shifted {
        Some(t) => strftime_text(t, chrono_pattern(format)),
        None => None,
    }
}

/// Index of the first `'}'` at or after `j`, or the length of `s`.
pub open spec fn brace_free_end(s: Seq<char>, j: int) -> int
    decreases s.len() - j,
{
    if 0 <= j < s.len() && s[j] != '}' {
        brace_free_end(s, j + 1)
    } else {
        j
    }
}

/// Where the placeholder `{{content}}` that starts at index `i` of `s` ends,
/// if one starts there; its content is one or more characters other than
/// `'}'`.
pub open spec fn placeholder_at(s: Seq<char>, i: int) -> Option<int> {
    if 0 <= i && i + 1 < s.len() && s[i] == '{' && s[i + 1] == '{' {
        let ce = brace_free_end(s, i + 2);
        if ce > i + 2 && ce + 1 < s.len() && s[ce + 1] == '}' {
            Some(ce + 2)
        } else {
            None
        }
    } else {
        None
    }
}

/// What a placeholder becomes. Its trimmed text decides: a date expression
/// becomes its date, arithmetic (`number op number`) its result; any other
/// text, also one that holds an operator and a digit but is not of that
/// form, is a variable name, looked up as written, and becomes its value. The placeholder stays
/// as written (`raw`) when its evaluation fails or the variable is not
/// given.
pub open spec fn expansion(
    content: Seq<char>,
    raw: Seq<char>,
    vars: Map<Seq<char>, Seq<char>>,
    now: LocalDateTime,
) -> Seq<char> {
    let c = trim(content);
    match date_parts(c) {
        Some((format, offset)) => match date_value(format, offset, now) {
            Some(v) => v,
            None => raw,
        },
        None => if looks_numeric(c) && numeric_value(c) != Err::<Seq<char>, NumericError>(
            NumericError::Unsupported,
        ) {
            match numeric_value(c) {
                Ok(v) => v,
                Err(_) => raw,
            }
        } else if vars.contains_key(content) {
            vars[content]
        } else {
            raw
        },
    }
}

/// The template from index `i` on with its placeholders expanded, each
/// leftmost placeholder taken in turn and the text between kept.
pub open spec fn rendered_from(
    s: Seq<char>,
    i: int,
    vars: Map<Seq<char>, Seq<char>>,
    now: LocalDateTime,
) -> Seq<char>
    decreases s.len() - i,
{
    if i < 0 || i >= s.len() {
        Seq::empty()
    } else {
        match placeholder_at(s, i) {
            Some(e) => expansion(s.subrange(i + 2, e - 2), s.subrange(i, e), vars, now)
                + rendered_from(s, e, vars, now),
            None => seq![s[i]] + rendered_from(s, i + 1, vars, now),
        }
    }
}

/// The template with its placeholders expanded at the time `now`.
pub open spec fn rendered(s: Seq<char>, vars: Map<Seq<char>, Seq<char>>, now: LocalDateTime) -> Seq<
    char,
> {
    rendered_from(s, 0, vars, now)
}

/// Relies on `HashMap::get`: the value stored under the key equal to `name`.
#[verifier::external_body]
fn variable_value<'a>(vars: &'a HashMap<String, String>, name: &str) -> (r: Option<&'a String>)
    ensures
        r is Some <==> vars.deep_view().contains_key(name@),
        r is Some ==> r->0@ == vars.deep_view()[name@],
{
    vars.get(name)
}

fn bar_index_of(v: &Vec<char>, from: usize) -> (r: usize)
    requires
        from <= v.len(),
    ensures
        r == from + bar_index(v@.subrange(from as int, v.len() as int)),
        from <= r <= v.len(),
{
    let n = v.len();
    let mut i = from;
    while i < n && v[i] != '|'
        invariant
            from <= i <= n == v.len(),
            bar_index(v@.subrange(from as int, n as int)) == (i - from) + bar_index(
                v@.subrange(i as int, n as int),
            ),
        decreases n - i,
    {
        assert(v@.subrange(i as int, n as int).subrange(1, n - i) =~= v@.subrange(
            i + 1,
            n as int,
        ));
        i += 1;
    }
    i
}

fn date_parts_chars(expr: &Vec<char>) -> (r: Option<(Vec<char>, Option<Vec<char>>)>)
    ensures
        match r {
            Some((format, Some(offset))) => date_parts(expr@) == Some((format@, Some(offset@))),
            Some((format, None)) => date_parts(expr@) == Some((format@, None::<Seq<char>>)),
            None => date_parts(expr@) is None,
        },
{
    let n = expr.len();
    if n < 5 || expr[0] != 'd' || expr[1] != 'a' || expr[2] != 't' || expr[3] != 'e' || expr[4]
        != ':' {
        proof {
            if n >= 5 {
                assert(expr@.take(5)[0] == expr@[0]);
                assert(expr@.take(5)[1] == expr@[1]);
                assert(expr@.take(5)[2] == expr@[2]);
                assert(expr@.take(5)[3] == expr@[3]);
                assert(expr@.take(5)[4] == expr@[4]);
            }
        }
        return None;
    }
    assert(expr@.take(5) =~= date_prefix());
    let ghost rest = expr@.skip(5);
    assert(rest =~= expr@.subrange(5, n as int));
    let i = bar_index_of(expr, 5);
    let format = trim_chars(&slice_of(expr, 5, i));
    assert(rest.take(i - 5) =~= expr@.subrange(5, i as int));
    if i < n {
        let j = bar_index_of(expr, i + 1);
        let offset = trim_chars(&slice_of(expr, i + 1, j));
        proof {
            let after = rest.skip(i - 5 + 1);
            assert(after =~= expr@.subrange(i + 1, n as int));
            assert(after.take(j - i - 1) =~= expr@.subrange(i + 1, j as int));
        }
        Some((format, Some(offset)))
    } else {
        Some((format, None))
    }
}

fn looks_numeric_chars(v: &Vec<char>) -> (r: bool)
    ensures
        r == looks_numeric(v@),
{
    let mut op = false;
    let mut digit = false;
    for i in 0..v.len()
        invariant
            op == (exists|k: int| 0 <= k < i && is_operator(#[trigger] v@[k])),
            digit == (exists|k: int| 0 <= k < i && is_digit(#[trigger] v@[k])),
    {
        let c = v[i];
        if c == '+' || c == '-' || c == '*' || c == '/' || c == '%' {
            op = true;
        }
        if '0' <= c && c <= '9' {
            digit = true;
        }
    }
    op && digit
}

fn date_value_chars(format: &Vec<char>, offset: &Option<Vec<char>>, now: LocalDateTime) -> (r:
    Option<Vec<char>>)
    requires
        now.wf(),
    ensures
        match r {
            Some(v) => date_value(
                format@,
                match offset {
                    Some(o) => Some(o@),
                    None => None,
                },
                now,
            ) == Some(v@),
            None => date_value(
                format@,
                match offset {
                    Some(o) => Some(o@),
                    None => None,
                },
                now,
            ) is None,
        },
{
    let t = match offset {
        Some(o) => match apply_date_offset(now, o) {
            Some(t) => t,
            None => {
                return None;
            },
        },
        None => now,
    };
    let pattern = string_of(&moment_format_chars(format));
    match format_date_time(t, pattern.as_str()) {
        Some(text) => Some(chars_of(text.as_str())),
        None => None,
    }
}

/// Expands one placeholder, given its content and its full text.
fn expand(content: &Vec<char>, raw: Vec<char>, vars: &HashMap<String, String>, now: LocalDateTime) -> (r:
    Vec<char>)
    requires
        now.wf(),
    ensures
        r@ == expansion(content@, raw@, vars.deep_view(), now),
{
    let c = trim_chars(content);
    match date_parts_chars(&c) {
        Some((format, offset)) => match date_value_chars(&format, &offset, now) {
            Some(v) => v,
            None => raw,
        },
        None => {
            if looks_numeric_chars(&c) {
                match evaluate_numeric_chars(&c) {
                    Ok(v) => {
                        return v;
                    },
                    Err(NumericError::Unsupported) => {},
                    Err(_) => {
                        return raw;
                    },
                }
            }
            let name = string_of(content);
            match variable_value(vars, name.as_str()) {
                Some(value) => chars_of(value.as_str()),
                None => raw,
            }
        },
    }
}

fn brace_free_end_of(v: &Vec<char>, from: usize) -> (r: usize)
    requires
        from <= v.len(),
    ensures
        r == brace_free_end(v@, from as int),
        from <= r <= v.len(),
{
    let mut j = from;
    while j < v.len() && v[j] != '}'
        invariant
            from <= j <= v.len(),
            brace_free_end(v@, from as int) == brace_free_end(v@, j as int),
        decreases v.len() - j,
    {
        j += 1;
    }
    j
}

fn placeholder_at_chars(v: &Vec<char>, i: usize) -> (r: Option<usize>)
    requires
        i < v.len(),
    ensures
        match r {
            Some(e) => placeholder_at(v@, i as int) == Some(e as int) && i + 4 < e <= v.len(),
            None => placeholder_at(v@, i as int) is None,
        },
{
    if i + 1 < v.len() && v[i] == '{' && v[i + 1] == '{' {
        let ce = brace_free_end_of(v, i + 2);
        if ce > i + 2 && ce < v.len() - 1 && v[ce + 1] == '}' {
            Some(ce + 2)
        } else {
            None
        }
    } else {
        None
    }
}

/// Expands the placeholders of `template` at the time `now`.
pub fn render_template(template: &Vec<char>, vars: &HashMap<String, String>, now: LocalDateTime) -> (r:
    Vec<char>)
    requires
        now.wf(),
    ensures
        r@ == rendered(template@, vars.deep_view(), now),
{
    let n = template.len();
    let mut out: Vec<char> = Vec::new();
    let mut i: usize = 0;
    while i < n
        invariant
            i <= n == template.len(),
            now.wf(),
            rendered(template@, vars.deep_view(), now) == out@ + rendered_from(
                template@,
                i as int,
                vars.deep_view(),
                now,
            ),
        decreases n - i,
    {
        match placeholder_at_chars(template, i) {
            Some(e) => {
                let content = slice_of(template, i + 2, e - 2);
                let raw = slice_of(template, i, e);
                let piece = expand(&content, raw, vars, now);
                let ghost before = out@;
                extend_chars(&mut out, &piece);
                assert(out@ + rendered_from(template@, e as int, vars.deep_view(), now) =~= before
                    + (piece@ + rendered_from(template@, e as int, vars.deep_view(), now)));
                i = e;
            },
            None => {
                let ghost before = out@;
                out.push(template[i]);
                assert(out@ + rendered_from(template@, i + 1, vars.deep_view(), now) =~= before
                    + (seq![template@[i as int]] + rendered_from(
                    template@,
                    i + 1,
                    vars.deep_view(),
                    now,
                )));
                i += 1;
            },
        }
    }
    assert(out@ + Seq::<char>::empty() =~= out@);
    out
}

/// The kind of a placeholder, with what its evaluation needs.
#[derive(Debug, Clone, PartialEq, Eq)]
pub enum ExpressionType {
    /// `date:FORMAT` or `date:FORMAT|OFFSET`.
    DateExpression { format: String, offset: Option<String> },
    /// Arithmetic such as `2 + 3`.
    NumericExpression(String),
    /// The name of a variable.
    SimpleVariable(String),
}

/// Expands `{{...}}` placeholders in note templates: dates (`{{date:YYYY-MM-DD|-7d}}`),
/// arithmetic (`{{2 + 3}}`) and variables (`{{title}}`).
pub struct TemplateProcessor;

impl TemplateProcessor {
    /// Expands the placeholders of `template` at the current local time.
    pub fn process(template: &str, variables: &HashMap<String, String>) -> (r: String)
        ensures
            exists|now: LocalDateTime| #[trigger]
                now.wf() && r@ == rendered(template@, variables.deep_view(), now),
    {
        let now = now_local();
        let r = Self::process_at(template, variables, now);
        assert(now.wf() && r@ == rendered(template@, variables.deep_view(), now));
        r
    }

    /// Expands the placeholders of `template`, dates taken from `now`.
    pub fn process_at(template: &str, variables: &HashMap<String, String>, now: LocalDateTime) -> (r:
        String)
        requires
            now.wf(),
        ensures
            r@ == rendered(template@, variables.deep_view(), now),
    {
        string_of(&render_template(&chars_of(template), variables, now))
    }

    /// The format and offset of a date expression such as
    /// `date:YYYY-MM-DD| -7d`.
    pub fn parse_date_expression(expr: &str) -> (r: Option<ExpressionType>)
        ensures
            match r {
                Some(ExpressionType::DateExpression { format, offset: Some(o) }) => date_parts(
                    expr@,
                ) == Some((format@, Some(o@))),
                Some(ExpressionType::DateExpression { format, offset: None }) => date_parts(expr@)
                    == Some((format@, None::<Seq<char>>)),
                Some(_) => false,
                None => date_parts(expr@) is None,
            },
    {
        match date_parts_chars(&chars_of(expr)) {
            Some((format, Some(offset))) => Some(
                ExpressionType::DateExpression {
                    format: string_of(&format),
                    offset: Some(string_of(&offset)),
                },
            ),
            Some((format, None)) => Some(
                ExpressionType::DateExpression { format: string_of(&format), offset: None },
            ),
            None => None,
        }
    }

    /// What a trimmed placeholder text is.
    pub fn classify(expr: &str) -> (r: ExpressionType)
        ensures
            match r {
                ExpressionType::DateExpression { .. } => date_parts(expr@) is Some,
                ExpressionType::NumericExpression(s) => date_parts(expr@) is None && looks_numeric(
                    expr@,
                ) && s@ == expr@,
                ExpressionType::SimpleVariable(s) => date_parts(expr@) is None && !looks_numeric(
                    expr@,
                ) && s@ == expr@,
            },
    {
        match Self::parse_date_expression(expr) {
            Some(e) => e,
            None => {
                if Self::is_numeric_expression(expr) {
                    ExpressionType::NumericExpression(expr.to_string())
                } else {
                    ExpressionType::SimpleVariable(expr.to_string())
                }
            },
        }
    }

    /// Whether the text asks for arithmetic: it holds one of `+ - * / %`
    /// and a digit.
    pub fn is_numeric_expression(expr: &str) -> (r: bool)
        ensures
            r == looks_numeric(expr@),
    {
        looks_numeric_chars(&chars_of(expr))
    }

    /// Evaluates flat arithmetic such as `2 + 3` or `5/2`.
    pub fn evaluate_numeric_expression(expr: &str) -> (r: Result<String, NumericError>)
        ensures
            match r {
                Ok(s) => numeric_value(expr@) == Ok::<Seq<char>, NumericError>(s@),
                Err(e) => numeric_value(expr@) == Err::<Seq<char>, NumericError>(e),
            },
    {
        match evaluate_numeric_chars(&chars_of(expr)) {
            Ok(v) => Ok(string_of(&v)),
            Err(e) => Err(e),
        }
    }

    /// The text of a date expression at the time `now`.
    pub fn evaluate_date_expression(format: &str, offset: Option<&str>, now: LocalDateTime) -> (r:
        Option<String>)
        requires
            now.wf(),
        ensures
            match r {
                Some(s) => date_value(
                    format@,
                    match offset {
                        Some(o) => Some(o@),
                        None => None,
                    },
                    now,
                ) == Some(s@),
                None => date_value(
                    format@,
                    match offset {
                        Some(o) => Some(o@),
                        None => None,
                    },
                    now,
                ) is None,
            },
    {
        let offset_chars = match offset {
            Some(o) => Some(chars_of(o)),
            None => None,
        };
        match date_value_chars(&chars_of(format), &offset_chars, now) {
            Some(v) => Some(string_of(&v)),
            None => None,
        }
    }

    /// Applies offset steps such as `-7d` or `+1m2w` to `date`.
    pub fn apply_date_offset(date: LocalDateTime, offset: &str) -> (r: Option<LocalDateTime>)
        requires
            date.wf(),
        ensures
            r == shifted_by(date, offset@),
            offset_steps_from(offset@, 0) is None ==> r is None,
            r is Some ==> r->0.wf(),
    {
        apply_date_offset(date, &chars_of(offset))
    }

    /// Converts a moment-style date format (`YYYY-MM-DD`) into the
    /// strftime pattern (`%Y-%m-%d`) that chrono formats with.
    pub fn moment_to_chrono_format(moment_format: &str) -> (r: String)
        ensures
            r@ == chrono_pattern(moment_format@),
    {
        string_of(&moment_format_chars(&chars_of(moment_format)))
    }
}

} // verus!
