//! Literal find-and-replace in a document.

use vstd::prelude::*;

use crate::section::EditError;
use crate::text::{chars_of, extend_chars, string_of};

verus! {

/// Whether `pat` occurs in `s` at index `i`.
pub open spec fn occurs_at(s: Seq<char>, pat: Seq<char>, i: int) -> bool {
    0 <= i && i + pat.len() <= s.len() && s.subrange(i, i + pat.len()) == pat
}

/// The first index from `from` on at which `pat` occurs in `s`.
pub open spec fn first_occurrence(s: Seq<char>, pat: Seq<char>, from: int) -> Option<int>
    decreases s.len() + 1 - from,
{
    if from < 0 || from + pat.len() > s.len() {
        None
    } else if occurs_at(s, pat, from) {
        Some(from)
    } else {
        first_occurrence(s, pat, from + 1)
    }
}

/// `s` from index `i` on with every occurrence of `pat` replaced by `rep`,
/// taking occurrences from the left without overlap. An empty `pat` occurs
/// before each character and at the end.
pub open spec fn replaced_all(s: Seq<char>, pat: Seq<char>, rep: Seq<char>, i: int) -> Seq<char>
    decreases s.len() + 1 - i,
{
    if i < 0 || i > s.len() {
        Seq::empty()
    } else if occurs_at(s, pat, i) {
        if pat.len() == 0 {
            if i < s.len() {
                rep + seq![s[i]] + replaced_all(s, pat, rep, i + 1)
            } else {
                rep
            }
        } else {
            rep + replaced_all(s, pat, rep, i + pat.len())
        }
    } else if i < s.len() {
        seq![s[i]] + replaced_all(s, pat, rep, i + 1)
    } else {
        Seq::empty()
    }
}

/// `s` with its first occurrence of `pat`, at index `at`, replaced by `rep`.
pub open spec fn replaced_at(s: Seq<char>, pat: Seq<char>, rep: Seq<char>, at: int) -> Seq<char> {
    s.subrange(0, at) + rep + s.subrange(at + pat.len(), s.len() as int)
}

/// What replacing `find` by `replacement` in `body` gives: `None` when
/// `find` does not occur.
pub open spec fn replace_outcome(body: Seq<char>, find: Seq<char>, replacement: Seq<char>, all: bool) -> Option<
    Seq<char>,
> {
    match first_occurrence(body, find, 0) {
        None => None,
        Some(at) => Some(
            if all {
                replaced_all(body, find, replacement, 0)
            } else {
                replaced_at(body, find, replacement, at)
            },
        ),
    }
}

fn occurs_at_chars(s: &Vec<char>, pat: &Vec<char>, i: usize) -> (r: bool)
    requires
        i <= s.len(),
    ensures
        r == occurs_at(s@, pat@, i as int),
{
    if pat.len() > s.len() - i {
        return false;
    }
    for k in 0..pat.len()
        invariant
            pat.len() <= s.len() - i,
            forall|j: int| 0 <= j < k ==> s@[i + j] == pat@[j],
    {
        if s[i + k] != pat[k] {
            assert(s@.subrange(i as int, i + pat.len())[k as int] != pat@[k as int]);
            return false;
        }
    }
    assert(s@.subrange(i as int, i + pat.len()) =~= pat@);
    true
}

pub fn first_occurrence_of(s: &Vec<char>, pat: &Vec<char>) -> (r: Option<usize>)
    ensures
        match r {
            Some(at) => first_occurrence(s@, pat@, 0) == Some(at as int) && at + pat.len()
                <= s.len(),
            None => first_occurrence(s@, pat@, 0) is None,
        },
{
    if pat.len() > s.len() {
        return None;
    }
    let last = s.len() - pat.len();
    let mut i: usize = 0;
    while i < last
        invariant
            last == s.len() - pat.len(),
            i <= last,
            first_occurrence(s@, pat@, 0) == first_occurrence(s@, pat@, i as int),
        decreases last - i,
    {
        if occurs_at_chars(s, pat, i) {
            return Some(i);
        }
        i += 1;
    }
    assert(i == last);
    if occurs_at_chars(s, pat, last) {
        assert(first_occurrence(s@, pat@, last as int) == Some(last as int));
        Some(last)
    } else {
        assert(first_occurrence(s@, pat@, last + 1) is None);
        None
    }
}

/// Replaces every occurrence of `pat` in `s` by `rep`.
pub fn replace_all_chars(s: &Vec<char>, pat: &Vec<char>, rep: &Vec<char>) -> (r: Vec<char>)
    ensures
        r@ == replaced_all(s@, pat@, rep@, 0),
{
    let n = s.len();
    let mut out: Vec<char> = Vec::new();
    let mut i: usize = 0;
    while i < n
        invariant
            n == s.len(),
            i <= n,
            replaced_all(s@, pat@, rep@, 0) == out@ + replaced_all(s@, pat@, rep@, i as int),
        decreases n - i,
    {
        let ghost before = out@;
        if occurs_at_chars(s, pat, i) {
            extend_chars(&mut out, rep);
            if pat.len() == 0 {
                out.push(s[i]);
                assert(out@ + replaced_all(s@, pat@, rep@, i + 1) =~= before + (rep@ + seq![
                    s@[i as int],
                ] + replaced_all(s@, pat@, rep@, i + 1)));
                i += 1;
            } else {
                assert(out@ + replaced_all(s@, pat@, rep@, i + pat.len()) =~= before + (rep@
                    + replaced_all(s@, pat@, rep@, i + pat.len())));
                i += pat.len();
            }
        } else {
            out.push(s[i]);
            assert(out@ + replaced_all(s@, pat@, rep@, i + 1) =~= before + (seq![s@[i as int]]
                + replaced_all(s@, pat@, rep@, i + 1)));
            i += 1;
        }
    }
    if pat.len() == 0 {
        assert(occurs_at(s@, pat@, n as int)) by {
            assert(s@.subrange(n as int, n as int) =~= pat@);
        }
        extend_chars(&mut out, rep);
        return out;
    }
    assert(out@ + Seq::<char>::empty() =~= out@);
    out
}

/// Replaces the literal text `find` in `body` by `replacement`: every
/// occurrence, or only the first when `replace_all` is false. Fails with
/// `TargetNotFound` when `find` does not occur.
pub fn replace_text(body: &str, find: &str, replacement: &str, replace_all: bool) -> (r: Result<
    String,
    EditError,
>)
    ensures
        match r {
            Ok(s) => replace_outcome(body@, find@, replacement@, replace_all) == Some(s@),
            Err(e) => replace_outcome(body@, find@, replacement@, replace_all) is None && e
                == EditError::TargetNotFound,
        },
{
    let s = chars_of(body);
    let pat = chars_of(find);
    let rep = chars_of(replacement);
    let at = match first_occurrence_of(&s, &pat) {
        Some(at) => at,
        None => {
            return Err(EditError::TargetNotFound);
        },
    };
    if replace_all {
        Ok(string_of(&replace_all_chars(&s, &pat, &rep)))
    } else {
        let mut out: Vec<char> = Vec::new();
        let mut k: usize = 0;
        while k < at
            invariant
                at <= s.len(),
                k <= at,
                out@ == s@.subrange(0, k as int),
            decreases at - k,
        {
            out.push(s[k]);
            assert(out@ =~= s@.subrange(0, k + 1));
            k += 1;
        }
        extend_chars(&mut out, &rep);
        let tail = crate::text::slice_of(&s, at + pat.len(), s.len());
        extend_chars(&mut out, &tail);
        Ok(string_of(&out))
    }
}

/// Turns each two-character escape `\n` in `text` into a newline.
pub fn normalize_newlines(text: &str) -> (r: String)
    ensures
        r@ == replaced_all(text@, seq!['\\', 'n'], seq!['\n'], 0),
{
    let pat = vec!['\\', 'n'];
    let rep = vec!['\n'];
    assert(pat@ =~= seq!['\\', 'n']);
    assert(rep@ =~= seq!['\n']);
    string_of(&replace_all_chars(&chars_of(text), &pat, &rep))
}

} // verus!
