//! Recognising heading lines and finding the headings that match a target.

use vstd::prelude::*;

use crate::text::{chars_of, chars_eq, slice_of, string_of, trim, trim_chars, views};

verus! {

/// Number of `'#'` characters at the start of `s`.
pub open spec fn hash_run(s: Seq<char>) -> nat
    decreases s.len(),
{
    if s.len() > 0 && s[0] == '#' {
        1 + hash_run(s.subrange(1, s.len() as int))
    } else {
        0
    }
}

/// What follows the leading `'#'` run of the trimmed line, trimmed.
pub open spec fn title_part(line: Seq<char>) -> Seq<char> {
    let t = trim(line);
    trim(t.subrange(hash_run(t) as int, t.len() as int))
}

/// Level and title of `line` when it is a heading: once trimmed, it starts
/// with one to six `'#'` followed by a title that is not blank.
pub open spec fn heading_of(line: Seq<char>) -> Option<(nat, Seq<char>)> {
    let n = hash_run(trim(line));
    if 1 <= n <= 6 && title_part(line).len() > 0 {
        Some((n, title_part(line)))
    } else {
        None
    }
}

/// Level of a heading line.
pub open spec fn level_of(line: Seq<char>) -> nat {
    match heading_of(line) {
        Some((l, _)) => l,
        None => 0,
    }
}

/// Title of a heading line.
pub open spec fn title_of(line: Seq<char>) -> Seq<char> {
    match heading_of(line) {
        Some((_, t)) => t,
        None => Seq::empty(),
    }
}

/// Why a section header given by a caller is not a heading.
#[derive(Debug, Clone, Copy, PartialEq, Eq, Structural)]
pub enum HeaderProblem {
    /// It does not start with `'#'`.
    MissingLevel,
    /// It starts with more than six `'#'`.
    LevelTooDeep,
    /// Nothing but white space follows the `'#'` run.
    EmptyTitle,
}

/// A section header given by a caller: its level and title, or the reason
/// it is not one.
pub open spec fn header_spec(header: Seq<char>) -> Result<(nat, Seq<char>), HeaderProblem> {
    let n = hash_run(trim(header));
    if n == 0 {
        Err(HeaderProblem::MissingLevel)
    } else if n > 6 {
        Err(HeaderProblem::LevelTooDeep)
    } else if title_part(header).len() == 0 {
        Err(HeaderProblem::EmptyTitle)
    } else {
        Ok((n, title_part(header)))
    }
}

/// Level asked for by a well-formed section header.
pub open spec fn header_level(header: Seq<char>) -> nat {
    match header_spec(header) {
        Ok((l, _)) => l,
        Err(_) => 0,
    }
}

/// Title asked for by a well-formed section header.
pub open spec fn header_title(header: Seq<char>) -> Seq<char> {
    match header_spec(header) {
        Ok((_, t)) => t,
        Err(_) => Seq::empty(),
    }
}

/// A heading found in a document: its line index (from 0), level and title.
#[derive(Debug, Clone, PartialEq, Eq)]
pub struct Heading {
    pub line: usize,
    pub level: u32,
    pub text: String,
}

/// The `(line, level, title)` triples of a sequence of headings.
pub open spec fn heading_views(v: Seq<Heading>) -> Seq<(int, nat, Seq<char>)> {
    v.map_values(|h: Heading| (h.line as int, h.level as nat, h.text@))
}

/// The headings among `lines` whose trimmed title equals the trimmed
/// `target`, at `level` if one is given and at any level otherwise, in line
/// order.
pub open spec fn titled_headings(
    lines: Seq<Seq<char>>,
    level: Option<nat>,
    target: Seq<char>,
) -> Seq<(int, nat, Seq<char>)>
    decreases lines.len(),
{
    if lines.len() == 0 {
        Seq::empty()
    } else {
        let earlier = titled_headings(lines.drop_last(), level, target);
        let i = lines.len() - 1;
        match heading_of(lines[i]) {
            Some((l, t)) => {
                if trim(t) == trim(target) && (level is None || level == Some(l)) {
                    earlier.push((i, l, t))
                } else {
                    earlier
                }
            },
            None => earlier,
        }
    }
}

/// Counts the `'#'` characters at the start of `v`.
fn count_hashes(v: &Vec<char>) -> (r: usize)
    ensures
        r == hash_run(v@),
        r <= v.len(),
{
    let mut i: usize = 0;
    assert(v@.subrange(0, v.len() as int) =~= v@);
    while i < v.len() && v[i] == '#'
        invariant
            i <= v.len(),
            hash_run(v@) == i + hash_run(v@.subrange(i as int, v.len() as int)),
        decreases v.len() - i,
    {
        assert(v@.subrange(i as int, v.len() as int).subrange(1, v.len() - i) =~= v@.subrange(
            i + 1,
            v.len() as int,
        ));
        i += 1;
    }
    i
}

/// The trimmed line and the title after its `'#'` run.
fn split_heading(line: &Vec<char>) -> (r: (usize, Vec<char>))
    ensures
        r.0 == hash_run(trim(line@)),
        r.1@ == title_part(line@),
{
    let t = trim_chars(line);
    let n = count_hashes(&t);
    let rest = slice_of(&t, n, t.len());
    (n, trim_chars(&rest))
}

/// Level and title of a line that is a heading.
pub fn heading_of_chars(line: &Vec<char>) -> (r: Option<(u32, Vec<char>)>)
    ensures
        match r {
            Some((l, t)) => heading_of(line@) == Some((l as nat, t@)),
            None => heading_of(line@) is None,
        },
{
    let (n, title) = split_heading(line);
    if n < 1 || n > 6 || title.len() == 0 {
        None
    } else {
        Some((n as u32, title))
    }
}

/// Level and title of `line` when it is a heading line.
pub fn parse_header_line(line: &str) -> (r: Option<(u32, String)>)
    ensures
        match r {
            Some((l, t)) => heading_of(line@) == Some((l as nat, t@)),
            None => heading_of(line@) is None,
        },
{
    match heading_of_chars(&chars_of(line)) {
        Some((l, t)) => Some((l, string_of(&t))),
        None => None,
    }
}

/// Level and title of a section header given by a caller, such as
/// `"## Tasks"`.
pub fn parse_section_header_chars(header: &Vec<char>) -> (r: Result<(u32, Vec<char>), HeaderProblem>)
    ensures
        match r {
            Ok((l, t)) => header_spec(header@) == Ok::<(nat, Seq<char>), HeaderProblem>(
                (l as nat, t@),
            ),
            Err(p) => header_spec(header@) == Err::<(nat, Seq<char>), HeaderProblem>(p),
        },
{
    let (n, title) = split_heading(header);
    if n == 0 {
        Err(HeaderProblem::MissingLevel)
    } else if n > 6 {
        Err(HeaderProblem::LevelTooDeep)
    } else if title.len() == 0 {
        Err(HeaderProblem::EmptyTitle)
    } else {
        Ok((n as u32, title))
    }
}

/// Level and title of a section header given by a caller, such as
/// `"## Tasks"`.
pub fn parse_section_header(header: &str) -> (r: Result<(u32, String), HeaderProblem>)
    ensures
        match r {
            Ok((l, t)) => header_spec(header@) == Ok::<(nat, Seq<char>), HeaderProblem>(
                (l as nat, t@),
            ),
            Err(p) => header_spec(header@) == Err::<(nat, Seq<char>), HeaderProblem>(p),
        },
{
    match parse_section_header_chars(&chars_of(header)) {
        Ok((l, t)) => Ok((l, string_of(&t))),
        Err(p) => Err(p),
    }
}

/// The level filter of `titled_headings` for an optional level.
pub open spec fn level_filter(level: Option<u32>) -> Option<nat> {
    match level {
        Some(l) => Some(l as nat),
        None => None,
    }
}

/// The headings among `lines` whose trimmed title equals the trimmed
/// `target`, at `level` if one is given, in line order.
pub fn titled_headings_in(lines: &Vec<Vec<char>>, level: Option<u32>, target: &Vec<char>) -> (r:
    Vec<Heading>)
    ensures
        heading_views(r@) == titled_headings(views(lines@), level_filter(level), target@),
{
    let want = trim_chars(target);
    let mut r: Vec<Heading> = Vec::new();
    for i in 0..lines.len()
        invariant
            want@ == trim(target@),
            heading_views(r@) == titled_headings(
                views(lines@).take(i as int),
                level_filter(level),
                target@,
            ),
    {
        let ghost before = heading_views(r@);
        proof {
            assert(views(lines@).take(i + 1).drop_last() =~= views(lines@).take(i as int));
            assert(views(lines@).take(i + 1)[i as int] == lines@[i as int]@);
        }
        match heading_of_chars(&lines[i]) {
            Some((l, t)) => {
                let same_level = match level {
                    Some(want_level) => want_level == l,
                    None => true,
                };
                if same_level && chars_eq(&trim_chars(&t), &want) {
                    let text = string_of(&t);
                    r.push(Heading { line: i, level: l, text });
                    assert(heading_views(r@) =~= before.push((i as int, l as nat, t@)));
                }
            },
            None => {},
        }
    }
    assert(views(lines@).take(lines.len() as int) =~= views(lines@));
    r
}

/// The headings of `content` at `level` whose trimmed title equals the
/// trimmed `text`, in line order.
pub fn find_sections(content: &str, level: u32, text: &str) -> (r: Vec<Heading>)
    ensures
        heading_views(r@) == titled_headings(
            crate::text::lines_of(content@),
            Some(level as nat),
            text@,
        ),
{
    let lines = crate::text::lines_of_chars(&chars_of(content));
    titled_headings_in(&lines, Some(level), &chars_of(text))
}

} // verus!
