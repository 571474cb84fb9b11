//! Appending text at the end of a uniquely named section of a document.

use vstd::prelude::*;

use crate::headings::{
    header_level, header_spec, header_title, heading_of, level_of, title_of, heading_of_chars, heading_views, parse_section_header_chars,
    titled_headings, titled_headings_in, HeaderProblem, Heading,
};
use crate::text::{
    chars_of, extend_chars, join_lines, join_lines_chars, lines_of, lines_of_chars, string_of,
    trim, trim_chars, views,
};

verus! {

/// Why an edit of a document was refused.
#[derive(Debug, Clone, PartialEq, Eq)]
pub enum EditError {
    /// The section header given is not a heading.
    InvalidHeader(HeaderProblem),
    /// No heading has the title that was asked for.
    SectionNotFound,
    /// No heading has the title at the level asked for; these have it at
    /// other levels.
    SectionLevelMismatch(Vec<Heading>),
    /// Several headings match; these are all of them.
    AmbiguousSection(Vec<Heading>),
    /// The text to replace does not occur.
    TargetNotFound,
}

/// What appending to a section comes to.
pub enum SectionOutcome {
    Invalid(HeaderProblem),
    NotFound,
    LevelMismatch(Seq<(int, nat, Seq<char>)>),
    Ambiguous(Seq<(int, nat, Seq<char>)>),
    Inserted(Seq<char>),
}

/// Whether `r` is the outcome `o`.
pub open spec fn is_outcome(r: Result<String, EditError>, o: SectionOutcome) -> bool {
    match o {
        SectionOutcome::Inserted(t) => r is Ok && r->Ok_0@ == t,
        SectionOutcome::Invalid(p) => r == Err::<String, EditError>(EditError::InvalidHeader(p)),
        SectionOutcome::NotFound => r == Err::<String, EditError>(EditError::SectionNotFound),
        SectionOutcome::LevelMismatch(w) => match r {
            Err(EditError::SectionLevelMismatch(v)) => heading_views(v@) == w,
            _ => false,
        },
        SectionOutcome::Ambiguous(w) => match r {
            Err(EditError::AmbiguousSection(v)) => heading_views(v@) == w,
            _ => false,
        },
    }
}

/// Index of the first line from `from` on that is a heading of level at
/// most `level`, or the number of lines when there is none: where the
/// section ends.
pub open spec fn section_end(lines: Seq<Seq<char>>, from: int, level: nat) -> int
    decreases lines.len() - from,
{
    if from >= lines.len() {
        lines.len() as int
    } else if heading_of(lines[from]) is Some && level_of(lines[from]) <= level {
        from
    } else {
        section_end(lines, from + 1, level)
    }
}

/// `lines` with `text` added as a new line at index `at`. The new line starts
/// with a newline of its own, unless it goes at the end after a blank line.
pub open spec fn with_appended(lines: Seq<Seq<char>>, at: int, text: Seq<char>) -> Seq<
    Seq<char>,
> {
    if at < lines.len() {
        lines.insert(at, seq!['\n'] + text)
    } else if lines.len() == 0 || trim(lines.last()).len() == 0 {
        lines.push(text)
    } else {
        lines.push(seq!['\n'] + text)
    }
}

/// Appending `text` to the section that `header` names in `body`.
pub open spec fn append_outcome(body: Seq<char>, header: Seq<char>, text: Seq<char>) -> SectionOutcome {
    match header_spec(header) {
        Err(p) => SectionOutcome::Invalid(p),
        Ok((level, title)) => {
            let lines = lines_of(body);
            let found = titled_headings(lines, Some(level), title);
            if found.len() == 0 {
                let others = titled_headings(lines, None, title);
                if others.len() == 0 {
                    SectionOutcome::NotFound
                } else {
                    SectionOutcome::LevelMismatch(others)
                }
            } else if found.len() > 1 {
                SectionOutcome::Ambiguous(found)
            } else {
                SectionOutcome::Inserted(
                    join_lines(
                        with_appended(lines, section_end(lines, found[0].0 + 1, level), text),
                    ),
                )
            }
        },
    }
}

/// Every heading that `titled_headings` lists lies within the lines and has
/// the level asked for.
pub proof fn lemma_titled_in_range(lines: Seq<Seq<char>>, level: Option<nat>, target: Seq<char>)
    ensures
        forall|k: int|
            0 <= k < titled_headings(lines, level, target).len() ==> {
                let h = #[trigger] titled_headings(lines, level, target)[k];
                &&& 0 <= h.0 < lines.len()
                &&& heading_of(lines[h.0]) == Some((h.1, h.2))
                &&& (level is Some ==> level == Some(h.1))
            },
    decreases lines.len(),
{
    if lines.len() > 0 {
        lemma_titled_in_range(lines.drop_last(), level, target);
        let earlier = titled_headings(lines.drop_last(), level, target);
        assert forall|k: int| 0 <= k < earlier.len() implies lines[earlier[k].0]
            == lines.drop_last()[earlier[k].0] by {}
    }
}

/// A line that is a heading with the target title, at the level asked for,
/// is listed by `titled_headings`.
pub proof fn lemma_titled_member(
    lines: Seq<Seq<char>>,
    level: Option<nat>,
    target: Seq<char>,
    i: int,
)
    requires
        0 <= i < lines.len(),
        heading_of(lines[i]) is Some,
        trim(title_of(lines[i])) == trim(target),
        level is None || level == Some(level_of(lines[i])),
    ensures
        exists|k: int|
            0 <= k < titled_headings(lines, level, target).len() && #[trigger] titled_headings(
                lines,
                level,
                target,
            )[k] == (i, level_of(lines[i]), title_of(lines[i])),
    decreases lines.len(),
{
    let all = titled_headings(lines, level, target);
    if i == lines.len() - 1 {
        assert(all[all.len() - 1] == (i, level_of(lines[i]), title_of(lines[i])));
    } else {
        assert(lines.drop_last()[i] == lines[i]);
        lemma_titled_member(lines.drop_last(), level, target, i);
        let earlier = titled_headings(lines.drop_last(), level, target);
        let k = choose|k: int|
            0 <= k < earlier.len() && #[trigger] earlier[k] == (
                i,
                level_of(lines[i]),
                title_of(lines[i]),
            );
        assert(all[k] == earlier[k]);
    }
}

/// `section_end` lies between its starting point and any later heading of
/// the section's level or a higher one.
pub proof fn lemma_section_end_bounds(lines: Seq<Seq<char>>, from: int, level: nat, next: int)
    requires
        0 <= from <= next < lines.len(),
        heading_of(lines[next]) is Some,
        level_of(lines[next]) <= level,
    ensures
        from <= section_end(lines, from, level) <= next,
    decreases next - from,
{
    if from < next {
        if !(heading_of(lines[from]) is Some && level_of(lines[from]) <= level) {
            lemma_section_end_bounds(lines, from + 1, level, next);
        }
    }
}

/// Finds where the section that starts before line `from` ends.
fn section_end_in(lines: &Vec<Vec<char>>, from: usize, level: u32) -> (r: usize)
    requires
        from <= lines.len(),
    ensures
        r == section_end(views(lines@), from as int, level as nat),
{
    let mut i = from;
    while i < lines.len()
        invariant
            from <= i <= lines.len(),
            section_end(views(lines@), from as int, level as nat) == section_end(
                views(lines@),
                i as int,
                level as nat,
            ),
        decreases lines.len() - i,
    {
        assert(views(lines@)[i as int] == lines@[i as int]@);
        match heading_of_chars(&lines[i]) {
            Some((l, _)) => {
                if l <= level {
                    return i;
                }
            },
            None => {},
        }
        i += 1;
    }
    i
}

/// Adds `text` to `lines` as `with_appended` describes.
fn insert_text(lines: &mut Vec<Vec<char>>, at: usize, text: &Vec<char>)
    requires
        at <= old(lines).len(),
    ensures
        views(final(lines)@) == with_appended(views(old(lines)@), at as int, text@),
{
    let ghost start = views(lines@);
    let mut piece: Vec<char> = vec!['\n'];
    extend_chars(&mut piece, text);
    assert(piece@ =~= seq!['\n'] + text@);
    let n = lines.len();
    if at < n {
        lines.insert(at, piece);
        assert(views(lines@) =~= start.insert(at as int, piece@));
    } else if n == 0 || trim_chars(&lines[n - 1]).len() == 0 {
        lines.push(text.clone());
        assert(views(lines@) =~= start.push(text@));
    } else {
        lines.push(piece);
        assert(views(lines@) =~= start.push(piece@));
    }
}

/// Appends `text` at the end of the section that `section_header` (such as
/// `"## Tasks"`) names in `body`: just before the next heading of the same
/// or a higher level, or at the end of the document. The document comes back
/// with its lines joined by `'\n'`.
pub fn append_to_section(body: &str, section_header: &str, text: &str) -> (r: Result<
    String,
    EditError,
>)
    ensures
        is_outcome(r, append_outcome(body@, section_header@, text@)),
{
    let (level, title) = match parse_section_header_chars(&chars_of(section_header)) {
        Ok(parsed) => parsed,
        Err(p) => {
            return Err(EditError::InvalidHeader(p));
        },
    };
    let mut lines = lines_of_chars(&chars_of(body));
    let found = titled_headings_in(&lines, Some(level), &title);
    if found.len() == 0 {
        let others = titled_headings_in(&lines, None, &title);
        if others.len() == 0 {
            return Err(EditError::SectionNotFound);
        }
        return Err(EditError::SectionLevelMismatch(others));
    }
    if found.len() > 1 {
        return Err(EditError::AmbiguousSection(found));
    }
    proof {
        lemma_titled_in_range(views(lines@), Some(level as nat), title@);
        assert(heading_views(found@)[0] == (
            found@[0].line as int,
            found@[0].level as nat,
            found@[0].text@,
        ));
    }
    let start = found[0].line + 1;
    let end = section_end_in(&lines, start, level);
    proof {
        if end < lines.len() {
        } else {
            assert(section_end(views(lines@), start as int, level as nat) >= start) by {
                lemma_section_end_from(views(lines@), start as int, level as nat);
            }
        }
        lemma_section_end_from(views(lines@), start as int, level as nat);
    }
    insert_text(&mut lines, end, &chars_of(text));
    Ok(string_of(&join_lines_chars(&lines)))
}

/// `section_end` never comes before its starting point, nor after the end.
pub proof fn lemma_section_end_from(lines: Seq<Seq<char>>, from: int, level: nat)
    requires
        0 <= from <= lines.len(),
    ensures
        from <= section_end(lines, from, level) <= lines.len(),
    decreases lines.len() - from,
{
    if from < lines.len() {
        lemma_section_end_from(lines, from + 1, level);
    }
}

/// When the one heading that matches is followed, at line `next`, by a
/// heading of the same or a higher level, the text is inserted as a line of
/// its own after the matching heading and before the one at `next`.
pub proof fn lemma_append_stays_in_section(
    body: Seq<char>,
    header: Seq<char>,
    text: Seq<char>,
    next: int,
)
    requires
        header_spec(header) is Ok,
        titled_headings(
            lines_of(body),
            Some(header_level(header)),
            header_title(header),
        ).len() == 1,
        titled_headings(
            lines_of(body),
            Some(header_level(header)),
            header_title(header),
        )[0].0 < next < lines_of(body).len(),
        heading_of(lines_of(body)[next]) is Some,
        level_of(lines_of(body)[next]) <= header_level(header),
    ensures
        exists|p: int|
            titled_headings(
                lines_of(body),
                Some(header_level(header)),
                header_title(header),
            )[0].0 < p <= next && append_outcome(body, header, text) == SectionOutcome::Inserted(
                join_lines(lines_of(body).insert(p, seq!['\n'] + text)),
            ),
{
    let lines = lines_of(body);
    let level = header_level(header);
    let title = header_title(header);
    let found = titled_headings(lines, Some(level), title);
    lemma_titled_in_range(lines, Some(level), title);
    assert(0 <= found[0].0);
    lemma_section_end_bounds(lines, found[0].0 + 1, level, next);
    let p = section_end(lines, found[0].0 + 1, level);
    assert(with_appended(lines, p, text) == lines.insert(p, seq!['\n'] + text));
}

/// Two headings with the target title at the target level make the request
/// ambiguous: the error lists every match, both of these among them.
pub proof fn lemma_duplicate_heading_is_ambiguous(
    body: Seq<char>,
    header: Seq<char>,
    text: Seq<char>,
    i: int,
    j: int,
)
    requires
        header_spec(header) is Ok,
        0 <= i < j < lines_of(body).len(),
        heading_of(lines_of(body)[i]) == Some((header_level(header), header_title(header))),
        heading_of(lines_of(body)[j]) == Some((header_level(header), header_title(header))),
    ensures
        ({
            let found = titled_headings(
                lines_of(body),
                Some(header_level(header)),
                header_title(header),
            );
            &&& append_outcome(body, header, text) == SectionOutcome::Ambiguous(found)
            &&& exists|k: int| 0 <= k < found.len() && #[trigger] found[k].0 == i
            &&& exists|k: int| 0 <= k < found.len() && #[trigger] found[k].0 == j
        }),
{
    let lines = lines_of(body);
    let level = header_level(header);
    let title = header_title(header);
    let found = titled_headings(lines, Some(level), title);
    lemma_titled_member(lines, Some(level), title, i);
    lemma_titled_member(lines, Some(level), title, j);
    let ki = choose|k: int| 0 <= k < found.len() && #[trigger] found[k] == (i, level, title);
    let kj = choose|k: int| 0 <= k < found.len() && #[trigger] found[k] == (j, level, title);
    assert(ki != kj);
    assert(found.len() > 1);
    assert(found[ki].0 == i);
    assert(found[kj].0 == j);
    assert(header_spec(header) == Ok::<(nat, Seq<char>), HeaderProblem>((level, title)));
}

/// With no heading of the target title at the target level, a heading of
/// that title at another level makes the request a level mismatch, and the
/// error lists it.
pub proof fn lemma_other_level_is_mismatch(
    body: Seq<char>,
    header: Seq<char>,
    text: Seq<char>,
    i: int,
)
    requires
        header_spec(header) is Ok,
        titled_headings(
            lines_of(body),
            Some(header_level(header)),
            header_title(header),
        ).len() == 0,
        0 <= i < lines_of(body).len(),
        heading_of(lines_of(body)[i]) is Some,
        trim(title_of(lines_of(body)[i])) == trim(header_title(header)),
    ensures
        ({
            let others = titled_headings(lines_of(body), None, header_title(header));
            &&& append_outcome(body, header, text) == SectionOutcome::LevelMismatch(others)
            &&& exists|k: int|
                0 <= k < others.len() && #[trigger] others[k] == (
                    i,
                    level_of(lines_of(body)[i]),
                    title_of(lines_of(body)[i]),
                )
        }),
{
    lemma_titled_member(lines_of(body), None, header_title(header), i);
}


/// Joining two non-empty runs of lines puts one newline between them.
pub proof fn lemma_join_lines_concat(a: Seq<Seq<char>>, b: Seq<Seq<char>>)
    requires
        a.len() > 0,
        b.len() > 0,
    ensures
        join_lines(a + b) == join_lines(a) + seq!['\n'] + join_lines(b),
    decreases b.len(),
{
    assert((a + b).drop_last() =~= a + b.drop_last());
    assert((a + b).last() == b.last());
    if b.len() == 1 {
        assert(b.drop_last().len() == 0);
        assert(a + b.drop_last() =~= a);
        assert(join_lines(b) == b[0]);
    } else {
        lemma_join_lines_concat(a, b.drop_last());
        assert(join_lines(a + b) =~= join_lines(a) + seq!['\n'] + (join_lines(b.drop_last())
            + seq!['\n'] + b.last()));
    }
}

/// `section_end` is the first heading of the section's level or a higher
/// one from its starting point on.
pub proof fn lemma_section_end_is_first(lines: Seq<Seq<char>>, from: int, level: nat, next: int)
    requires
        0 <= from <= next < lines.len(),
        heading_of(lines[next]) is Some,
        level_of(lines[next]) <= level,
        forall|j: int|
            from <= j < next ==> !(heading_of(lines[j]) is Some && level_of(lines[j]) <= level),
    ensures
        section_end(lines, from, level) == next,
    decreases next - from,
{
    if from < next {
        lemma_section_end_is_first(lines, from + 1, level, next);
    }
}

/// When the one heading that matches, at line `f`, is followed first at
/// line `next` by a heading of the same or a higher level, the document
/// comes back as its lines before `next`, a blank line, the text, and its
/// lines from `next` on, each run joined by newlines.
pub proof fn lemma_append_before_next_heading(
    body: Seq<char>,
    header: Seq<char>,
    text: Seq<char>,
    next: int,
)
    requires
        header_spec(header) is Ok,
        titled_headings(lines_of(body), Some(header_level(header)), header_title(header)).len()
            == 1,
        titled_headings(lines_of(body), Some(header_level(header)), header_title(header))[0].0
            < next < lines_of(body).len(),
        heading_of(lines_of(body)[next]) is Some,
        level_of(lines_of(body)[next]) <= header_level(header),
        forall|j: int|
            titled_headings(lines_of(body), Some(header_level(header)), header_title(header))[0].0
                < j < next ==> !(heading_of(lines_of(body)[j]) is Some && level_of(
                lines_of(body)[j],
            ) <= header_level(header)),
    ensures
        append_outcome(body, header, text) == SectionOutcome::Inserted(
            join_lines(lines_of(body).take(next)) + seq!['\n', '\n'] + text + seq!['\n']
                + join_lines(lines_of(body).skip(next)),
        ),
{
    let lines = lines_of(body);
    let level = header_level(header);
    let title = header_title(header);
    let found = titled_headings(lines, Some(level), title);
    lemma_titled_in_range(lines, Some(level), title);
    lemma_section_end_is_first(lines, found[0].0 + 1, level, next);
    let piece = seq!['\n'] + text;
    assert(with_appended(lines, next, text) == lines.insert(next, piece));
    let front = lines.take(next);
    let back = lines.skip(next);
    assert(lines.insert(next, piece) =~= front + (seq![piece] + back));
    lemma_join_lines_concat(seq![piece], back);
    lemma_join_lines_concat(front, seq![piece] + back);
    assert(join_lines(seq![piece]) == piece);
    assert(join_lines(front) + seq!['\n'] + (piece + seq!['\n'] + join_lines(back))
        =~= join_lines(front) + seq!['\n', '\n'] + text + seq!['\n'] + join_lines(back));
    assert(header_spec(header) == Ok::<(nat, Seq<char>), HeaderProblem>((level, title)));
}

} // verus!
