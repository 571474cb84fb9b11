//! Decisions behind searching the vault and relating notes to each other.

use vstd::prelude::*;

use crate::commands::views_of_strings;
use crate::frontmatter::{entries, parse_frontmatter, property, split_document, Metadata};
use crate::model::SearchResult;
use crate::replace::{first_occurrence, first_occurrence_of};
use crate::text::{chars_eq, chars_of, extend_chars, slice_of, string_of};

verus! {

/// The text that serde_json writes for a value, `None` when it reports an
/// error.
pub uninterp spec fn json_text(v: serde_json::Value) -> Option<Seq<char>>;

/// The list of strings that serde_json reads from a value, `None` when the
/// value is not an array of strings.
pub uninterp spec fn json_string_list(v: serde_json::Value) -> Option<Seq<Seq<char>>>;

/// Relies on `serde_json::to_string`: a value written as JSON.
#[verifier::external_body]
fn write_json(v: &serde_json::Value) -> (r: Option<String>)
    ensures
        match r {
            Some(s) => json_text(*v) == Some(s@),
            None => json_text(*v) is None,
        },
{
    serde_json::to_string(v).ok()
}

/// Relies on `serde_json::from_value`: a value read as a list of strings.
#[verifier::external_body]
fn string_list(v: &serde_json::Value) -> (r: Option<Vec<String>>)
    ensures
        match r {
            Some(l) => json_string_list(*v) == Some(views_of_strings(l@)),
            None => json_string_list(*v) is None,
        },
{
    serde_json::from_value::<Vec<String>>(v.clone()).ok()
}

/// Whether `needle` occurs in `hay`.
pub open spec fn contains(hay: Seq<char>, needle: Seq<char>) -> bool {
    first_occurrence(hay, needle, 0) is Some
}

pub open spec fn tags_key() -> Seq<char> {
    "tags"@
}

/// Which parts of a note a search looks at.
#[derive(Debug, Clone, Copy, PartialEq, Eq, Structural)]
pub struct SearchScope {
    pub content: bool,
    pub filename: bool,
    pub tags: bool,
}

pub open spec fn names_include(names: Seq<Seq<char>>, word: Seq<char>) -> bool {
    exists|i: int| 0 <= i < names.len() && names[i] == word
}

fn includes_name(names: &Vec<String>, word: &Vec<char>) -> (r: bool)
    ensures
        r == names_include(views_of_strings(names@), word@),
{
    for i in 0..names.len()
        invariant
            forall|k: int| 0 <= k < i ==> names@[k]@ != word@,
    {
        if chars_eq(&chars_of(names[i].as_str()), word) {
            assert(views_of_strings(names@)[i as int] == word@);
            return true;
        }
    }
    assert forall|k: int| 0 <= k < names.len() implies views_of_strings(names@)[k] != word@ by {
        assert(views_of_strings(names@)[k] == names@[k]@);
    }
    false
}

impl SearchScope {
    /// The scope a request names: any of `content`, `filename` and `tags`;
    /// content and file names when it names none.
    pub fn from_names(names: Option<&Vec<String>>) -> (r: SearchScope)
        ensures
            match names {
                None => r == (SearchScope { content: true, filename: true, tags: false }),
                Some(v) => {
                    &&& r.content == names_include(views_of_strings(v@), "content"@)
                    &&& r.filename == names_include(views_of_strings(v@), "filename"@)
                    &&& r.tags == names_include(views_of_strings(v@), "tags"@)
                },
            },
    {
        match names {
            None => SearchScope { content: true, filename: true, tags: false },
            Some(v) => SearchScope {
                content: includes_name(v, &chars_of("content")),
                filename: includes_name(v, &chars_of("filename")),
                tags: includes_name(v, &chars_of("tags")),
            },
        }
    }
}

/// The `tags` property of a note written as JSON (empty if serde_json
/// fails), when the note has one.
pub open spec fn tags_text(content: Seq<char>) -> Option<Seq<char>> {
    match split_document(content).0 {
        Some(e) => if e.contains_key(tags_key()) {
            Some(
                match json_text(e[tags_key()]) {
                    Some(t) => t,
                    None => Seq::empty(),
                },
            )
        } else {
            None
        },
        None => None,
    }
}

/// Up to fifty characters of `c` on each side of the match at `at` of
/// length `len`, with the match.
pub open spec fn preview_window(c: Seq<char>, at: int, len: int) -> Seq<char> {
    let start = if at >= 50 {
        at - 50
    } else {
        0
    };
    let end = if at + len + 50 <= c.len() {
        at + len + 50
    } else {
        c.len() as int
    };
    c.subrange(start, end)
}

/// The preview of a search hit on the note at `path` (relative to the
/// vault) with text `content` (`None` if unreadable): a file name match
/// first, then a match in the JSON of its tags, then one in its text.
pub open spec fn search_preview(
    path: Seq<char>,
    content: Option<Seq<char>>,
    query: Seq<char>,
    scope: SearchScope,
) -> Option<Seq<char>> {
    if scope.filename && contains(path, query) {
        Some("Filename match: "@ + path)
    } else if !(scope.content || scope.tags) {
        None
    } else {
        match content {
            None => None,
            Some(c) => if scope.tags && tags_text(c) is Some && contains(tags_text(c)->0, query) {
                Some("Tag match: "@ + tags_text(c)->0)
            } else if scope.content {
                match first_occurrence(c, query, 0) {
                    Some(at) => Some(preview_window(c, at, query.len() as int)),
                    None => None,
                }
            } else {
                None
            },
        }
    }
}

/// The JSON of a note's tags, as `tags_text` describes.
fn tags_text_of(content: &str) -> (r: Option<Vec<char>>)
    ensures
        match r {
            Some(t) => tags_text(content@) == Some(t@),
            None => tags_text(content@) is None,
        },
{
    let (meta, _) = parse_frontmatter(content);
    match meta {
        Some(m) => match property(&m, "tags") {
            Some(v) => match write_json(v) {
                Some(s) => Some(chars_of(s.as_str())),
                None => Some(Vec::new()),
            },
            None => None,
        },
        None => None,
    }
}

/// Decides whether the note at `path` (relative to the vault), with text
/// `content` (`None` when it could not be read), answers a literal,
/// case-sensitive search for `query`, and with which preview.
pub fn search_note(path: &str, content: Option<&str>, query: &str, scope: SearchScope) -> (r:
    Option<SearchResult>)
    ensures
        match r {
            Some(hit) => hit.path@ == path@ && hit.match_preview is Some && search_preview(
                path@,
                match content {
                    Some(c) => Some(c@),
                    None => None,
                },
                query@,
                scope,
            ) == Some(hit.match_preview->0@),
            None => search_preview(
                path@,
                match content {
                    Some(c) => Some(c@),
                    None => None,
                },
                query@,
                scope,
            ) is None,
        },
{
    let p = chars_of(path);
    let q = chars_of(query);
    if scope.filename && first_occurrence_of(&p, &q).is_some() {
        let mut text = chars_of("Filename match: ");
        extend_chars(&mut text, &p);
        return Some(SearchResult { path: string_of(&p), match_preview: Some(string_of(&text)) });
    }
    if !(scope.content || scope.tags) {
        return None;
    }
    let c = match content {
        Some(c) => c,
        None => {
            return None;
        },
    };
    if scope.tags {
        match tags_text_of(c) {
            Some(t) => {
                if first_occurrence_of(&t, &q).is_some() {
                    let mut text = chars_of("Tag match: ");
                    extend_chars(&mut text, &t);
                    return Some(
                        SearchResult { path: string_of(&p), match_preview: Some(string_of(&text)) },
                    );
                }
            },
            None => {},
        }
    }
    if !scope.content {
        return None;
    }
    let body = chars_of(c);
    match first_occurrence_of(&body, &q) {
        Some(at) => {
            let start = if at >= 50 {
                at - 50
            } else {
                0
            };
            let end = if body.len() - at - q.len() >= 50 {
                at + q.len() + 50
            } else {
                body.len()
            };
            let preview = slice_of(&body, start, end);
            Some(SearchResult { path: string_of(&p), match_preview: Some(string_of(&preview)) })
        },
        None => None,
    }
}

/// Index of the first `']'` at or after `j`, or the length of `s`.
pub open spec fn bracket_free_end(s: Seq<char>, j: int) -> int
    decreases s.len() - j,
{
    if 0 <= j < s.len() && s[j] != ']' {
        bracket_free_end(s, j + 1)
    } else {
        j
    }
}

/// Where the wiki link `[[target]]` that starts at index `i` ends, if one
/// starts there; the target is one or more characters other than `']'`.
pub open spec fn link_at(s: Seq<char>, i: int) -> Option<int> {
    if 0 <= i && i + 1 < s.len() && s[i] == '[' && s[i + 1] == '[' {
        let te = bracket_free_end(s, i + 2);
        if te > i + 2 && te + 1 < s.len() && s[te + 1] == ']' {
            Some(te + 2)
        } else {
            None
        }
    } else {
        None
    }
}

/// The targets of the wiki links of `s` from index `i` on, leftmost first.
pub open spec fn links_from(s: Seq<char>, i: int) -> Seq<Seq<char>>
    decreases s.len() - i,
{
    if i < 0 || i >= s.len() {
        Seq::empty()
    } else {
        match link_at(s, i) {
            Some(e) => seq![s.subrange(i + 2, e - 2)] + links_from(s, e),
            None => links_from(s, i + 1),
        }
    }
}

fn link_at_chars(v: &Vec<char>, i: usize) -> (r: Option<usize>)
    requires
        i < v.len(),
    ensures
        match r {
            Some(e) => link_at(v@, i as int) == Some(e as int) && i + 4 < e <= v.len(),
            None => link_at(v@, i as int) is None,
        },
{
    if i + 1 < v.len() && v[i] == '[' && v[i + 1] == '[' {
        let mut te = i + 2;
        while te < v.len() && v[te] != ']'
            invariant
                i + 2 <= te <= v.len(),
                bracket_free_end(v@, i + 2) == bracket_free_end(v@, te as int),
            decreases v.len() - te,
        {
            te += 1;
        }
        if te > i + 2 && te < v.len() - 1 && v[te + 1] == ']' {
            Some(te + 2)
        } else {
            None
        }
    } else {
        None
    }
}

/// The targets of the wiki links `[[...]]` in `body`, in order.
pub fn wikilinks(body: &str) -> (r: Vec<String>)
    ensures
        views_of_strings(r@) == links_from(body@, 0),
{
    let v = chars_of(body);
    let n = v.len();
    let mut out: Vec<String> = Vec::new();
    let mut i: usize = 0;
    while i < n
        invariant
            i <= n == v.len(),
            v@ == body@,
            links_from(v@, 0) == views_of_strings(out@) + links_from(v@, i as int),
        decreases n - i,
    {
        match link_at_chars(&v, i) {
            Some(e) => {
                let target = slice_of(&v, i + 2, e - 2);
                let ghost before = views_of_strings(out@);
                out.push(string_of(&target));
                assert(views_of_strings(out@) =~= before.push(target@));
                assert(before.push(target@) + links_from(v@, e as int) =~= before + (seq![target@]
                    + links_from(v@, e as int)));
                i = e;
            },
            None => {
                i += 1;
            },
        }
    }
    assert(views_of_strings(out@) + Seq::<Seq<char>>::empty() =~= views_of_strings(out@));
    out
}

/// The tags that a note's metadata lists, none when `tags` is missing or
/// is not a list of strings.
pub open spec fn tag_list(meta: Option<Map<Seq<char>, serde_json::Value>>) -> Seq<Seq<char>> {
    match meta {
        Some(e) => if e.contains_key(tags_key()) {
            match json_string_list(e[tags_key()]) {
                Some(l) => l,
                None => Seq::empty(),
            }
        } else {
            Seq::empty()
        },
        None => Seq::empty(),
    }
}

/// The tags that a note's metadata lists.
pub fn note_tags(frontmatter: Option<&Metadata>) -> (r: Vec<String>)
    ensures
        views_of_strings(r@) == tag_list(
            match frontmatter {
                Some(m) => Some(entries(*m)),
                None => None,
            },
        ),
{
    match frontmatter {
        Some(m) => match property(m, "tags") {
            Some(v) => match string_list(v) {
                Some(l) => l,
                None => {
                    let none: Vec<String> = Vec::new();
                    assert(views_of_strings(none@) =~= Seq::<Seq<char>>::empty());
                    none
                },
            },
            None => {
                let none: Vec<String> = Vec::new();
                assert(views_of_strings(none@) =~= Seq::<Seq<char>>::empty());
                none
            },
        },
        None => {
            let none: Vec<String> = Vec::new();
            assert(views_of_strings(none@) =~= Seq::<Seq<char>>::empty());
            none
        },
    }
}

/// What relates other notes to a note: its tags when `tags` is asked for,
/// then its link targets when `links` is; both when nothing is asked.
pub fn related_terms(frontmatter: Option<&Metadata>, body: &str, on: Option<&Vec<String>>) -> (r:
    Vec<String>)
    ensures
        ({
            let by_tags = match on {
                Some(v) => names_include(views_of_strings(v@), "tags"@),
                None => true,
            };
            let by_links = match on {
                Some(v) => names_include(views_of_strings(v@), "links"@),
                None => true,
            };
            views_of_strings(r@) == (if by_tags {
                tag_list(
                    match frontmatter {
                        Some(m) => Some(entries(*m)),
                        None => None,
                    },
                )
            } else {
                Seq::empty()
            }) + (if by_links {
                links_from(body@, 0)
            } else {
                Seq::empty()
            })
        }),
{
    let by_tags = match on {
        Some(v) => includes_name(v, &chars_of("tags")),
        None => true,
    };
    let by_links = match on {
        Some(v) => includes_name(v, &chars_of("links")),
        None => true,
    };
    let mut terms: Vec<String> = if by_tags {
        note_tags(frontmatter)
    } else {
        Vec::new()
    };
    let ghost first = views_of_strings(terms@);
    if by_links {
        let mut links = wikilinks(body);
        terms.append(&mut links);
        assert(views_of_strings(terms@) =~= first + links_from(body@, 0));
    } else {
        assert(views_of_strings(terms@) =~= first + Seq::<Seq<char>>::empty());
    }
    terms
}

/// Whether another note is related to `term` by its name: its path
/// relative to the vault, or its file stem, holds the term.
pub fn names_match(path: &str, stem: Option<&str>, term: &str) -> (r: bool)
    ensures
        r == (contains(path@, term@) || (stem is Some && contains(stem->0@, term@))),
{
    let t = chars_of(term);
    if first_occurrence_of(&chars_of(path), &t).is_some() {
        return true;
    }
    match stem {
        Some(s) => first_occurrence_of(&chars_of(s), &t).is_some(),
        None => false,
    }
}

/// Whether the note with text `content` lists `term` among its tags.
pub fn shares_tag(content: &str, term: &str) -> (r: bool)
    ensures
        r == tag_list(split_document(content@).0).contains(term@),
{
    let (meta, _) = parse_frontmatter(content);
    let tags = match meta {
        Some(m) => note_tags(Some(&m)),
        None => {
            let none: Vec<String> = Vec::new();
            assert(views_of_strings(none@) =~= Seq::<Seq<char>>::empty());
            none
        },
    };
    let t = chars_of(term);
    for i in 0..tags.len()
        invariant
            views_of_strings(tags@) == tag_list(split_document(content@).0),
            t@ == term@,
            forall|k: int| 0 <= k < i ==> tags@[k]@ != t@,
    {
        if chars_eq(&chars_of(tags[i].as_str()), &t) {
            assert(views_of_strings(tags@)[i as int] == t@);
            assert(views_of_strings(tags@).contains(t@));
            return true;
        }
    }
    assert forall|k: int| 0 <= k < tags.len() implies views_of_strings(tags@)[k] != t@ by {
        assert(views_of_strings(tags@)[k] == tags@[k]@);
    }
    assert(!views_of_strings(tags@).contains(t@));
    false
}

} // verus!
