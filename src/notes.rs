//! Note paths and the content written when a note is created or updated.

use vstd::prelude::*;

use crate::frontmatter::{
    entries, format_with_frontmatter, join_document, merge_properties, new_metadata,
    parse_frontmatter, split_document, Metadata,
};
use crate::text::{chars_of, extend_chars, string_of};

verus! {

pub open spec fn md_suffix() -> Seq<char> {
    seq!['.', 'm', 'd']
}

/// `path`, with `.md` added unless it ends so.
pub open spec fn with_md_extension(path: Seq<char>) -> Seq<char> {
    if path.len() >= 3 && path.subrange(path.len() - 3, path.len() as int) == md_suffix() {
        path
    } else {
        path + md_suffix()
    }
}

/// Adds `.md` to a note path that does not end with it.
pub fn ensure_md_extension(path: &str) -> (r: String)
    ensures
        r@ == with_md_extension(path@),
{
    let mut v = chars_of(path);
    let n = v.len();
    let suffix = vec!['.', 'm', 'd'];
    assert(suffix@ =~= md_suffix());
    if n >= 3 && v[n - 3] == '.' && v[n - 2] == 'm' && v[n - 1] == 'd' {
        assert(v@.subrange(n - 3, n as int) =~= md_suffix());
    } else {
        proof {
            if n >= 3 {
                let tail = v@.subrange(n - 3, n as int);
                assert(tail[0] == v@[n - 3] && tail[1] == v@[n - 2] && tail[2] == v@[n - 1]);
            }
        }
        extend_chars(&mut v, &suffix);
    }
    string_of(&v)
}

/// How new content meets a note that already exists.
#[derive(Debug, Clone, Copy, PartialEq, Eq, Structural)]
pub enum WriteMode {
    /// The note is replaced.
    Overwrite,
    /// The content goes after the existing body.
    Append,
    /// The content goes before the existing body.
    Prepend,
    /// The body stays; only the metadata is merged.
    KeepBody,
}

pub open spec fn mode_named(name: Seq<char>) -> WriteMode {
    if name == seq!['o', 'v', 'e', 'r', 'w', 'r', 'i', 't', 'e'] {
        WriteMode::Overwrite
    } else if name == seq!['a', 'p', 'p', 'e', 'n', 'd'] {
        WriteMode::Append
    } else if name == seq!['p', 'r', 'e', 'p', 'e', 'n', 'd'] {
        WriteMode::Prepend
    } else {
        WriteMode::KeepBody
    }
}

impl WriteMode {
    /// The mode that a request names; a name that is none of `overwrite`,
    /// `append` and `prepend` keeps the body.
    pub fn from_name(name: &str) -> (r: WriteMode)
        ensures
            r == mode_named(name@),
    {
        let v = chars_of(name);
        let overwrite = vec!['o', 'v', 'e', 'r', 'w', 'r', 'i', 't', 'e'];
        let append = vec!['a', 'p', 'p', 'e', 'n', 'd'];
        let prepend = vec!['p', 'r', 'e', 'p', 'e', 'n', 'd'];
        assert(overwrite@ =~= seq!['o', 'v', 'e', 'r', 'w', 'r', 'i', 't', 'e']);
        assert(append@ =~= seq!['a', 'p', 'p', 'e', 'n', 'd']);
        assert(prepend@ =~= seq!['p', 'r', 'e', 'p', 'e', 'n', 'd']);
        if crate::text::chars_eq(&v, &overwrite) {
            WriteMode::Overwrite
        } else if crate::text::chars_eq(&v, &append) {
            WriteMode::Append
        } else if crate::text::chars_eq(&v, &prepend) {
            WriteMode::Prepend
        } else {
            WriteMode::KeepBody
        }
    }
}

/// Metadata entries of an optional map.
pub open spec fn entries_of(m: Option<Metadata>) -> Option<Map<Seq<char>, serde_json::Value>> {
    match m {
        Some(x) => Some(entries(x)),
        None => None,
    }
}

/// The text a note holds after a write. Over an existing note, unless the
/// mode overwrites, the new metadata is merged over the old (new values
/// win) and the content joins the old body as the mode says.
pub open spec fn composed_note(
    existing: Option<Seq<char>>,
    content: Seq<char>,
    frontmatter: Option<Map<Seq<char>, serde_json::Value>>,
    mode: WriteMode,
) -> Seq<char> {
    match existing {
        Some(old) if mode != WriteMode::Overwrite => {
            let (old_meta, old_body) = split_document(old);
            let merged = match (old_meta, frontmatter) {
                (Some(a), Some(b)) => Some(a.union_prefer_right(b)),
                (Some(a), None) => Some(a),
                (None, b) => b,
            };
            let body = match mode {
                WriteMode::Append => old_body + seq!['\n'] + content,
                WriteMode::Prepend => content + seq!['\n'] + old_body,
                _ => old_body,
            };
            join_document(body, merged)
        },
        _ => join_document(content, frontmatter),
    }
}

/// The text to write for a note, given what it holds now (`None` when it
/// does not exist yet).
pub fn compose_note(
    existing: Option<&str>,
    content: &str,
    frontmatter: Option<&Metadata>,
    mode: WriteMode,
) -> (r: String)
    ensures
        r@ == composed_note(
            match existing {
                Some(e) => Some(e@),
                None => None,
            },
            content@,
            match frontmatter {
                Some(m) => Some(entries(*m)),
                None => None,
            },
            mode,
        ),
{
    let old = match existing {
        Some(e) => e,
        None => {
            return format_with_frontmatter(content, frontmatter);
        },
    };
    if mode == WriteMode::Overwrite {
        return format_with_frontmatter(content, frontmatter);
    }
    let (old_meta, old_body) = parse_frontmatter(old);
    let merged: Option<Metadata> = match (old_meta, frontmatter) {
        (Some(a), Some(b)) => {
            let mut a = a;
            merge_properties(&mut a, b);
            Some(a)
        },
        (Some(a), None) => Some(a),
        (None, Some(b)) => {
            let mut fresh = new_metadata();
            merge_properties(&mut fresh, b);
            assert(entries(fresh) =~= entries(*b));
            Some(fresh)
        },
        (None, None) => None,
    };
    let mut body = chars_of(old_body.as_str());
    let add = chars_of(content);
    match mode {
        WriteMode::Append => {
            body.push('\n');
            extend_chars(&mut body, &add);
        },
        WriteMode::Prepend => {
            let mut front = add;
            front.push('\n');
            extend_chars(&mut front, &body);
            body = front;
        },
        _ => {},
    }
    let text = string_of(&body);
    match merged {
        Some(m) => format_with_frontmatter(text.as_str(), Some(&m)),
        None => format_with_frontmatter(text.as_str(), None),
    }
}

} // verus!
