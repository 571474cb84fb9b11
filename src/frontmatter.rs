//! The metadata block at the head of a note: splitting it from the body,
//! writing it back, and updating its properties.

use vstd::prelude::*;

use crate::replace::{first_occurrence, first_occurrence_of, occurs_at};
use crate::text::{chars_of, extend_chars, slice_of, string_of, trim, trim_chars};

verus! {

#[verifier::external_type_specification]
#[verifier::external_body]
pub struct ExJsonValue(serde_json::Value);

#[verifier::external_type_specification]
#[verifier::external_body]
#[verifier::reject_recursive_types(K)]
#[verifier::reject_recursive_types(V)]
pub struct ExJsonMap<K, V>(serde_json::Map<K, V>);

/// A note's metadata: property names with JSON values.
pub type Metadata = serde_json::Map<String, serde_json::Value>;

/// What a metadata map holds: each property name with its value.
pub uninterp spec fn entries(m: serde_json::Map<String, serde_json::Value>) -> Map<
    Seq<char>,
    serde_json::Value,
>;

/// The mapping that serde_yaml reads from a YAML text, `None` when the text
/// is not a mapping of string keys.
pub uninterp spec fn yaml_mapping(text: Seq<char>) -> Option<Map<Seq<char>, serde_json::Value>>;

/// The YAML text that serde_yaml writes for a mapping, `None` when it
/// reports an error.
pub uninterp spec fn yaml_text(e: Map<Seq<char>, serde_json::Value>) -> Option<Seq<char>>;

/// Metadata with no property.
pub open spec fn no_entries() -> Map<Seq<char>, serde_json::Value> {
    Map::empty()
}

/// Relies on `serde_json::Map::new`: an empty map.
#[verifier::external_body]
pub(crate) fn new_metadata() -> (r: Metadata)
    ensures
        entries(r) == no_entries(),
{
    serde_json::Map::new()
}

/// Relies on `serde_json::Map::insert`: `key` holds `value` afterwards, the
/// other properties keep theirs.
#[verifier::external_body]
pub(crate) fn set_property(m: &mut Metadata, key: String, value: serde_json::Value)
    ensures
        entries(*final(m)) == entries(*old(m)).insert(key@, value),
{
    m.insert(key, value);
}

/// Relies on `serde_json::Map::get`: the value of the property `key`.
#[verifier::external_body]
pub(crate) fn property<'a>(m: &'a Metadata, key: &str) -> (r: Option<&'a serde_json::Value>)
    ensures
        match r {
            Some(v) => entries(*m).contains_key(key@) && *v == entries(*m)[key@],
            None => !entries(*m).contains_key(key@),
        },
{
    m.get(key)
}

/// Relies on `serde_json::Map::remove`: the property `key` is gone, the
/// others stay.
#[verifier::external_body]
fn remove_property(m: &mut Metadata, key: &str)
    ensures
        entries(*final(m)) == entries(*old(m)).remove(key@),
{
    m.remove(key);
}

/// Relies on `serde_json::Map`'s `Extend`: every property of `other` is set
/// in `m`, its value replacing any that `m` had.
#[verifier::external_body]
pub(crate) fn merge_properties(m: &mut Metadata, other: &Metadata)
    ensures
        entries(*final(m)) == entries(*old(m)).union_prefer_right(entries(*other)),
{
    m.extend(other.clone());
}

/// Relies on `serde_yaml::from_str`: reads a YAML mapping.
#[verifier::external_body]
fn parse_yaml_mapping(text: &str) -> (r: Option<Metadata>)
    ensures
        match r {
            Some(m) => yaml_mapping(text@) == Some(entries(m)),
            None => yaml_mapping(text@) is None,
        },
{
    serde_yaml::from_str::<Metadata>(text).ok()
}

/// Relies on `serde_yaml::to_string`: writes a mapping as YAML.
#[verifier::external_body]
fn write_yaml(m: &Metadata) -> (r: Option<String>)
    ensures
        match r {
            Some(s) => yaml_text(entries(*m)) == Some(s@),
            None => yaml_text(entries(*m)) is None,
        },
{
    serde_yaml::to_string(m).ok()
}

/// The line that opens a metadata block.
pub open spec fn opening() -> Seq<char> {
    seq!['-', '-', '-', '\n']
}

/// The line that closes a metadata block, with the newline before it.
pub open spec fn closing() -> Seq<char> {
    seq!['\n', '-', '-', '-', '\n']
}

/// `b` without one leading blank line.
pub open spec fn after_blank_line(b: Seq<char>) -> Seq<char> {
    if b.len() > 0 && b[0] == '\n' {
        b.skip(1)
    } else {
        b
    }
}

/// The metadata text and the body of a document that opens with `---` on a
/// line of its own and has a later `---` line; the body starts after the
/// closing line and one blank line, if there is one.
pub open spec fn metadata_block(content: Seq<char>) -> Option<(Seq<char>, Seq<char>)> {
    if content.len() >= 4 && content.take(4) == opening() {
        let rest = content.skip(4);
        match first_occurrence(rest, closing(), 0) {
            Some(p) => Some((rest.take(p), after_blank_line(rest.skip(p + 5)))),
            None => None,
        }
    } else {
        None
    }
}

/// A document split into its metadata and its body. Without a block, or
/// with one that is not a YAML mapping, all of it is body.
pub open spec fn split_document(content: Seq<char>) -> (
    Option<Map<Seq<char>, serde_json::Value>>,
    Seq<char>,
) {
    match metadata_block(content) {
        Some((text, body)) => match yaml_mapping(text) {
            Some(e) => (Some(e), body),
            None => (None, content),
        },
        None => (None, content),
    }
}

/// A body with its metadata written in front: `---`, the YAML trimmed,
/// `---`, a blank line, then the body.
pub open spec fn join_document(body: Seq<char>, meta: Option<Map<Seq<char>, serde_json::Value>>) -> Seq<
    char,
> {
    match meta {
        None => body,
        Some(e) => {
            let text = match yaml_text(e) {
                Some(t) => t,
                None => Seq::empty(),
            };
            opening() + trim(text) + closing() + seq!['\n'] + body
        },
    }
}

fn opening_chars() -> (r: Vec<char>)
    ensures
        r@ == opening(),
{
    let r = vec!['-', '-', '-', '\n'];
    assert(r@ =~= opening());
    r
}

fn closing_chars() -> (r: Vec<char>)
    ensures
        r@ == closing(),
{
    let r = vec!['\n', '-', '-', '-', '\n'];
    assert(r@ =~= closing());
    r
}

/// Splits a document into its metadata and its body.
pub fn parse_frontmatter(content: &str) -> (r: (Option<Metadata>, String))
    ensures
        match r.0 {
            Some(m) => split_document(content@).0 == Some(entries(m)),
            None => split_document(content@).0 is None,
        },
        r.1@ == split_document(content@).1,
{
    let v = chars_of(content);
    let n = v.len();
    let open = opening_chars();
    if n < 4 || v[0] != open[0] || v[1] != open[1] || v[2] != open[2] || v[3] != open[3] {
        proof {
            if n >= 4 {
                assert(v@.take(4)[0] == v@[0] && v@.take(4)[1] == v@[1]);
                assert(v@.take(4)[2] == v@[2] && v@.take(4)[3] == v@[3]);
            }
        }
        return (None, string_of(&v));
    }
    assert(v@.take(4) =~= opening());
    let rest = slice_of(&v, 4, n);
    assert(rest@ =~= v@.skip(4));
    let p = match first_occurrence_of(&rest, &closing_chars()) {
        Some(p) => p,
        None => {
            return (None, string_of(&v));
        },
    };
    let text = string_of(&slice_of(&rest, 0, p));
    assert(rest@.take(p as int) =~= rest@.subrange(0, p as int));
    let after = slice_of(&rest, p + 5, rest.len());
    assert(after@ =~= rest@.skip(p + 5));
    let body = if after.len() > 0 && after[0] == '\n' {
        assert(after@.skip(1) =~= after@.subrange(1, after.len() as int));
        slice_of(&after, 1, after.len())
    } else {
        after
    };
    match parse_yaml_mapping(text.as_str()) {
        Some(m) => (Some(m), string_of(&body)),
        None => (None, string_of(&v)),
    }
}

/// Writes `content` with `frontmatter`, if any, in front of it.
pub fn format_with_frontmatter(content: &str, frontmatter: Option<&Metadata>) -> (r: String)
    ensures
        r@ == join_document(
            content@,
            match frontmatter {
                Some(m) => Some(entries(*m)),
                None => None,
            },
        ),
{
    match frontmatter {
        None => string_of(&chars_of(content)),
        Some(m) => {
            let text = match write_yaml(m) {
                Some(s) => chars_of(s.as_str()),
                None => Vec::new(),
            };
            let mut out = opening_chars();
            extend_chars(&mut out, &trim_chars(&text));
            extend_chars(&mut out, &closing_chars());
            out.push('\n');
            extend_chars(&mut out, &chars_of(content));
            string_of(&out)
        },
    }
}

/// The names of a list of property names.
pub open spec fn key_views(keys: Seq<String>) -> Seq<Seq<char>> {
    keys.map_values(|k: String| k@)
}

/// `e` without the properties named in `keys`.
pub open spec fn without_keys(e: Map<Seq<char>, serde_json::Value>, keys: Seq<Seq<char>>) -> Map<
    Seq<char>,
    serde_json::Value,
>
    decreases keys.len(),
{
    if keys.len() == 0 {
        e
    } else {
        without_keys(e, keys.drop_last()).remove(keys.last())
    }
}

/// The metadata after an update: the existing properties (none without
/// metadata), each upsert set over them, then each removal taken out.
pub open spec fn updated_entries(
    existing: Option<Map<Seq<char>, serde_json::Value>>,
    upserts: Option<Map<Seq<char>, serde_json::Value>>,
    removals: Seq<Seq<char>>,
) -> Map<Seq<char>, serde_json::Value> {
    let base = match existing {
        Some(e) => e,
        None => Map::empty(),
    };
    let set = match upserts {
        Some(u) => base.union_prefer_right(u),
        None => base,
    };
    without_keys(set, removals)
}

/// Sets the `upserts` over the existing metadata (or over none), then
/// removes the properties named in `removals`; a missing name is no error.
pub fn update_properties(
    metadata: Option<Metadata>,
    upserts: Option<&Metadata>,
    removals: Option<&Vec<String>>,
) -> (r: Metadata)
    ensures
        entries(r) == updated_entries(
            match metadata {
                Some(m) => Some(entries(m)),
                None => None,
            },
            match upserts {
                Some(u) => Some(entries(*u)),
                None => None,
            },
            match removals {
                Some(keys) => key_views(keys@),
                None => Seq::empty(),
            },
        ),
{
    let mut fm = match metadata {
        Some(m) => m,
        None => new_metadata(),
    };
    match upserts {
        Some(u) => merge_properties(&mut fm, u),
        None => {},
    }
    let ghost set = entries(fm);
    match removals {
        Some(keys) => {
            for i in 0..keys.len()
                invariant
                    entries(fm) == without_keys(set, key_views(keys@).take(i as int)),
            {
                assert(key_views(keys@).take(i + 1).drop_last() =~= key_views(keys@).take(
                    i as int,
                ));
                remove_property(&mut fm, keys[i].as_str());
            }
            assert(key_views(keys@).take(keys.len() as int) =~= key_views(keys@));
        },
        None => {},
    }
    fm
}

proof fn lemma_without_keys(e: Map<Seq<char>, serde_json::Value>, keys: Seq<Seq<char>>, k: Seq<char>)
    ensures
        without_keys(e, keys).contains_key(k) <==> (e.contains_key(k) && !keys.contains(k)),
        without_keys(e, keys).contains_key(k) ==> without_keys(e, keys)[k] == e[k],
    decreases keys.len(),
{
    if keys.len() > 0 {
        lemma_without_keys(e, keys.drop_last(), k);
        if keys.drop_last().contains(k) {
            let i = choose|i: int| 0 <= i < keys.drop_last().len() && keys.drop_last()[i] == k;
            assert(keys[i] == k);
        }
        if keys.contains(k) && keys.last() != k {
            let i = choose|i: int| 0 <= i < keys.len() && keys[i] == k;
            assert(keys.drop_last()[i] == k);
        }
    }
}

/// After an update a property is present exactly when it is not removed
/// and it existed or was set; its value is the one set, if any, and
/// otherwise the existing one.
pub proof fn lemma_update_keeps_sets_and_removes(
    existing: Option<Map<Seq<char>, serde_json::Value>>,
    upserts: Option<Map<Seq<char>, serde_json::Value>>,
    removals: Seq<Seq<char>>,
    k: Seq<char>,
)
    ensures
        ({
            let base = match existing {
                Some(e) => e,
                None => Map::empty(),
            };
            let set = match upserts {
                Some(u) => u,
                None => Map::empty(),
            };
            let r = updated_entries(existing, upserts, removals);
            &&& r.contains_key(k) <==> (!removals.contains(k) && (base.contains_key(k)
                || set.contains_key(k)))
            &&& r.contains_key(k) ==> r[k] == (if set.contains_key(k) {
                set[k]
            } else {
                base[k]
            })
        }),
{
    let base = match existing {
        Some(e) => e,
        None => Map::empty(),
    };
    let merged = match upserts {
        Some(u) => base.union_prefer_right(u),
        None => base,
    };
    lemma_without_keys(merged, removals, k);
}

proof fn lemma_first_occurrence_extends(s: Seq<char>, t: Seq<char>, pat: Seq<char>, from: int)
    requires
        0 <= from,
        first_occurrence(s, pat, from) is Some,
    ensures
        first_occurrence(s + t, pat, from) == first_occurrence(s, pat, from),
    decreases s.len() + 1 - from,
{
    if from + pat.len() <= s.len() {
        assert((s + t).subrange(from, from + pat.len()) =~= s.subrange(from, from + pat.len()));
        if !occurs_at(s, pat, from) {
            lemma_first_occurrence_extends(s, t, pat, from + 1);
        }
    }
}

/// Writing a body with metadata and splitting the result gives back the
/// same metadata and body, when serde_yaml reads back what it wrote for the
/// metadata and that text holds no closing `---` line of its own.
pub proof fn lemma_metadata_round_trip(body: Seq<char>, e: Map<Seq<char>, serde_json::Value>)
    requires
        yaml_text(e) is Some,
        yaml_mapping(trim(yaml_text(e)->0)) == Some(e),
        first_occurrence(trim(yaml_text(e)->0) + closing(), closing(), 0) == Some(
            trim(yaml_text(e)->0).len() as int,
        ),
    ensures
        split_document(join_document(body, Some(e))) == (Some(e), body),
{
    let y = trim(yaml_text(e)->0);
    let content = join_document(body, Some(e));
    assert(content =~= opening() + (y + closing() + (seq!['\n'] + body)));
    assert(content.take(4) =~= opening());
    let rest = content.skip(4);
    assert(rest =~= (y + closing()) + (seq!['\n'] + body));
    lemma_first_occurrence_extends(y + closing(), seq!['\n'] + body, closing(), 0);
    assert(rest.take(y.len() as int) =~= y);
    assert(rest.skip(y.len() as int + 5) =~= seq!['\n'] + body);
    assert((seq!['\n'] + body).skip(1) =~= body);
}


/// The entries of optional metadata.
pub open spec fn entries_opt(m: Option<&Metadata>) -> Option<Map<Seq<char>, serde_json::Value>> {
    match m {
        Some(x) => Some(entries(*x)),
        None => None,
    }
}

/// The names of an optional list of property names, none without one.
pub open spec fn removal_views(keys: Option<&Vec<String>>) -> Seq<Seq<char>> {
    match keys {
        Some(k) => key_views(k@),
        None => Seq::empty(),
    }
}

/// The text of a note after its properties are updated: its metadata as
/// `update_properties` leaves it, written in front of its body, which is
/// kept exactly as it was.
pub open spec fn note_with_updated_properties(
    content: Seq<char>,
    upserts: Option<Map<Seq<char>, serde_json::Value>>,
    removals: Seq<Seq<char>>,
) -> Seq<char> {
    let (meta, body) = split_document(content);
    join_document(body, Some(updated_entries(meta, upserts, removals)))
}

/// Updates the properties of the note `content`: sets the `upserts`, then
/// removes the properties named in `removals`. The body is not touched.
pub fn with_updated_properties(
    content: &str,
    upserts: Option<&Metadata>,
    removals: Option<&Vec<String>>,
) -> (r: String)
    ensures
        r@ == note_with_updated_properties(content@, entries_opt(upserts), removal_views(removals)),
{
    let (existing, body) = parse_frontmatter(content);
    let fm = update_properties(existing, upserts, removals);
    format_with_frontmatter(body.as_str(), Some(&fm))
}

/// Reading back a note whose properties were updated gives its body as it
/// was, when serde_yaml reads back what it wrote for the new metadata and
/// that text holds no closing `---` line of its own.
pub proof fn lemma_update_keeps_body(
    content: Seq<char>,
    upserts: Option<Map<Seq<char>, serde_json::Value>>,
    removals: Seq<Seq<char>>,
)
    requires
        ({
            let e = updated_entries(split_document(content).0, upserts, removals);
            &&& yaml_text(e) is Some
            &&& yaml_mapping(trim(yaml_text(e)->0)) == Some(e)
            &&& first_occurrence(trim(yaml_text(e)->0) + closing(), closing(), 0) == Some(
                trim(yaml_text(e)->0).len() as int,
            )
        }),
    ensures
        split_document(note_with_updated_properties(content, upserts, removals)).1
            == split_document(content).1,
{
    let e = updated_entries(split_document(content).0, upserts, removals);
    lemma_metadata_round_trip(split_document(content).1, e);
}

} // verus!
