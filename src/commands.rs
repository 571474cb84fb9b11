//! Reading the `key=value` arguments of the command line.

use vstd::prelude::*;

use std::collections::HashMap;

use crate::frontmatter::{entries, new_metadata, set_property, Metadata};
use crate::text::{
    char_index, char_index_of, chars_of, slice_of, split_chars, split_on,
    string_of, trim, trim_chars, views,
};

verus! {

broadcast use vstd::std_specs::hash::lemma_hashmap_deepview_dom;

/// The JSON value that serde_json reads from a text, `None` when the text
/// is not JSON.
pub uninterp spec fn json_parsed(text: Seq<char>) -> Option<serde_json::Value>;

/// The JSON string value holding a text.
pub uninterp spec fn json_string(text: Seq<char>) -> serde_json::Value;

/// The JSON array of the string values holding the given texts.
pub uninterp spec fn json_string_array(items: Seq<Seq<char>>) -> serde_json::Value;

/// Relies on `serde_json::from_str`: reads a JSON value.
#[verifier::external_body]
fn parse_json(text: &str) -> (r: Option<serde_json::Value>)
    ensures
        r == json_parsed(text@),
{
    serde_json::from_str::<serde_json::Value>(text).ok()
}

/// Relies on `serde_json::Value::String`: a JSON string.
#[verifier::external_body]
fn string_value(text: String) -> (r: serde_json::Value)
    ensures
        r == json_string(text@),
{
    serde_json::Value::String(text)
}

/// Relies on `serde_json::Value::Array` of `serde_json::Value::String`s: a
/// JSON array of strings.
#[verifier::external_body]
fn string_array_value(items: Vec<String>) -> (r: serde_json::Value)
    ensures
        r == json_string_array(views_of_strings(items@)),
{
    serde_json::Value::Array(items.into_iter().map(serde_json::Value::String).collect())
}

/// Relies on `HashMap::insert`: `key` maps to `value` afterwards, the other
/// keys keep theirs.
#[verifier::external_body]
fn insert_variable(m: &mut HashMap<String, String>, key: String, value: String)
    ensures
        final(m).deep_view() == old(m).deep_view().insert(key@, value@),
{
    m.insert(key, value);
}

pub open spec fn views_of_strings(v: Seq<String>) -> Seq<Seq<char>> {
    v.map_values(|s: String| s@)
}

/// The template variables that `key=value` arguments give; an argument
/// without `=` is skipped and a later key wins.
pub open spec fn template_vars(pairs: Seq<Seq<char>>) -> Map<Seq<char>, Seq<char>>
    decreases pairs.len(),
{
    if pairs.len() == 0 {
        Map::empty()
    } else {
        let earlier = template_vars(pairs.drop_last());
        let p = pairs.last();
        let i = char_index(p, '=');
        if i < p.len() {
            earlier.insert(p.take(i), p.skip(i + 1))
        } else {
            earlier
        }
    }
}

/// The key and the value of a `key=value` argument, split at its first `=`.
fn split_pair(p: &Vec<char>) -> (r: Option<(String, Vec<char>)>)
    ensures
        match r {
            Some((k, v)) => char_index(p@, '=') < p.len() && k@ == p@.take(char_index(p@, '='))
                && v@ == p@.skip(char_index(p@, '=') + 1),
            None => char_index(p@, '=') == p.len(),
        },
{
    let i = char_index_of(p, '=');
    if i == p.len() {
        return None;
    }
    let key = slice_of(p, 0, i);
    let value = slice_of(p, i + 1, p.len());
    assert(key@ =~= p@.take(i as int));
    assert(value@ =~= p@.skip(i + 1));
    Some((string_of(&key), value))
}

/// The template variables given as `key=value` arguments.
pub fn parse_template_vars(pairs: Option<Vec<String>>) -> (r: HashMap<String, String>)
    ensures
        r.deep_view() == template_vars(
            match pairs {
                Some(v) => views_of_strings(v@),
                None => Seq::empty(),
            },
        ),
{
    let mut map: HashMap<String, String> = HashMap::new();
    assert(map.deep_view() =~= Map::<Seq<char>, Seq<char>>::empty());
    let list = match pairs {
        Some(v) => v,
        None => Vec::new(),
    };
    assert(views_of_strings(list@) == match pairs {
        Some(v) => views_of_strings(v@),
        None => Seq::<Seq<char>>::empty(),
    }) by {
        if pairs is None {
            assert(views_of_strings(list@) =~= Seq::<Seq<char>>::empty());
        }
    }
    for i in 0..list.len()
        invariant
            map.deep_view() == template_vars(views_of_strings(list@).take(i as int)),
    {
        assert(views_of_strings(list@).take(i + 1).drop_last() =~= views_of_strings(list@).take(
            i as int,
        ));
        assert(views_of_strings(list@).take(i + 1).last() == list@[i as int]@);
        match split_pair(&chars_of(list[i].as_str())) {
            Some((key, value)) => insert_variable(&mut map, key, string_of(&value)),
            None => {},
        }
    }
    assert(views_of_strings(list@).take(list.len() as int) =~= views_of_strings(list@));
    map
}

/// The trimmed pieces of `pieces` that are not blank.
pub open spec fn kept_items(pieces: Seq<Seq<char>>) -> Seq<Seq<char>>
    decreases pieces.len(),
{
    if pieces.len() == 0 {
        Seq::empty()
    } else {
        let earlier = kept_items(pieces.drop_last());
        let t = trim(pieces.last());
        if t.len() > 0 {
            earlier.push(t)
        } else {
            earlier
        }
    }
}

/// The comma-separated items of `s`, trimmed, blank ones left out.
pub open spec fn list_items(s: Seq<char>) -> Seq<Seq<char>> {
    kept_items(split_on(s, ','))
}

/// The value of a property given on the command line (already trimmed):
/// JSON when it reads as JSON; else a list of strings when it is
/// bracketed or holds a comma; else the text as a string.
pub open spec fn property_value(v: Seq<char>) -> serde_json::Value {
    match json_parsed(v) {
        Some(x) => x,
        None => if v.len() >= 2 && v[0] == '[' && v.last() == ']' {
            json_string_array(list_items(v.subrange(1, v.len() - 1)))
        } else if char_index(v, ',') < v.len() {
            json_string_array(list_items(v))
        } else {
            json_string(v)
        },
    }
}

/// The properties that `key=value` arguments give; an argument without
/// `=` is skipped and a later key wins.
pub open spec fn property_pairs(pairs: Seq<Seq<char>>) -> Map<Seq<char>, serde_json::Value>
    decreases pairs.len(),
{
    if pairs.len() == 0 {
        Map::empty()
    } else {
        let earlier = property_pairs(pairs.drop_last());
        let p = pairs.last();
        let i = char_index(p, '=');
        if i < p.len() {
            earlier.insert(p.take(i), property_value(trim(p.skip(i + 1))))
        } else {
            earlier
        }
    }
}

/// The comma-separated items of `v`, trimmed, blank ones left out.
fn list_items_of(v: &Vec<char>) -> (r: Vec<String>)
    ensures
        views_of_strings(r@) == list_items(v@),
{
    let pieces = split_chars(v, ',');
    let mut items: Vec<String> = Vec::new();
    for i in 0..pieces.len()
        invariant
            views(pieces@) == split_on(v@, ','),
            views_of_strings(items@) == kept_items(views(pieces@).take(i as int)),
    {
        assert(views(pieces@).take(i + 1).drop_last() =~= views(pieces@).take(i as int));
        assert(views(pieces@).take(i + 1).last() == pieces@[i as int]@);
        let t = trim_chars(&pieces[i]);
        if t.len() > 0 {
            let ghost before = views_of_strings(items@);
            items.push(string_of(&t));
            assert(views_of_strings(items@) =~= before.push(t@));
        }
    }
    assert(views(pieces@).take(pieces.len() as int) =~= views(pieces@));
    items
}

/// The value of a property given on the command line.
fn property_value_of(v: &Vec<char>) -> (r: serde_json::Value)
    ensures
        r == property_value(v@),
{
    match parse_json(string_of(v).as_str()) {
        Some(x) => x,
        None => {
            let n = v.len();
            if n >= 2 && v[0] == '[' && v[n - 1] == ']' {
                string_array_value(list_items_of(&slice_of(v, 1, n - 1)))
            } else if char_index_of(v, ',') < n {
                string_array_value(list_items_of(v))
            } else {
                string_value(string_of(v))
            }
        },
    }
}

/// The properties given as `key=value` arguments; a value may be JSON, a
/// bracketed or comma-separated list, or plain text.
pub fn parse_key_value_pairs(pairs: Vec<String>) -> (r: Metadata)
    ensures
        entries(r) == property_pairs(views_of_strings(pairs@)),
{
    let mut map = new_metadata();
    assert(entries(map) =~= property_pairs(views_of_strings(pairs@).take(0)));
    for i in 0..pairs.len()
        invariant
            entries(map) == property_pairs(views_of_strings(pairs@).take(i as int)),
    {
        assert(views_of_strings(pairs@).take(i + 1).drop_last() =~= views_of_strings(
            pairs@,
        ).take(i as int));
        assert(views_of_strings(pairs@).take(i + 1).last() == pairs@[i as int]@);
        match split_pair(&chars_of(pairs[i].as_str())) {
            Some((key, value)) => {
                let v = property_value_of(&trim_chars(&value));
                set_property(&mut map, key, v);
            },
            None => {},
        }
    }
    assert(views_of_strings(pairs@).take(pairs.len() as int) =~= views_of_strings(pairs@));
    map
}

} // verus!
