//! JSON documents as the program reads them: the fields of the top-level
//! object, the elements of those that are arrays, and the fields of those
//! elements that are objects. Every value is kept as what the program asks
//! of it: its text when a string, its number when a whole number that fits
//! in `u64`, its truth value when a boolean.

use vstd::prelude::*;
use serde_json::Value;
use crate::text::str_eq;

verus! {

/// A value: (string, whole number, boolean), each present when it is one.
pub type JsonLeaf = (Option<String>, Option<u64>, Option<bool>);

/// An element of an array: the value, and its fields when an object.
pub type JsonItem = (JsonLeaf, Option<Vec<(String, JsonLeaf)>>);

/// A field of the top-level object: its key, its value, and its elements
/// when an array.
pub type JsonField = (String, JsonLeaf, Option<Vec<JsonItem>>);

pub type LeafView = (Option<Seq<char>>, Option<u64>, Option<bool>);

pub type PairView = (Seq<char>, LeafView);

pub type ItemView = (LeafView, Option<Seq<PairView>>);

pub type FieldView = (Seq<char>, LeafView, Option<Seq<ItemView>>);

pub open spec fn opt_text(o: Option<String>) -> Option<Seq<char>> {
    match o {
        Some(s) => Some(s@),
        None => None,
    }
}

pub open spec fn leaf_view(l: JsonLeaf) -> LeafView {
    (opt_text(l.0), l.1, l.2)
}

pub open spec fn pair_view(p: (String, JsonLeaf)) -> PairView {
    (p.0@, leaf_view(p.1))
}

pub open spec fn pairs_view(ps: Seq<(String, JsonLeaf)>) -> Seq<PairView> {
    ps.map_values(|p: (String, JsonLeaf)| pair_view(p))
}

pub open spec fn item_view(i: JsonItem) -> ItemView {
    (
        leaf_view(i.0),
        match i.1 {
            Some(ps) => Some(pairs_view(ps@)),
            None => None,
        },
    )
}

pub open spec fn items_view(s: Seq<JsonItem>) -> Seq<ItemView> {
    s.map_values(|i: JsonItem| item_view(i))
}

pub open spec fn field_view(f: JsonField) -> FieldView {
    (
        f.0@,
        leaf_view(f.1),
        match f.2 {
            Some(items) => Some(items_view(items@)),
            None => None,
        },
    )
}

pub open spec fn fields_view(s: Seq<JsonField>) -> Seq<FieldView> {
    s.map_values(|f: JsonField| field_view(f))
}

/// What `serde_json` reads from a text: the top-level fields as above
/// (none when the document is not an object); `None` when the text is not
/// JSON.
pub uninterp spec fn json_doc(text: Seq<char>) -> Option<Seq<FieldView>>;

/// Reads `text` with `serde_json::from_str` into a `serde_json::Value` and
/// converts it, value by value, with `as_str`, `as_u64`, `as_bool`,
/// `as_array` and `as_object`. The contract names the result; it does not
/// restate JSON.
#[verifier::external_body]
pub(crate) fn parse_json(text: &str) -> (r: Option<Vec<JsonField>>)
    ensures
        json_doc(text@) == match r {
            Some(v) => Some(fields_view(v@)),
            None => None,
        },
{
    let v: Value = serde_json::from_str(text).ok()?;
    let leaf = |x: &Value| (x.as_str().map(String::from), x.as_u64(), x.as_bool());
    let obj = |x: &Value| x.as_object().map(|m| m.iter().map(|(k, y)| (k.clone(), leaf(y))).collect());
    let m = v.as_object().cloned().unwrap_or_default();
    Some(m.iter().map(|(k, x)| (k.clone(), leaf(x), x.as_array().map(|a| a.iter().map(|y| (leaf(y), obj(y))).collect()))).collect())
}

/// The index of the first key equal to `key`.
pub open spec fn first_key(keys: Seq<Seq<char>>, key: Seq<char>) -> Option<int>
    decreases keys.len(),
{
    if keys.len() == 0 {
        None
    } else if keys[0] == key {
        Some(0)
    } else {
        match first_key(keys.drop_first(), key) {
            Some(i) => Some(i + 1),
            None => None,
        }
    }
}

proof fn lemma_first_key_is(keys: Seq<Seq<char>>, key: Seq<char>, i: int)
    requires
        0 <= i <= keys.len(),
        forall|k: int| 0 <= k < i ==> #[trigger] keys[k] != key,
        i < keys.len() ==> keys[i] == key,
    ensures
        first_key(keys, key) == if i < keys.len() {
            Some(i)
        } else {
            None::<int>
        },
    decreases i,
{
    if i > 0 {
        let b = keys.drop_first();
        assert(keys[0] != key);
        assert forall|k: int| 0 <= k < i - 1 implies #[trigger] b[k] != key by {
            assert(b[k] == keys[k + 1]);
        }
        if i < keys.len() {
            assert(b[i - 1] == keys[i]);
        }
        lemma_first_key_is(b, key, i - 1);
    }
}

pub open spec fn field_keys(fs: Seq<FieldView>) -> Seq<Seq<char>> {
    fs.map_values(|f: FieldView| f.0)
}

pub open spec fn pair_keys(ps: Seq<PairView>) -> Seq<Seq<char>> {
    ps.map_values(|p: PairView| p.0)
}

/// The value and elements of the field named `key`, if any (an object
/// holds each key once).
pub open spec fn field_named(fs: Seq<FieldView>, key: Seq<char>) -> Option<(LeafView, Option<Seq<ItemView>>)> {
    match first_key(field_keys(fs), key) {
        Some(i) => Some((fs[i].1, fs[i].2)),
        None => None,
    }
}

/// The value of the field named `key` of an object's fields, if any.
pub open spec fn pair_named(ps: Seq<PairView>, key: Seq<char>) -> Option<LeafView> {
    match first_key(pair_keys(ps), key) {
        Some(i) => Some(ps[i].1),
        None => None,
    }
}

/// The text of the field named `key`, when it is a string.
pub open spec fn field_text(fs: Seq<FieldView>, key: Seq<char>) -> Option<Seq<char>> {
    match field_named(fs, key) {
        Some(v) => v.0.0,
        None => None,
    }
}

/// The number of the field named `key`, when it is a whole number.
pub open spec fn field_number(fs: Seq<FieldView>, key: Seq<char>) -> Option<u64> {
    match field_named(fs, key) {
        Some(v) => v.0.1,
        None => None,
    }
}

/// The truth value of the field named `key`, when it is a boolean.
pub open spec fn field_truth(fs: Seq<FieldView>, key: Seq<char>) -> Option<bool> {
    match field_named(fs, key) {
        Some(v) => v.0.2,
        None => None,
    }
}

/// The elements of the field named `key`, when it is an array.
pub open spec fn field_items(fs: Seq<FieldView>, key: Seq<char>) -> Option<Seq<ItemView>> {
    match field_named(fs, key) {
        Some(v) => v.1,
        None => None,
    }
}

/// The text of an object's field `key`, when it is a string.
pub open spec fn pair_text(ps: Seq<PairView>, key: Seq<char>) -> Option<Seq<char>> {
    match pair_named(ps, key) {
        Some(l) => l.0,
        None => None,
    }
}

/// The number of an object's field `key`, when it is a whole number.
pub open spec fn pair_number(ps: Seq<PairView>, key: Seq<char>) -> Option<u64> {
    match pair_named(ps, key) {
        Some(l) => l.1,
        None => None,
    }
}

fn clone_text(o: &Option<String>) -> (r: Option<String>)
    ensures
        opt_text(r) == opt_text(*o),
{
    match o {
        Some(s) => Some(s.clone()),
        None => None,
    }
}

fn find_field(fs: &Vec<JsonField>, key: &str) -> (r: Option<usize>)
    ensures
        match r {
            Some(i) => i < fs.len() && first_key(field_keys(fields_view(fs@)), key@) == Some(
                i as int,
            ),
            None => first_key(field_keys(fields_view(fs@)), key@) is None,
        },
{
    let ghost keys = field_keys(fields_view(fs@));
    let mut i: usize = 0;
    while i < fs.len()
        invariant
            0 <= i <= fs.len(),
            keys == field_keys(fields_view(fs@)),
            forall|k: int| 0 <= k < i ==> #[trigger] keys[k] != key@,
        decreases fs.len() - i,
    {
        assert(keys[i as int] == fs@[i as int].0@);
        if str_eq(fs[i].0.as_str(), key) {
            proof {
                lemma_first_key_is(keys, key@, i as int);
            }
            return Some(i);
        }
        i += 1;
    }
    proof {
        lemma_first_key_is(keys, key@, i as int);
    }
    None
}

fn find_pair(ps: &Vec<(String, JsonLeaf)>, key: &str) -> (r: Option<usize>)
    ensures
        match r {
            Some(i) => i < ps.len() && first_key(pair_keys(pairs_view(ps@)), key@) == Some(i as int),
            None => first_key(pair_keys(pairs_view(ps@)), key@) is None,
        },
{
    let ghost keys = pair_keys(pairs_view(ps@));
    let mut i: usize = 0;
    while i < ps.len()
        invariant
            0 <= i <= ps.len(),
            keys == pair_keys(pairs_view(ps@)),
            forall|k: int| 0 <= k < i ==> #[trigger] keys[k] != key@,
        decreases ps.len() - i,
    {
        assert(keys[i as int] == ps@[i as int].0@);
        if str_eq(ps[i].0.as_str(), key) {
            proof {
                lemma_first_key_is(keys, key@, i as int);
            }
            return Some(i);
        }
        i += 1;
    }
    proof {
        lemma_first_key_is(keys, key@, i as int);
    }
    None
}

/// The text of the top-level field `key`, when it is a string.
pub fn get_text(fs: &Vec<JsonField>, key: &str) -> (r: Option<String>)
    ensures
        opt_text(r) == field_text(fields_view(fs@), key@),
{
    match find_field(fs, key) {
        Some(i) => {
            assert(fields_view(fs@)[i as int] == field_view(fs@[i as int]));
            clone_text(&fs[i].1.0)
        },
        None => None,
    }
}

/// The number of the top-level field `key`, when it is a whole number.
pub fn get_number(fs: &Vec<JsonField>, key: &str) -> (r: Option<u64>)
    ensures
        r == field_number(fields_view(fs@), key@),
{
    match find_field(fs, key) {
        Some(i) => {
            assert(fields_view(fs@)[i as int] == field_view(fs@[i as int]));
            fs[i].1.1
        },
        None => None,
    }
}

/// The truth value of the top-level field `key`, when it is a boolean.
pub fn get_truth(fs: &Vec<JsonField>, key: &str) -> (r: Option<bool>)
    ensures
        r == field_truth(fields_view(fs@), key@),
{
    match find_field(fs, key) {
        Some(i) => {
            assert(fields_view(fs@)[i as int] == field_view(fs@[i as int]));
            fs[i].1.2
        },
        None => None,
    }
}

/// The elements of the top-level field `key`, when it is an array.
pub fn get_items<'a>(fs: &'a Vec<JsonField>, key: &str) -> (r: Option<&'a Vec<JsonItem>>)
    ensures
        match r {
            Some(v) => field_items(fields_view(fs@), key@) == Some(items_view(v@)),
            None => field_items(fields_view(fs@), key@) is None,
        },
{
    match find_field(fs, key) {
        Some(i) => {
            assert(fields_view(fs@)[i as int] == field_view(fs@[i as int]));
            match &fs[i].2 {
                Some(v) => Some(v),
                None => None,
            }
        },
        None => None,
    }
}

/// The text of an object's field `key`, when it is a string.
pub fn get_pair_text(ps: &Vec<(String, JsonLeaf)>, key: &str) -> (r: Option<String>)
    ensures
        opt_text(r) == pair_text(pairs_view(ps@), key@),
{
    match find_pair(ps, key) {
        Some(i) => {
            assert(pairs_view(ps@)[i as int] == pair_view(ps@[i as int]));
            clone_text(&ps[i].1.0)
        },
        None => None,
    }
}

/// The number of an object's field `key`, when it is a whole number.
pub fn get_pair_number(ps: &Vec<(String, JsonLeaf)>, key: &str) -> (r: Option<u64>)
    ensures
        r == pair_number(pairs_view(ps@), key@),
{
    match find_pair(ps, key) {
        Some(i) => {
            assert(pairs_view(ps@)[i as int] == pair_view(ps@[i as int]));
            ps[i].1.1
        },
        None => None,
    }
}

/// The text of an array element, when it is a string.
pub fn item_text(it: &JsonItem) -> (r: Option<String>)
    ensures
        opt_text(r) == item_view(*it).0.0,
{
    clone_text(&it.0.0)
}

} // verus!
