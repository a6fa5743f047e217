//! Reading and writing JSON text. The text is parsed and written by
//! `serde_json`; its documents are carried over, value by value, into the
//! documents of this library.

use crate::error::TranslateError;
use crate::json::{
    distinct_keys, entries_model, has_key, items_model, lang_entries, lang_entries_model,
    lang_shaped,
    lemma_array_view, lemma_lang_object_view, lemma_lang_tree_shaped, lemma_object_view,
    unique_keys, well_formed, Json, JsonValue, LangTree,
};
use serde_json::Value;
use vstd::prelude::*;

verus! {

/// Trusted: `serde_json::Value`, held without looking inside.
#[verifier::external_type_specification]
#[verifier::external_body]
pub struct ExValue(serde_json::Value);

/// Trusted: `serde_json::Map`, held without looking inside.
#[verifier::external_type_specification]
#[verifier::external_body]
#[verifier::reject_recursive_types(K)]
#[verifier::reject_recursive_types(V)]
pub struct ExMap<K, V>(serde_json::Map<K, V>);

/// Trusted: `serde_json::Error`, held without looking inside.
#[verifier::external_type_specification]
#[verifier::external_body]
pub struct ExError(serde_json::Error);

/// The document that a `serde_json::Value` holds.
pub uninterp spec fn value_model(v: Value) -> Json;

/// The entries that a `serde_json::Map` holds, in the order in which it
/// hands them out.
pub uninterp spec fn map_model(m: serde_json::Map<String, Value>) -> Seq<(Seq<char>, Json)>;

/// The document that `text` is parsed to, if it is JSON.
pub uninterp spec fn parsed_json(text: Seq<char>) -> Option<Json>;

/// The compact JSON text that the writer gives for a localization tree;
/// none where it refuses the tree.
pub uninterp spec fn json_text(doc: Json) -> Option<Seq<char>>;

/// One level of a `serde_json::Value`: its kind, and what it holds.
pub enum Peeled<'a> {
    Null,
    Bool(bool),
    Number,
    Text(&'a String),
    Array(&'a Vec<Value>),
    Object(&'a serde_json::Map<String, Value>),
}

/// The document that a peeled value stands for.
pub open spec fn peeled_model(p: Peeled) -> Json {
    match p {
        Peeled::Null => Json::Null,
        Peeled::Bool(b) => Json::Bool(b),
        Peeled::Number => Json::Number,
        Peeled::Text(s) => Json::Text(s@),
        Peeled::Array(items) => Json::Array(
            Seq::new(items@.len(), |i: int| value_model(items@[i])),
        ),
        Peeled::Object(m) => Json::Object(map_model(*m)),
    }
}

/// A place among `entries` where `key` stands, if it stands anywhere.
pub open spec fn key_index(entries: Seq<(Seq<char>, Json)>, key: Seq<char>) -> int {
    choose|i: int| 0 <= i < entries.len() && (#[trigger] entries[i]).0 == key
}

/// `entries` after a map that holds them takes `value` under `key`: the
/// value replaces the one that the key had, in its place, or the new entry
/// comes last.
pub open spec fn inserted(entries: Seq<(Seq<char>, Json)>, key: Seq<char>, value: Json) -> Seq<
    (Seq<char>, Json),
> {
    if has_key(entries, key) {
        entries.update(key_index(entries, key), (key, value))
    } else {
        entries.push((key, value))
    }
}

/// The entries that a map holds after it took `entries` one by one, each
/// object among their values held by a map in turn: of entries with one
/// key, the first keeps its place and the last gives the value.
pub open spec fn settled_entries(entries: Seq<(Seq<char>, Json)>) -> Seq<(Seq<char>, Json)>
    decreases entries,
{
    if entries.len() == 0 {
        Seq::empty()
    } else {
        let value = match entries.last().1 {
            Json::Object(inner) => Json::Object(settled_entries(inner)),
            other => other,
        };
        inserted(settled_entries(entries.drop_last()), entries.last().0, value)
    }
}

/// The document as the writer gets it, with every object held by a map.
pub open spec fn settled(doc: Json) -> Json {
    match doc {
        Json::Object(entries) => Json::Object(settled_entries(entries)),
        other => other,
    }
}

/// Entries with distinct keys at every depth are held as they are.
pub proof fn lemma_settled_unique(entries: Seq<(Seq<char>, Json)>)
    requires
        unique_keys(entries),
    ensures
        settled_entries(entries) == entries,
    decreases entries,
{
    if entries.len() > 0 {
        let init = entries.drop_last();
        let last = entries[entries.len() - 1];
        assert(unique_keys(init)) by {
            assert forall|i: int, j: int| 0 <= i < j < init.len() implies init[i].0
                != init[j].0 by {
                assert(init[i] == entries[i] && init[j] == entries[j]);
            }
            assert forall|i: int|
                0 <= i < init.len() && (#[trigger] init[i]).1 is Object implies unique_keys(
                init[i].1->Object_0,
            ) by {
                assert(init[i] == entries[i]);
            }
        }
        lemma_settled_unique(init);
        match last.1 {
            Json::Object(inner) => {
                lemma_settled_unique(inner);
            },
            _ => {},
        }
        assert(!has_key(init, last.0)) by {
            if has_key(init, last.0) {
                let k = choose|k: int| 0 <= k < init.len() && (#[trigger] init[k]).0 == last.0;
                assert(init[k] == entries[k]);
            }
        }
        assert(init.push(last) =~= entries);
    } else {
        assert(entries =~= Seq::empty());
    }
}

/// Taking a localization tree under a key leaves a list of localization
/// trees one.
pub proof fn lemma_inserted_lang(entries: Seq<(Seq<char>, Json)>, key: Seq<char>, value: Json)
    requires
        lang_entries(entries),
        lang_shaped(value),
    ensures
        lang_entries(inserted(entries, key, value)),
{
    let r = inserted(entries, key, value);
    if has_key(entries, key) {
        let at = key_index(entries, key);
        assert(0 <= at < entries.len());
        assert forall|i: int| 0 <= i < r.len() implies {
            let v = (#[trigger] r[i]).1;
            v is Text || (v is Object && lang_entries(v->Object_0))
        } by {
            if i != at {
                assert(r[i] == entries[i]);
            }
        }
    } else {
        assert forall|i: int| 0 <= i < r.len() implies {
            let v = (#[trigger] r[i]).1;
            v is Text || (v is Object && lang_entries(v->Object_0))
        } by {
            if i < entries.len() {
                assert(r[i] == entries[i]);
            }
        }
    }
}

/// What a map holds of a list of localization trees is a list of
/// localization trees.
pub proof fn lemma_settled_lang(entries: Seq<(Seq<char>, Json)>)
    requires
        lang_entries(entries),
    ensures
        lang_entries(settled_entries(entries)),
    decreases entries,
{
    if entries.len() > 0 {
        let init = entries.drop_last();
        let last = entries[entries.len() - 1];
        assert forall|i: int| 0 <= i < init.len() implies {
            let v = (#[trigger] init[i]).1;
            v is Text || (v is Object && lang_entries(v->Object_0))
        } by {
            assert(init[i] == entries[i]);
        }
        lemma_settled_lang(init);
        match last.1 {
            Json::Object(inner) => {
                lemma_settled_lang(inner);
            },
            _ => {},
        }
        lemma_inserted_lang(settled_entries(init), last.0, settled(last.1));
    }
}

/// Trusted: `serde_json::from_str` at `serde_json::Value`. Whether it
/// succeeds, and the document it gives, depend on the text alone.
#[verifier::external_body]
fn parse_value(text: &str) -> (r: Result<Value, serde_json::Error>)
    ensures
        match r {
            Ok(v) => parsed_json(text@) == Some(value_model(v)),
            Err(_) => parsed_json(text@).is_none(),
        },
{
    serde_json::from_str::<Value>(text)
}

/// Trusted: the variants of `serde_json::Value`, told apart. The result
/// borrows what the value holds.
#[verifier::external_body]
fn peel(v: &Value) -> (r: Peeled<'_>)
    ensures
        peeled_model(r) == value_model(*v),
{
    match v {
        Value::Null => Peeled::Null,
        Value::Bool(b) => Peeled::Bool(*b),
        Value::Number(_) => Peeled::Number,
        Value::String(s) => Peeled::Text(s),
        Value::Array(items) => Peeled::Array(items),
        Value::Object(m) => Peeled::Object(m),
    }
}

/// Trusted: `serde_json::Map::iter`, collected. It hands out every entry
/// once, in the map's order, and a map holds no key twice.
#[verifier::external_body]
fn map_entries(m: &serde_json::Map<String, Value>) -> (r: Vec<(&String, &Value)>)
    ensures
        r@.len() == map_model(*m).len(),
        forall|i: int|
            0 <= i < r@.len() ==> map_model(*m)[i] == ((#[trigger] r@[i]).0@, value_model(
                *r@[i].1,
            )),
        forall|i: int, j: int| 0 <= i < j < r@.len() ==> r@[i].0@ != r@[j].0@,
{
    m.iter().collect()
}

/// Trusted: `serde_json::Value::String` around a copy of `s`.
#[verifier::external_body]
fn text_value(s: &str) -> (r: Value)
    ensures
        value_model(r) == Json::Text(s@),
{
    Value::String(s.to_owned())
}

/// Trusted: `serde_json::Map::new`, the empty map.
#[verifier::external_body]
fn new_map() -> (r: serde_json::Map<String, Value>)
    ensures
        map_model(r) == Seq::<(Seq<char>, Json)>::empty(),
{
    serde_json::Map::new()
}

/// Trusted: `serde_json::Map::insert`, with the map keeping the order of
/// insertion. A key that the map has keeps its place and gets the new
/// value; a new key comes last.
#[verifier::external_body]
fn map_insert(map: &mut serde_json::Map<String, Value>, key: String, value: Value)
    ensures
        map_model(*final(map)) == inserted(map_model(*old(map)), key@, value_model(value)),
{
    map.insert(key, value);
}

/// Trusted: `serde_json::Value::Object` around `map`.
#[verifier::external_body]
fn object_value(map: serde_json::Map<String, Value>) -> (r: Value)
    ensures
        value_model(r) == Json::Object(map_model(map)),
{
    Value::Object(map)
}

/// Trusted: `serde_json::to_string` on a `serde_json::Value`. Whether it
/// writes a localization tree, and the text that it gives for it, depend on
/// the tree alone.
#[verifier::external_body]
fn render_value(v: &Value) -> (r: Result<String, serde_json::Error>)
    ensures
        lang_shaped(value_model(*v)) ==> match r {
            Ok(s) => json_text(value_model(*v)) == Some(s@),
            Err(_) => json_text(value_model(*v)).is_none(),
        },
{
    serde_json::to_string(v)
}

/// Carries a parsed value over into a document of this library.
fn lift(v: &Value) -> (r: JsonValue)
    ensures
        r@ == value_model(*v),
        well_formed(r@),
    decreases value_model(*v),
{
    match peel(v) {
        Peeled::Null => JsonValue::Null,
        Peeled::Bool(b) => JsonValue::Bool(b),
        Peeled::Number => JsonValue::Number,
        Peeled::Text(s) => JsonValue::Text(s.clone()),
        Peeled::Array(items) => {
            let ghost model = value_model(*v)->Array_0;
            let mut out: Vec<JsonValue> = Vec::new();
            let mut i: usize = 0;
            while i < items.len()
                invariant
                    i <= items.len(),
                    value_model(*v) == Json::Array(model),
                    model.len() == items@.len(),
                    forall|j: int|
                        0 <= j < model.len() ==> #[trigger] model[j] == value_model(items@[j]),
                    out@.len() == i,
                    forall|j: int| 0 <= j < i ==> (#[trigger] out@[j])@ == model[j],
                decreases items.len() - i,
            {
                assert(model[i as int] == value_model(items@[i as int]));
                assert(decreases_to!(value_model(*v)->Array_0 => model[i as int]));
                let item = lift(&items[i]);
                out.push(item);
                i = i + 1;
            }
            proof {
                lemma_array_view(out);
                assert(items_model(out@) =~= model);
            }
            JsonValue::Array(out)
        },
        Peeled::Object(m) => {
            let entries = map_entries(m);
            let ghost model = map_model(*m);
            assert(distinct_keys(model)) by {
                assert forall|a: int, b: int| 0 <= a < b < model.len() implies model[a].0
                    != model[b].0 by {
                    assert(model[a].0 == entries@[a].0@ && model[b].0 == entries@[b].0@);
                }
            }
            let mut out: Vec<(String, JsonValue)> = Vec::new();
            let mut i: usize = 0;
            while i < entries.len()
                invariant
                    i <= entries.len(),
                    value_model(*v) == Json::Object(model),
                    distinct_keys(model),
                    model.len() == entries@.len(),
                    forall|j: int|
                        0 <= j < model.len() ==> model[j] == (
                            (#[trigger] entries@[j]).0@,
                            value_model(*entries@[j].1),
                        ),
                    out@.len() == i,
                    forall|j: int|
                        0 <= j < i ==> ((#[trigger] out@[j]).0@, out@[j].1@) == model[j]
                            && well_formed(out@[j].1@),
                decreases entries.len() - i,
            {
                assert(model[i as int].1 == value_model(*entries@[i as int].1));
                assert(decreases_to!(value_model(*v)->Object_0 => model[i as int]));
                let value = lift(entries[i].1);
                out.push((entries[i].0.clone(), value));
                i = i + 1;
            }
            proof {
                lemma_object_view(out);
                assert(entries_model(out@) =~= model);
                assert forall|j: int|
                    0 <= j < model.len() && (#[trigger] model[j]).1 is Object implies unique_keys(
                    model[j].1->Object_0,
                ) by {
                    assert(well_formed(out@[j].1@));
                }
            }
            JsonValue::Object(out)
        },
    }
}

/// Carries a localization tree over into a value that can be written.
fn lower(tree: &LangTree) -> (r: Value)
    ensures
        value_model(r) == settled(tree@),
    decreases tree,
{
    match tree {
        LangTree::Text(s) => text_value(s.as_str()),
        LangTree::Object(entries) => {
            let ghost model = lang_entries_model(entries@);
            proof {
                lemma_lang_object_view(*entries);
            }
            let mut map = new_map();
            let mut i: usize = 0;
            assert(model.take(0) =~= Seq::empty());
            while i < entries.len()
                invariant
                    i <= entries.len(),
                    *tree == LangTree::Object(*entries),
                    model == lang_entries_model(entries@),
                    map_model(map) == settled_entries(model.take(i as int)),
                decreases entries.len() - i,
            {
                assert(decreases_to!(tree->Object_0 => entries@[i as int]));
                let value = lower(&entries[i].1);
                map_insert(&mut map, entries[i].0.clone(), value);
                proof {
                    let next = model.take(i + 1);
                    assert(next.drop_last() =~= model.take(i as int));
                    assert(next.last() == model[i as int]);
                    assert(model[i as int].1 == entries@[i as int].1@);
                }
                i = i + 1;
            }
            assert(model.take(i as int) =~= model);
            object_value(map)
        },
    }
}

/// Parses a JSON document.
pub fn parse_document(text: &str) -> (r: Result<JsonValue, TranslateError>)
    ensures
        match r {
            Ok(doc) => parsed_json(text@) == Some(doc@) && well_formed(doc@),
            Err(e) => parsed_json(text@).is_none() && e == TranslateError::InvalidInputDocument,
        },
{
    match parse_value(text) {
        Ok(v) => Ok(lift(&v)),
        Err(_) => Err(TranslateError::InvalidInputDocument),
    }
}

/// Writes a localization tree as compact JSON text: the text that the
/// writer gives for the tree as its maps hold it, which is the tree itself
/// where no object has a key twice. `None` when the writer refuses the
/// tree.
pub fn render(tree: &LangTree) -> (r: Option<String>)
    ensures
        match r {
            Some(s) => json_text(settled(tree@)) == Some(s@),
            None => json_text(settled(tree@)).is_none(),
        },
        well_formed(tree@) ==> match r {
            Some(s) => json_text(tree@) == Some(s@),
            None => json_text(tree@).is_none(),
        },
{
    let value = lower(tree);
    proof {
        lemma_lang_tree_shaped(*tree);
        if tree@ is Object {
            lemma_settled_lang(tree@->Object_0);
            if well_formed(tree@) {
                lemma_settled_unique(tree@->Object_0);
            }
        }
    }
    match render_value(&value) {
        Ok(s) => Some(s),
        Err(_) => None,
    }
}

} // verus!
