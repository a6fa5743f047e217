//! JSON documents and localization trees, with their mathematical model.

use vstd::prelude::*;

verus! {

/// The mathematical model of a JSON document. An object is the sequence of
/// its entries, in the order in which the document lists them. A number is
/// known only to be one: nothing here reads its value.
pub enum Json {
    Null,
    Bool(bool),
    Number,
    Text(Seq<char>),
    Array(Seq<Json>),
    Object(Seq<(Seq<char>, Json)>),
}

/// A JSON document.
#[derive(Debug, PartialEq, Eq)]
pub enum JsonValue {
    Null,
    Bool(bool),
    Number,
    Text(String),
    Array(Vec<JsonValue>),
    Object(Vec<(String, JsonValue)>),
}

/// A localization tree: a text, or an object whose entries are localization
/// trees.
#[derive(Debug, PartialEq, Eq)]
pub enum LangTree {
    Text(String),
    Object(Vec<(String, LangTree)>),
}

/// The model of a document.
pub open spec fn json_model(doc: JsonValue) -> Json
    decreases doc,
{
    match doc {
        JsonValue::Null => Json::Null,
        JsonValue::Bool(b) => Json::Bool(b),
        JsonValue::Number => Json::Number,
        JsonValue::Text(s) => Json::Text(s@),
        JsonValue::Array(items) => Json::Array(
            Seq::new(
                items@.len(),
                |i: int|
                    if 0 <= i < items@.len() {
                        json_model(items@[i])
                    } else {
                        Json::Null
                    },
            ),
        ),
        JsonValue::Object(entries) => Json::Object(
            Seq::new(
                entries@.len(),
                |i: int|
                    if 0 <= i < entries@.len() {
                        (entries@[i].0@, json_model(entries@[i].1))
                    } else {
                        (Seq::<char>::empty(), Json::Null)
                    },
            ),
        ),
    }
}

/// The model of a localization tree.
pub open spec fn lang_model(tree: LangTree) -> Json
    decreases tree,
{
    match tree {
        LangTree::Text(s) => Json::Text(s@),
        LangTree::Object(entries) => Json::Object(
            Seq::new(
                entries@.len(),
                |i: int|
                    if 0 <= i < entries@.len() {
                        (entries@[i].0@, lang_model(entries@[i].1))
                    } else {
                        (Seq::<char>::empty(), Json::Null)
                    },
            ),
        ),
    }
}

impl View for JsonValue {
    type V = Json;

    open spec fn view(&self) -> Json {
        json_model(*self)
    }
}

impl View for LangTree {
    type V = Json;

    open spec fn view(&self) -> Json {
        lang_model(*self)
    }
}

/// The model of a list of texts.
pub open spec fn texts_model(texts: Seq<String>) -> Seq<Seq<char>> {
    Seq::new(texts.len(), |i: int| texts[i]@)
}

/// The model of a list of documents.
pub open spec fn items_model(items: Seq<JsonValue>) -> Seq<Json> {
    Seq::new(items.len(), |i: int| items[i]@)
}

/// The model of an object's entries.
pub open spec fn entries_model(entries: Seq<(String, JsonValue)>) -> Seq<(Seq<char>, Json)> {
    Seq::new(entries.len(), |i: int| (entries[i].0@, entries[i].1@))
}

/// The model of the entries of a localization tree's object.
pub open spec fn lang_entries_model(entries: Seq<(String, LangTree)>) -> Seq<(Seq<char>, Json)> {
    Seq::new(entries.len(), |i: int| (entries[i].0@, entries[i].1@))
}

/// An array is modelled by the models of its items.
pub proof fn lemma_array_view(items: Vec<JsonValue>)
    ensures
        JsonValue::Array(items)@ == Json::Array(items_model(items@)),
{
    assert(JsonValue::Array(items)@->Array_0 =~= items_model(items@));
}

/// An object is modelled by the models of its entries.
pub proof fn lemma_object_view(entries: Vec<(String, JsonValue)>)
    ensures
        JsonValue::Object(entries)@ == Json::Object(entries_model(entries@)),
{
    assert(JsonValue::Object(entries)@->Object_0 =~= entries_model(entries@));
}

/// The object of a localization tree is modelled by the models of its
/// entries.
pub proof fn lemma_lang_object_view(entries: Vec<(String, LangTree)>)
    ensures
        LangTree::Object(entries)@ == Json::Object(lang_entries_model(entries@)),
{
    assert(LangTree::Object(entries)@->Object_0 =~= lang_entries_model(entries@));
}

/// No key occurs twice among `entries`.
pub open spec fn distinct_keys(entries: Seq<(Seq<char>, Json)>) -> bool {
    forall|i: int, j: int| 0 <= i < j < entries.len() ==> entries[i].0 != entries[j].0
}

/// `key` is among the keys of `entries`.
pub open spec fn has_key(entries: Seq<(Seq<char>, Json)>, key: Seq<char>) -> bool {
    exists|i: int| 0 <= i < entries.len() && (#[trigger] entries[i]).0 == key
}

/// No object has a key twice: not the one that `entries` make up, nor any
/// that is reached from it through objects.
pub open spec fn unique_keys(entries: Seq<(Seq<char>, Json)>) -> bool
    decreases entries,
{
    &&& distinct_keys(entries)
    &&& forall|i: int|
        0 <= i < entries.len() && (#[trigger] entries[i]).1 is Object ==> unique_keys(
            entries[i].1->Object_0,
        )
}

/// Every object that is reached from `doc` through objects has distinct
/// keys.
pub open spec fn well_formed(doc: Json) -> bool {
    doc is Object ==> unique_keys(doc->Object_0)
}

/// Every value of `entries` is a text or an object of such entries.
pub open spec fn lang_entries(entries: Seq<(Seq<char>, Json)>) -> bool
    decreases entries,
{
    forall|i: int|
        0 <= i < entries.len() ==> {
            let value = (#[trigger] entries[i]).1;
            value is Text || (value is Object && lang_entries(value->Object_0))
        }
}

/// `doc` is a localization tree: a text, or an object whose values are
/// localization trees.
pub open spec fn lang_shaped(doc: Json) -> bool {
    doc is Text || (doc is Object && lang_entries(doc->Object_0))
}

/// The value of the first entry of `entries` under `key`.
pub open spec fn find_key(entries: Seq<(Seq<char>, Json)>, key: Seq<char>) -> Option<Json>
    decreases entries.len(),
{
    if entries.len() == 0 {
        None
    } else if entries[0].0 == key {
        Some(entries[0].1)
    } else {
        find_key(entries.drop_first(), key)
    }
}

/// Every localization tree is modelled by a document of that shape.
pub proof fn lemma_lang_tree_shaped(tree: LangTree)
    ensures
        lang_shaped(tree@),
    decreases tree,
{
    match tree {
        LangTree::Text(_) => {},
        LangTree::Object(entries) => {
            let model = tree@->Object_0;
            assert forall|i: int| 0 <= i < model.len() implies {
                let value = (#[trigger] model[i]).1;
                value is Text || (value is Object && lang_entries(value->Object_0))
            } by {
                lemma_lang_tree_shaped(entries@[i].1);
            }
        },
    }
}

impl JsonValue {
    /// Looks up `key` among the entries of an object; any other document has
    /// no entry.
    pub fn get(&self, key: &str) -> (r: Option<&JsonValue>)
        ensures
            match self@ {
                Json::Object(entries) => match r {
                    Some(v) => find_key(entries, key@) == Some(v@),
                    None => find_key(entries, key@).is_none(),
                },
                _ => r.is_none(),
            },
    {
        match self {
            JsonValue::Object(entries) => {
                proof {
                    lemma_object_view(*entries);
                }
                let ghost model = entries_model(entries@);
                let wanted = String::from_str(key);
                let mut i: usize = 0;
                assert(model.skip(0) =~= model);
                while i < entries.len()
                    invariant
                        i <= entries.len(),
                        self@ == Json::Object(model),
                        model == entries_model(entries@),
                        wanted@ == key@,
                        find_key(model, key@) == find_key(model.skip(i as int), key@),
                    decreases entries.len() - i,
                {
                    let ghost rest = model.skip(i as int);
                    assert(rest[0] == model[i as int]);
                    assert(rest.drop_first() =~= model.skip(i + 1));
                    if entries[i].0 == wanted {
                        return Some(&entries[i].1);
                    }
                    i = i + 1;
                }
                assert(model.skip(i as int).len() == 0);
                None
            },
            _ => None,
        }
    }
}

} // verus!
