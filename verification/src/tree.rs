//! What a translation run does to a document, stated over the model: which
//! texts are sent, in which order, and which tree comes back.

use crate::json::{
    distinct_keys, entries_model, has_key, lang_entries, lang_entries_model, lang_shaped,
    lemma_lang_object_view, lemma_object_view, texts_model, unique_keys, well_formed, Json,
    JsonValue, LangTree,
};
use vstd::prelude::*;

verus! {

/// A text to translate and the keys that lead to it from the root.
pub struct LeafModel {
    pub key_path: Seq<Seq<char>>,
    pub text: Seq<char>,
}

/// The number of texts below `entries`: the values that are texts, and the
/// texts below the values that are objects. Arrays are not entered.
pub open spec fn leaf_count(entries: Seq<(Seq<char>, Json)>) -> nat
    decreases entries,
{
    if entries.len() == 0 {
        0
    } else {
        let before = leaf_count(entries.drop_last());
        match entries.last().1 {
            Json::Text(_) => before + 1,
            Json::Object(inner) => before + leaf_count(inner),
            _ => before,
        }
    }
}

/// The texts below `entries` in the order of the walk: entry by entry, an
/// object's texts before those of the entries after it. `prefix` holds the
/// keys that lead to `entries`.
pub open spec fn leaves_under(entries: Seq<(Seq<char>, Json)>, prefix: Seq<Seq<char>>) -> Seq<
    LeafModel,
>
    decreases entries,
{
    if entries.len() == 0 {
        Seq::empty()
    } else {
        let before = leaves_under(entries.drop_last(), prefix);
        let key = entries.last().0;
        match entries.last().1 {
            Json::Text(text) => before.push(LeafModel { key_path: prefix.push(key), text }),
            Json::Object(inner) => before + leaves_under(inner, prefix.push(key)),
            _ => before,
        }
    }
}

/// The texts of a document in the order of the walk. A document that is not
/// an object has none.
pub open spec fn document_leaves(doc: Json) -> Seq<LeafModel> {
    match doc {
        Json::Object(entries) => leaves_under(entries, Seq::empty()),
        _ => Seq::empty(),
    }
}

/// The entries of the translated object: each text replaced by the reply
/// with its number in the walk, counted from `start`; each object
/// translated in turn; every other value left out.
pub open spec fn translated_entries(
    entries: Seq<(Seq<char>, Json)>,
    replies: Seq<Seq<char>>,
    start: int,
) -> Seq<(Seq<char>, Json)>
    decreases entries,
{
    if entries.len() == 0 {
        Seq::empty()
    } else {
        let before = translated_entries(entries.drop_last(), replies, start);
        let offset = start + leaf_count(entries.drop_last());
        let key = entries.last().0;
        match entries.last().1 {
            Json::Text(_) => before.push((key, Json::Text(replies[offset]))),
            Json::Object(inner) => before.push(
                (key, Json::Object(translated_entries(inner, replies, offset))),
            ),
            _ => before,
        }
    }
}

/// The translation of a document, given the replies in the order of the
/// walk. A document that is not an object gives the empty object.
pub open spec fn translated(doc: Json, replies: Seq<Seq<char>>) -> Json {
    match doc {
        Json::Object(entries) => Json::Object(translated_entries(entries, replies, 0)),
        _ => Json::Object(Seq::empty()),
    }
}

/// `entries` without the values that are neither text nor object, at every
/// depth.
pub open spec fn pruned_entries(entries: Seq<(Seq<char>, Json)>) -> Seq<(Seq<char>, Json)>
    decreases entries,
{
    if entries.len() == 0 {
        Seq::empty()
    } else {
        let before = pruned_entries(entries.drop_last());
        let key = entries.last().0;
        match entries.last().1 {
            Json::Text(text) => before.push((key, Json::Text(text))),
            Json::Object(inner) => before.push((key, Json::Object(pruned_entries(inner)))),
            _ => before,
        }
    }
}

/// The part of a document that a translation run keeps.
pub open spec fn pruned(doc: Json) -> Json {
    match doc {
        Json::Object(entries) => Json::Object(pruned_entries(entries)),
        _ => Json::Object(Seq::empty()),
    }
}

/// Two localization trees differ in their texts at most: both are texts, or
/// both are objects with the same keys in the same order over values that
/// differ in their texts at most.
pub open spec fn same_shape(a: Json, b: Json) -> bool
    decreases a,
{
    match a {
        Json::Text(_) => b is Text,
        Json::Object(x) => b is Object && x.len() == b->Object_0.len() && forall|i: int|
            0 <= i < x.len() ==> (#[trigger] x[i]).0 == b->Object_0[i].0 && same_shape(
                x[i].1,
                b->Object_0[i].1,
            ),
        _ => false,
    }
}

/// Following the keys of `path` from `doc`, one object after another, leads
/// to a value.
pub open spec fn has_path(doc: Json, path: Seq<Seq<char>>) -> bool
    decreases path.len(),
{
    if path.len() == 0 {
        true
    } else {
        match doc {
            Json::Object(entries) => exists|i: int|
                0 <= i < entries.len() && (#[trigger] entries[i]).0 == path[0] && has_path(
                    entries[i].1,
                    path.drop_first(),
                ),
            _ => false,
        }
    }
}

/// The key paths of a document.
pub open spec fn key_paths(doc: Json) -> Set<Seq<Seq<char>>> {
    Set::new(|path: Seq<Seq<char>>| has_path(doc, path))
}

/// `leaves` with the text of each replaced by the reply with its number,
/// counted from `start`.
pub open spec fn relabelled(leaves: Seq<LeafModel>, replies: Seq<Seq<char>>, start: int) -> Seq<
    LeafModel,
> {
    Seq::new(
        leaves.len(),
        |i: int| LeafModel { key_path: leaves[i].key_path, text: replies[start + i] },
    )
}

/// The walk visits as many texts as `leaf_count` counts.
pub proof fn lemma_leaves_len(entries: Seq<(Seq<char>, Json)>, prefix: Seq<Seq<char>>)
    ensures
        leaves_under(entries, prefix).len() == leaf_count(entries),
    decreases entries,
{
    if entries.len() > 0 {
        lemma_leaves_len(entries.drop_last(), prefix);
        match entries.last().1 {
            Json::Object(inner) => {
                lemma_leaves_len(inner, prefix.push(entries.last().0));
            },
            _ => {},
        }
    }
}

/// The first `n` entries hold no more texts than all of them.
pub proof fn lemma_leaf_count_prefix(entries: Seq<(Seq<char>, Json)>, n: int)
    requires
        0 <= n <= entries.len(),
    ensures
        leaf_count(entries.take(n)) <= leaf_count(entries),
    decreases entries.len(),
{
    if n == entries.len() {
        assert(entries.take(n) =~= entries);
    } else {
        lemma_leaf_count_prefix(entries.drop_last(), n);
        assert(entries.drop_last().take(n) =~= entries.take(n));
    }
}

/// The first `n + 1` entries are the first `n` and the entry at `n`.
pub proof fn lemma_take_next<A>(s: Seq<A>, n: int)
    requires
        0 <= n < s.len(),
    ensures
        s.take(n + 1).drop_last() == s.take(n),
        s.take(n + 1).last() == s[n],
        s.take(n + 1).len() == n + 1,
{
    assert(s.take(n + 1).drop_last() =~= s.take(n));
}

proof fn lemma_push_parts<A>(s: Seq<A>, x: A)
    ensures
        s.push(x).drop_last() == s,
        s.push(x).last() == x,
        s.push(x).len() == s.len() + 1,
{
    assert(s.push(x).drop_last() =~= s);
}

/// A translation has the shape of what it keeps of the document: the same
/// keys in the same order at every depth, texts where texts were.
pub proof fn lemma_translated_shape(
    entries: Seq<(Seq<char>, Json)>,
    replies: Seq<Seq<char>>,
    start: int,
)
    ensures
        same_shape(
            Json::Object(translated_entries(entries, replies, start)),
            Json::Object(pruned_entries(entries)),
        ),
    decreases entries,
{
    if entries.len() > 0 {
        let init = entries.drop_last();
        let t0 = translated_entries(init, replies, start);
        let p0 = pruned_entries(init);
        lemma_translated_shape(init, replies, start);
        let offset = start + leaf_count(init);
        let key = entries.last().0;
        let t = translated_entries(entries, replies, start);
        let p = pruned_entries(entries);
        match entries.last().1 {
            Json::Text(text) => {
                assert forall|i: int| 0 <= i < t.len() implies (#[trigger] t[i]).0 == p[i].0
                    && same_shape(t[i].1, p[i].1) by {
                    if i < t0.len() {
                        assert(t[i] == t0[i]);
                        assert(p[i] == p0[i]);
                    }
                }
            },
            Json::Object(inner) => {
                lemma_translated_shape(inner, replies, offset);
                assert forall|i: int| 0 <= i < t.len() implies (#[trigger] t[i]).0 == p[i].0
                    && same_shape(t[i].1, p[i].1) by {
                    if i < t0.len() {
                        assert(t[i] == t0[i]);
                        assert(p[i] == p0[i]);
                    }
                }
            },
            _ => {},
        }
    }
}

/// Trees of one shape have the same key paths.
pub proof fn lemma_same_shape_paths(a: Json, b: Json, path: Seq<Seq<char>>)
    requires
        same_shape(a, b),
    ensures
        has_path(a, path) == has_path(b, path),
    decreases path.len(),
{
    if path.len() > 0 {
        match a {
            Json::Object(x) => {
                let y = b->Object_0;
                let rest = path.drop_first();
                if has_path(a, path) {
                    let i = choose|i: int|
                        0 <= i < x.len() && (#[trigger] x[i]).0 == path[0] && has_path(
                            x[i].1,
                            rest,
                        );
                    lemma_same_shape_paths(x[i].1, y[i].1, rest);
                    assert(y[i].0 == path[0] && has_path(y[i].1, rest));
                }
                if has_path(b, path) {
                    let i = choose|i: int|
                        0 <= i < y.len() && (#[trigger] y[i]).0 == path[0] && has_path(
                            y[i].1,
                            rest,
                        );
                    assert(x[i].0 == y[i].0);
                    lemma_same_shape_paths(x[i].1, y[i].1, rest);
                    assert(x[i].0 == path[0] && has_path(x[i].1, rest));
                }
            },
            _ => {},
        }
    }
}

/// Pruning leaves a list of localization trees as it is.
pub proof fn lemma_pruned_lang_entries(entries: Seq<(Seq<char>, Json)>)
    requires
        lang_entries(entries),
    ensures
        pruned_entries(entries) == entries,
    decreases entries,
{
    if entries.len() > 0 {
        let init = entries.drop_last();
        assert forall|i: int| 0 <= i < init.len() implies {
            let value = (#[trigger] init[i]).1;
            value is Text || (value is Object && lang_entries(value->Object_0))
        } by {
            assert(init[i] == entries[i]);
        }
        lemma_pruned_lang_entries(init);
        let last = entries[entries.len() - 1];
        match last.1 {
            Json::Object(inner) => {
                lemma_pruned_lang_entries(inner);
            },
            _ => {},
        }
        assert(init.push(last) =~= entries);
    } else {
        assert(entries =~= Seq::empty());
    }
}

/// Whatever the document and the replies, the translation has the key paths
/// of what the document holds in texts and objects, and no others: values of
/// any other kind are left out with everything below them.
pub proof fn lemma_translation_keeps_texts_and_objects(doc: Json, replies: Seq<Seq<char>>)
    ensures
        same_shape(translated(doc, replies), pruned(doc)),
        key_paths(translated(doc, replies)) == key_paths(pruned(doc)),
        lang_shaped(translated(doc, replies)),
{
    match doc {
        Json::Object(entries) => {
            lemma_translated_shape(entries, replies, 0);
            lemma_translated_lang_shaped(entries, replies, 0);
        },
        _ => {},
    }
    let t = translated(doc, replies);
    let p = pruned(doc);
    assert forall|path: Seq<Seq<char>>| has_path(t, path) == has_path(p, path) by {
        lemma_same_shape_paths(t, p, path);
    }
    assert(key_paths(t) =~= key_paths(p));
}

/// The translation of a document of objects and texts alone has exactly the
/// key paths of the document, and differs from it in its texts at most.
pub proof fn lemma_shape_preserved(doc: Json, replies: Seq<Seq<char>>)
    requires
        doc is Object,
        lang_shaped(doc),
    ensures
        same_shape(translated(doc, replies), doc),
        key_paths(translated(doc, replies)) == key_paths(doc),
{
    lemma_translation_keeps_texts_and_objects(doc, replies);
    lemma_pruned_lang_entries(doc->Object_0);
}

/// A translation is a localization tree.
pub proof fn lemma_translated_lang_shaped(
    entries: Seq<(Seq<char>, Json)>,
    replies: Seq<Seq<char>>,
    start: int,
)
    ensures
        lang_entries(translated_entries(entries, replies, start)),
    decreases entries,
{
    if entries.len() > 0 {
        let init = entries.drop_last();
        let t0 = translated_entries(init, replies, start);
        let t = translated_entries(entries, replies, start);
        lemma_translated_lang_shaped(init, replies, start);
        match entries.last().1 {
            Json::Object(inner) => {
                lemma_translated_lang_shaped(inner, replies, start + leaf_count(init));
            },
            _ => {},
        }
        assert forall|i: int| 0 <= i < t.len() implies {
            let value = (#[trigger] t[i]).1;
            value is Text || (value is Object && lang_entries(value->Object_0))
        } by {
            if i < t0.len() {
                assert(t[i] == t0[i]);
            }
        }
    }
}

/// Every key of a translation is a key of the document's object.
pub proof fn lemma_translated_keys(
    entries: Seq<(Seq<char>, Json)>,
    replies: Seq<Seq<char>>,
    start: int,
)
    ensures
        forall|j: int|
            0 <= j < translated_entries(entries, replies, start).len() ==> has_key(
                entries,
                (#[trigger] translated_entries(entries, replies, start)[j]).0,
            ),
    decreases entries,
{
    if entries.len() > 0 {
        let init = entries.drop_last();
        let t0 = translated_entries(init, replies, start);
        let t = translated_entries(entries, replies, start);
        lemma_translated_keys(init, replies, start);
        assert forall|j: int| 0 <= j < t.len() implies has_key(entries, (#[trigger] t[j]).0) by {
            if j < t0.len() {
                assert(t[j] == t0[j]);
                assert(has_key(init, t0[j].0));
                let i = choose|i: int| 0 <= i < init.len() && (#[trigger] init[i]).0 == t0[j].0;
                assert(entries[i] == init[i]);
            } else {
                assert(entries[entries.len() - 1].0 == t[j].0);
            }
        }
    }
}

/// Where no object of the document has a key twice, none of the translation
/// has.
pub proof fn lemma_translated_unique_keys(
    entries: Seq<(Seq<char>, Json)>,
    replies: Seq<Seq<char>>,
    start: int,
)
    requires
        unique_keys(entries),
    ensures
        unique_keys(translated_entries(entries, replies, start)),
    decreases entries,
{
    let t = translated_entries(entries, replies, start);
    if entries.len() > 0 {
        let init = entries.drop_last();
        let t0 = translated_entries(init, replies, start);
        let last = entries[entries.len() - 1];
        assert(unique_keys(init)) by {
            assert forall|i: int, j: int| 0 <= i < j < init.len() implies init[i].0
                != init[j].0 by {
                assert(init[i] == entries[i] && init[j] == entries[j]);
            }
            assert forall|i: int|
                0 <= i < init.len() && (#[trigger] init[i]).1 is Object implies unique_keys(
                init[i].1->Object_0,
            ) by {
                assert(init[i] == entries[i]);
            }
        }
        lemma_translated_unique_keys(init, replies, start);
        lemma_translated_keys(init, replies, start);
        match last.1 {
            Json::Object(inner) => {
                lemma_translated_unique_keys(inner, replies, start + leaf_count(init));
            },
            _ => {},
        }
        assert forall|i: int| 0 <= i < t.len() && (#[trigger] t[i]).1 is Object implies unique_keys(
            t[i].1->Object_0,
        ) by {
            if i < t0.len() {
                assert(t[i] == t0[i]);
            }
        }
        assert forall|i: int, j: int| 0 <= i < j < t.len() implies t[i].0 != t[j].0 by {
            assert(t[i] == t0[i]);
            if j < t0.len() {
                assert(t[j] == t0[j]);
            } else {
                assert(t[j].0 == last.0);
                assert(has_key(init, t0[i].0));
                let k = choose|k: int| 0 <= k < init.len() && (#[trigger] init[k]).0 == t0[i].0;
                assert(init[k] == entries[k]);
            }
        }
    }
}

proof fn lemma_relabelled_concat(
    a: Seq<LeafModel>,
    b: Seq<LeafModel>,
    replies: Seq<Seq<char>>,
    start: int,
)
    ensures
        relabelled(a + b, replies, start) == relabelled(a, replies, start) + relabelled(
            b,
            replies,
            start + a.len(),
        ),
{
    assert(relabelled(a + b, replies, start) =~= relabelled(a, replies, start) + relabelled(
        b,
        replies,
        start + a.len(),
    ));
}

/// The texts of a translation lie where the texts of the document lay, in
/// the same order, and each is the reply with its number in the walk.
pub proof fn lemma_translated_leaves(
    entries: Seq<(Seq<char>, Json)>,
    replies: Seq<Seq<char>>,
    start: int,
    prefix: Seq<Seq<char>>,
)
    ensures
        leaves_under(translated_entries(entries, replies, start), prefix) == relabelled(
            leaves_under(entries, prefix),
            replies,
            start,
        ),
    decreases entries,
{
    let t = translated_entries(entries, replies, start);
    if entries.len() > 0 {
        let init = entries.drop_last();
        let t0 = translated_entries(init, replies, start);
        let l0 = leaves_under(init, prefix);
        let offset = start + leaf_count(init);
        let key = entries.last().0;
        lemma_translated_leaves(init, replies, start, prefix);
        lemma_leaves_len(init, prefix);
        match entries.last().1 {
            Json::Text(text) => {
                let new = (key, Json::Text(replies[offset]));
                lemma_push_parts(t0, new);
                let leaf = LeafModel { key_path: prefix.push(key), text };
                assert(l0.push(leaf) =~= l0 + seq![leaf]);
                lemma_relabelled_concat(l0, seq![leaf], replies, start);
                assert(relabelled(seq![leaf], replies, offset) =~= seq![
                    LeafModel { key_path: prefix.push(key), text: replies[offset] },
                ]);
                assert(leaves_under(t, prefix) =~= relabelled(
                    leaves_under(entries, prefix),
                    replies,
                    start,
                ));
            },
            Json::Object(inner) => {
                let sub = translated_entries(inner, replies, offset);
                lemma_push_parts(t0, (key, Json::Object(sub)));
                lemma_translated_leaves(inner, replies, offset, prefix.push(key));
                lemma_relabelled_concat(
                    l0,
                    leaves_under(inner, prefix.push(key)),
                    replies,
                    start,
                );
            },
            _ => {},
        }
    } else {
        assert(relabelled(Seq::<LeafModel>::empty(), replies, start) =~= Seq::empty());
    }
}

/// A text to translate and the keys that lead to it from the root.
#[derive(Debug, PartialEq, Eq)]
pub struct Leaf {
    pub key_path: Vec<String>,
    pub text: String,
}

impl View for Leaf {
    type V = LeafModel;

    open spec fn view(&self) -> LeafModel {
        LeafModel { key_path: texts_model(self.key_path@), text: self.text@ }
    }
}

/// The model of a list of leaves.
pub open spec fn leaves_model(leaves: Seq<Leaf>) -> Seq<LeafModel> {
    Seq::new(leaves.len(), |i: int| leaves[i]@)
}

/// Copies a key path.
pub fn copy_path(path: &Vec<String>) -> (r: Vec<String>)
    ensures
        texts_model(r@) == texts_model(path@),
{
    let mut r: Vec<String> = Vec::new();
    let mut i: usize = 0;
    while i < path.len()
        invariant
            i <= path.len(),
            r@.len() == i,
            forall|j: int| 0 <= j < i ==> (#[trigger] r@[j])@ == path@[j]@,
        decreases path.len() - i,
    {
        r.push(path[i].clone());
        i = i + 1;
    }
    assert(texts_model(r@) =~= texts_model(path@));
    r
}

fn extended_path(prefix: &Vec<String>, key: &String) -> (r: Vec<String>)
    ensures
        texts_model(r@) == texts_model(prefix@).push(key@),
{
    let mut r = copy_path(prefix);
    r.push(key.clone());
    assert(texts_model(r@) =~= texts_model(prefix@).push(key@));
    r
}

fn collect_under(entries: &Vec<(String, JsonValue)>, prefix: &Vec<String>, out: &mut Vec<Leaf>)
    ensures
        leaves_model(final(out)@) == leaves_model(old(out)@) + leaves_under(
            entries_model(entries@),
            texts_model(prefix@),
        ),
    decreases entries,
{
    let ghost before = leaves_model(out@);
    let ghost model = entries_model(entries@);
    let ghost path = texts_model(prefix@);
    let mut i: usize = 0;
    assert(leaves_model(out@) =~= before + leaves_under(model.take(0), path));
    while i < entries.len()
        invariant
            i <= entries.len(),
            model == entries_model(entries@),
            path == texts_model(prefix@),
            leaves_model(out@) == before + leaves_under(model.take(i as int), path),
        decreases entries.len() - i,
    {
        proof {
            lemma_take_next(model, i as int);
        }
        let ghost seen = leaves_under(model.take(i as int), path);
        let key = &entries[i].0;
        match &entries[i].1 {
            JsonValue::Text(text) => {
                let leaf = Leaf { key_path: extended_path(prefix, key), text: text.clone() };
                let ghost found = leaves_model(out@);
                out.push(leaf);
                assert(leaves_model(out@) =~= found.push(leaf@));
                assert(found.push(leaf@) =~= before + seen.push(leaf@));
            },
            JsonValue::Object(inner) => {
                let below = extended_path(prefix, key);
                proof {
                    lemma_object_view(*inner);
                }
                collect_under(inner, &below, out);
                assert(leaves_model(out@) =~= before + (seen + leaves_under(
                    entries_model(inner@),
                    path.push(key@),
                )));
            },
            _ => {},
        }
        i = i + 1;
    }
    assert(model.take(i as int) =~= model);
}

/// Lists the texts of a document in the order in which a run translates
/// them, each with its key path.
pub fn collect_leaves(doc: &JsonValue) -> (leaves: Vec<Leaf>)
    ensures
        leaves_model(leaves@) == document_leaves(doc@),
{
    let mut leaves: Vec<Leaf> = Vec::new();
    match doc {
        JsonValue::Object(entries) => {
            let prefix: Vec<String> = Vec::new();
            proof {
                lemma_object_view(*entries);
            }
            assert(texts_model(prefix@) =~= Seq::empty());
            assert(leaves_model(leaves@) =~= Seq::empty());
            collect_under(entries, &prefix, &mut leaves);
            assert(leaves_model(leaves@) =~= leaves_under(
                entries_model(entries@),
                Seq::empty(),
            ));
        },
        _ => {
            assert(leaves_model(leaves@) =~= Seq::empty());
        },
    }
    leaves
}

fn rebuild_under(entries: &Vec<(String, JsonValue)>, replies: &Vec<String>, start: usize) -> (r:
    Option<(Vec<(String, LangTree)>, usize)>)
    requires
        start <= replies.len(),
    ensures
        match r {
            Some((out, next)) => {
                &&& next == start + leaf_count(entries_model(entries@))
                &&& next <= replies.len()
                &&& lang_entries_model(out@) == translated_entries(
                    entries_model(entries@),
                    texts_model(replies@),
                    start as int,
                )
            },
            None => start + leaf_count(entries_model(entries@)) > replies.len(),
        },
    decreases entries,
{
    let ghost model = entries_model(entries@);
    let ghost answers = texts_model(replies@);
    let mut out: Vec<(String, LangTree)> = Vec::new();
    let mut next: usize = start;
    let mut i: usize = 0;
    assert(lang_entries_model(out@) =~= translated_entries(model.take(0), answers, start as int));
    while i < entries.len()
        invariant
            i <= entries.len(),
            model == entries_model(entries@),
            answers == texts_model(replies@),
            next == start + leaf_count(model.take(i as int)),
            next <= replies.len(),
            lang_entries_model(out@) == translated_entries(
                model.take(i as int),
                answers,
                start as int,
            ),
        decreases entries.len() - i,
    {
        proof {
            lemma_take_next(model, i as int);
            lemma_leaf_count_prefix(model, i + 1);
        }
        let ghost done = translated_entries(model.take(i as int), answers, start as int);
        let key = &entries[i].0;
        match &entries[i].1 {
            JsonValue::Text(_) => {
                if next >= replies.len() {
                    return None;
                }
                let entry = (key.clone(), LangTree::Text(replies[next].clone()));
                out.push(entry);
                assert(lang_entries_model(out@) =~= done.push(
                    (key@, Json::Text(answers[next as int])),
                ));
                next = next + 1;
            },
            JsonValue::Object(inner) => {
                proof {
                    lemma_object_view(*inner);
                }
                match rebuild_under(inner, replies, next) {
                    Some((below, after)) => {
                        proof {
                            lemma_lang_object_view(below);
                        }
                        let entry = (key.clone(), LangTree::Object(below));
                        out.push(entry);
                        assert(lang_entries_model(out@) =~= done.push(
                            (
                                key@,
                                Json::Object(
                                    translated_entries(
                                        entries_model(inner@),
                                        answers,
                                        next as int,
                                    ),
                                ),
                            ),
                        ));
                        next = after;
                    },
                    None => {
                        return None;
                    },
                }
            },
            _ => {},
        }
        i = i + 1;
    }
    assert(model.take(i as int) =~= model);
    Some((out, next))
}

/// Builds the translated tree of a document from the replies to its texts,
/// given in the order of `collect_leaves`. Texts are replaced, objects are
/// rebuilt entry by entry under their keys, and values of any other kind are
/// left out. There must be exactly one reply for each text.
pub fn build_translation_map(doc: &JsonValue, replies: &Vec<String>) -> (r: Option<LangTree>)
    ensures
        r is Some <==> replies@.len() == document_leaves(doc@).len(),
        r matches Some(tree) ==> {
            &&& tree@ == translated(doc@, texts_model(replies@))
            &&& same_shape(tree@, pruned(doc@))
            &&& key_paths(tree@) == key_paths(pruned(doc@))
            &&& doc@ is Object && lang_shaped(doc@) ==> same_shape(tree@, doc@) && key_paths(tree@)
                == key_paths(doc@)
            &&& well_formed(doc@) ==> well_formed(tree@)
        },
{
    proof {
        let answers = texts_model(replies@);
        lemma_translation_keeps_texts_and_objects(doc@, answers);
        if doc@ is Object {
            if lang_shaped(doc@) {
                lemma_shape_preserved(doc@, answers);
            }
            if well_formed(doc@) {
                lemma_translated_unique_keys(doc@->Object_0, answers, 0);
            }
        }
    }
    match doc {
        JsonValue::Object(entries) => {
            proof {
                lemma_object_view(*entries);
                lemma_leaves_len(entries_model(entries@), Seq::empty());
            }
            match rebuild_under(entries, replies, 0) {
                Some((out, next)) => {
                    if next == replies.len() {
                        proof {
                            lemma_lang_object_view(out);
                        }
                        Some(LangTree::Object(out))
                    } else {
                        None
                    }
                },
                None => None,
            }
        },
        _ => {
            if replies.len() == 0 {
                let out: Vec<(String, LangTree)> = Vec::new();
                proof {
                    lemma_lang_object_view(out);
                }
                assert(lang_entries_model(out@) =~= Seq::empty());
                Some(LangTree::Object(out))
            } else {
                None
            }
        },
    }
}

} // verus!
