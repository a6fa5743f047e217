//! A translation run, step by step. The run owns the document and the
//! translations received so far; whoever drives it sends the requests it
//! asks for, one at a time, and reports what came back.

use crate::error::{is_service_failure, TranslateError};
use crate::json::{lang_shaped, texts_model, well_formed, Json, JsonValue, LangTree};
use crate::request::{
    is_hyphenated_uuid, prepare_request, request_for, ClientConfig, TranslationRequest,
};
use crate::response::{read_translation, reply_translation};
use crate::tree::{
    build_translation_map, collect_leaves, copy_path, document_leaves, key_paths, leaves_model,
    pruned, same_shape, translated, Leaf, LeafModel,
};
use vstd::pervasive::unreached;
use vstd::prelude::*;

verus! {

/// What the driver of a run reports.
#[derive(Debug, PartialEq, Eq)]
pub enum Event {
    /// Nothing was asked for yet.
    Start,
    /// The service replied to the last request with this body.
    Reply(String),
    /// The last request did not get through; the text says why.
    Undelivered(String),
}

/// What a run asks its driver to do next.
#[derive(Debug, PartialEq, Eq)]
pub enum Action {
    /// Wait for `delay_ms` milliseconds, then send `request`, and report
    /// what came back.
    Send { delay_ms: u64, request: TranslationRequest },
    /// The run is over: this is the translated tree.
    Finish(LangTree),
    /// The run is over: it failed.
    Abort(TranslateError),
}

/// A translation run over one document.
pub struct TreeWalk {
    source: JsonValue,
    target_lang: String,
    leaves: Vec<Leaf>,
    replies: Vec<String>,
}

/// The translation that an event brings.
pub open spec fn event_translation(event: Event) -> Option<Seq<char>> {
    match event {
        Event::Reply(body) => reply_translation(body@),
        _ => None,
    }
}

/// What came back, as the event reports it.
pub open spec fn event_raw(event: Event) -> Option<Seq<char>> {
    match event {
        Event::Start => None,
        Event::Reply(body) => Some(body@),
        Event::Undelivered(detail) => Some(detail@),
    }
}

impl TreeWalk {
    #[verifier::type_invariant]
    spec fn inv(&self) -> bool {
        &&& leaves_model(self.leaves@) == document_leaves(self.source@)
        &&& self.replies@.len() <= self.leaves@.len()
    }

    /// The document that is translated.
    pub closed spec fn source(&self) -> Json {
        self.source@
    }

    /// The language that it is translated to.
    pub closed spec fn target(&self) -> Seq<char> {
        self.target_lang@
    }

    /// The translations received so far, in the order of the walk.
    pub closed spec fn replies(&self) -> Seq<Seq<char>> {
        texts_model(self.replies@)
    }

    /// The text that is to be translated next: the first of the document's
    /// texts, in the order of the walk, that has no translation yet.
    pub open spec fn pending_leaf(&self) -> Option<LeafModel> {
        let leaves = document_leaves(self.source());
        if self.replies().len() < leaves.len() {
            Some(leaves[self.replies().len() as int])
        } else {
            None
        }
    }

    /// Begins a run over `source`, with nothing translated.
    pub fn start(source: JsonValue, target_lang: &str) -> (walk: TreeWalk)
        ensures
            walk.source() == source@,
            walk.target() == target_lang@,
            walk.replies() == Seq::<Seq<char>>::empty(),
    {
        let leaves = collect_leaves(&source);
        let replies: Vec<String> = Vec::new();
        assert(texts_model(replies@) =~= Seq::empty());
        TreeWalk { source, target_lang: String::from_str(target_lang), leaves, replies }
    }

    /// How far the run is: the number of texts translated, and the number
    /// of texts in the document. The first never exceeds the second.
    pub fn progress(&self) -> (r: (usize, usize))
        ensures
            r.0 == self.replies().len(),
            r.1 == document_leaves(self.source()).len(),
            r.0 <= r.1,
    {
        proof {
            use_type_invariant(self);
        }
        (self.replies.len(), self.leaves.len())
    }

    /// The text that is to be translated next, if any is left.
    pub fn pending(&self) -> (r: Option<&Leaf>)
        ensures
            match r {
                Some(leaf) => self.pending_leaf() == Some(leaf@),
                None => self.pending_leaf().is_none(),
            },
    {
        proof {
            use_type_invariant(self);
        }
        if self.replies.len() < self.leaves.len() {
            let leaf = &self.leaves[self.replies.len()];
            assert(leaves_model(self.leaves@)[self.replies@.len() as int] == leaf@);
            Some(leaf)
        } else {
            None
        }
    }

    /// Records the translation of the pending text. Without a pending text
    /// the run stays as it is; the flag says which.
    pub fn accept(self, translation: String) -> (r: (TreeWalk, bool))
        ensures
            r.0.source() == self.source(),
            r.0.target() == self.target(),
            r.1 == self.pending_leaf().is_some(),
            r.0.replies() == if r.1 {
                self.replies().push(translation@)
            } else {
                self.replies()
            },
    {
        proof {
            use_type_invariant(&self);
        }
        if self.replies.len() < self.leaves.len() {
            let ghost before = self.replies@;
            let TreeWalk { source, target_lang, leaves, mut replies } = self;
            replies.push(translation);
            assert(texts_model(replies@) =~= texts_model(before).push(translation@));
            (TreeWalk { source, target_lang, leaves, replies }, true)
        } else {
            (self, false)
        }
    }

    /// The failure to report when `raw_response` came back for the pending
    /// text in place of a translation. Without a pending text there is
    /// none.
    pub fn failure(&self, raw_response: &str) -> (r: Option<TranslateError>)
        ensures
            match r {
                Some(e) => self.pending_leaf() matches Some(leaf) && is_service_failure(
                    e,
                    leaf.key_path,
                    leaf.text,
                    self.target(),
                    raw_response@,
                ),
                None => self.pending_leaf().is_none(),
            },
    {
        match self.pending() {
            Some(leaf) => Some(
                TranslateError::TranslationService {
                    key_path: copy_path(&leaf.key_path),
                    source: leaf.text.clone(),
                    target_lang: self.target_lang.clone(),
                    raw_response: String::from_str(raw_response),
                },
            ),
            None => None,
        }
    }

    /// The translated tree, once every text has its translation: each text
    /// of the document replaced by its translation, under the same keys;
    /// what is neither text nor object left out.
    pub fn finish(&self) -> (r: Option<LangTree>)
        ensures
            r is Some <==> self.pending_leaf().is_none(),
            r matches Some(tree) ==> {
                &&& tree@ == translated(self.source(), self.replies())
                &&& same_shape(tree@, pruned(self.source()))
                &&& key_paths(tree@) == key_paths(pruned(self.source()))
                &&& self.source() is Object && lang_shaped(self.source()) ==> same_shape(
                    tree@,
                    self.source(),
                ) && key_paths(tree@) == key_paths(self.source())
                &&& well_formed(self.source()) ==> well_formed(tree@)
            },
    {
        proof {
            use_type_invariant(self);
        }
        build_translation_map(&self.source, &self.replies)
    }

    /// Takes the driver's report and gives the run as it goes on, with what
    /// to do next.
    ///
    /// A reply that holds a translation is recorded for the pending text. A
    /// reply that holds none, or a request that did not get through, ends
    /// the run with the failure for the pending text. Otherwise the run asks
    /// for the next text, with a fresh nonce and after the configured
    /// delay, or hands out the translated tree when no text is left. A
    /// report that comes when no text is pending changes nothing.
    ///
    /// A failure leaves the run as it was. A driver that would rather go on
    /// than stop may `accept` a text of its choice for the pending one and
    /// step on with `Event::Start`.
    pub fn step(self, cfg: &ClientConfig, event: Event, timestamp: u64) -> (r: (TreeWalk, Action))
        ensures
            r.0.source() == self.source(),
            r.0.target() == self.target(),
            r.0.replies() == match (self.pending_leaf(), event_translation(event)) {
                (Some(_), Some(text)) => self.replies().push(text),
                _ => self.replies(),
            },
            if self.pending_leaf() is Some && event_raw(event) is Some && event_translation(event)
                is None {
                r.1 matches Action::Abort(e) && is_service_failure(
                    e,
                    self.pending_leaf()->0.key_path,
                    self.pending_leaf()->0.text,
                    self.target(),
                    event_raw(event)->0,
                )
            } else {
                match r.0.pending_leaf() {
                    Some(leaf) => {
                        &&& r.1 matches Action::Send { delay_ms, request }
                        &&& delay_ms == cfg.min_delay_ms
                        &&& is_hyphenated_uuid(request.nonce@)
                        &&& request@ == request_for(
                            *cfg,
                            leaf.text,
                            r.0.target(),
                            request.nonce@,
                            timestamp as nat,
                        )
                    },
                    None => r.1 matches Action::Finish(tree) && tree@ == translated(
                        r.0.source(),
                        r.0.replies(),
                    ),
                }
            },
    {
        let mut walk = self;
        match event {
            Event::Start => {},
            Event::Reply(body) => {
                if walk.pending().is_some() {
                    match read_translation(body.as_str()) {
                        Some(text) => {
                            let (next, _) = walk.accept(text);
                            walk = next;
                        },
                        None => {
                            match walk.failure(body.as_str()) {
                                Some(e) => {
                                    return (walk, Action::Abort(e));
                                },
                                None => {},
                            }
                        },
                    }
                }
            },
            Event::Undelivered(detail) => {
                match walk.failure(detail.as_str()) {
                    Some(e) => {
                        return (walk, Action::Abort(e));
                    },
                    None => {},
                }
            },
        }
        let action = match walk.pending() {
            Some(leaf) => {
                let request = prepare_request(
                    cfg,
                    leaf.text.as_str(),
                    walk.target_lang.as_str(),
                    timestamp,
                );
                Action::Send { delay_ms: cfg.min_delay_ms, request }
            },
            None => match walk.finish() {
                Some(tree) => Action::Finish(tree),
                None => unreached(),
            },
        };
        (walk, action)
    }
}

} // verus!
