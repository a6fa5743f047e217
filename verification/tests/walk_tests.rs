use lang_translate::codec::{parse_document, render};
use lang_translate::error::TranslateError;
use lang_translate::json::{JsonValue, LangTree};
use lang_translate::request::{build_request, ClientConfig, TranslationRequest};
use lang_translate::tree::Leaf;
use lang_translate::walk::{Action, Event, TreeWalk};

fn text(s: &str) -> JsonValue {
    JsonValue::Text(s.to_string())
}

fn object(entries: Vec<(&str, JsonValue)>) -> JsonValue {
    JsonValue::Object(entries.into_iter().map(|(k, v)| (k.to_string(), v)).collect())
}

fn leaf(s: &str) -> LangTree {
    LangTree::Text(s.to_string())
}

fn branch(entries: Vec<(&str, LangTree)>) -> LangTree {
    LangTree::Object(entries.into_iter().map(|(k, v)| (k.to_string(), v)).collect())
}

fn config(min_delay_ms: u64) -> ClientConfig {
    ClientConfig {
        endpoint: "http://localhost/api".to_string(),
        app_id: "id".to_string(),
        app_key: "key".to_string(),
        source_lang: "zh-CHS".to_string(),
        min_delay_ms,
    }
}

fn good_reply(query: &str) -> String {
    format!("{{\"translation\":[\"<{}>\"]}}", query)
}

/// Drives a run against a service that answers by `reply`. Gives the last
/// action, the requests that were sent and the delays that were asked for.
fn drive(
    doc: JsonValue,
    cfg: &ClientConfig,
    reply: fn(&TranslationRequest) -> Event,
) -> (Action, Vec<TranslationRequest>, Vec<u64>) {
    let mut sent = Vec::new();
    let mut delays = Vec::new();
    let mut clock = 1700000000;
    let (mut walk, mut action) = TreeWalk::start(doc, "en").step(cfg, Event::Start, clock);
    loop {
        match action {
            Action::Send { delay_ms, request } => {
                let event = reply(&request);
                delays.push(delay_ms);
                sent.push(request);
                clock += 1;
                let next = walk.step(cfg, event, clock);
                walk = next.0;
                action = next.1;
            }
            last => return (last, sent, delays),
        }
    }
}

fn sample() -> JsonValue {
    object(vec![
        ("a", text("hi")),
        ("n", JsonValue::Number),
        ("b", object(vec![("c", text("bye")), ("l", JsonValue::Array(vec![text("no")]))])),
        ("d", text("end")),
    ])
}

#[test]
fn run_translates_every_text_in_order() {
    let cfg = config(1000);
    let (last, sent, _) = drive(sample(), &cfg, |r| Event::Reply(good_reply(&r.query)));
    assert_eq!(
        last,
        Action::Finish(branch(vec![
            ("a", leaf("<hi>")),
            ("b", branch(vec![("c", leaf("<bye>"))])),
            ("d", leaf("<end>")),
        ]))
    );
    let queries: Vec<&str> = sent.iter().map(|r| r.query.as_str()).collect();
    assert_eq!(queries, vec!["hi", "bye", "end"]);
}

#[test]
fn run_keeps_the_shape_of_the_example() {
    let doc = object(vec![("a", text("hi")), ("b", object(vec![("c", text("bye"))]))]);
    let (last, _, _) = drive(doc, &config(0), |r| Event::Reply(good_reply(&r.query)));
    assert_eq!(
        last,
        Action::Finish(branch(vec![("a", leaf("<hi>")), ("b", branch(vec![("c", leaf("<bye>"))]))]))
    );
}

#[test]
fn run_leaves_out_numbers_and_arrays() {
    let doc = parse_document(r#"{"a": "x", "b": 5, "c": [1,2]}"#).unwrap();
    let (last, sent, _) = drive(doc, &config(0), |r| Event::Reply(good_reply(&r.query)));
    assert_eq!(last, Action::Finish(branch(vec![("a", leaf("<x>"))])));
    assert_eq!(sent.len(), 1);
}

#[test]
fn run_asks_for_the_delay_before_every_request() {
    let cfg = config(1000);
    let (last, sent, delays) = drive(sample(), &cfg, |r| Event::Reply(good_reply(&r.query)));
    assert!(matches!(last, Action::Finish(_)));
    assert_eq!(sent.len(), 3);
    assert_eq!(delays, vec![1000, 1000, 1000]);
    assert_eq!(delays.iter().sum::<u64>(), 3 * cfg.min_delay_ms);
}

#[test]
fn run_asks_for_the_configured_delay() {
    let (_, _, delays) = drive(sample(), &config(0), |r| Event::Reply(good_reply(&r.query)));
    assert_eq!(delays, vec![0, 0, 0]);
    let (_, _, delays) = drive(sample(), &config(250), |r| Event::Reply(good_reply(&r.query)));
    assert_eq!(delays, vec![250, 250, 250]);
}

#[test]
fn run_signs_each_request_anew() {
    let cfg = config(0);
    let (_, sent, _) = drive(sample(), &cfg, |r| Event::Reply(good_reply(&r.query)));
    for (i, request) in sent.iter().enumerate() {
        assert_eq!(request.timestamp, 1700000000 + i as u64);
        assert_eq!(request.target_lang, "en");
        assert_eq!(request.source_lang, "zh-CHS");
        assert_eq!(
            *request,
            build_request(&cfg, &request.query, "en", &request.nonce, request.timestamp)
        );
    }
    assert_ne!(sent[0].nonce, sent[1].nonce);
    assert_ne!(sent[1].nonce, sent[2].nonce);
}

#[test]
fn run_fails_on_an_empty_translation() {
    let (last, sent, _) =
        drive(sample(), &config(0), |_| Event::Reply(r#"{"translation": []}"#.to_string()));
    assert_eq!(
        last,
        Action::Abort(TranslateError::TranslationService {
            key_path: vec!["a".to_string()],
            source: "hi".to_string(),
            target_lang: "en".to_string(),
            raw_response: r#"{"translation": []}"#.to_string(),
        })
    );
    assert_eq!(sent.len(), 1);
}

#[test]
fn run_fails_on_a_reply_without_translation() {
    let (last, sent, _) = drive(sample(), &config(0), |_| Event::Reply("{}".to_string()));
    assert_eq!(
        last,
        Action::Abort(TranslateError::TranslationService {
            key_path: vec!["a".to_string()],
            source: "hi".to_string(),
            target_lang: "en".to_string(),
            raw_response: "{}".to_string(),
        })
    );
    assert_eq!(sent.len(), 1);
}

#[test]
fn run_fails_at_the_text_that_got_no_translation() {
    let (last, sent, _) = drive(sample(), &config(0), |r| {
        if r.query == "bye" {
            Event::Reply("<html>".to_string())
        } else {
            Event::Reply(good_reply(&r.query))
        }
    });
    assert_eq!(
        last,
        Action::Abort(TranslateError::TranslationService {
            key_path: vec!["b".to_string(), "c".to_string()],
            source: "bye".to_string(),
            target_lang: "en".to_string(),
            raw_response: "<html>".to_string(),
        })
    );
    assert_eq!(sent.len(), 2);
}

#[test]
fn run_fails_when_a_request_does_not_get_through() {
    let (last, sent, _) =
        drive(sample(), &config(0), |_| Event::Undelivered("connection refused".to_string()));
    assert_eq!(
        last,
        Action::Abort(TranslateError::TranslationService {
            key_path: vec!["a".to_string()],
            source: "hi".to_string(),
            target_lang: "en".to_string(),
            raw_response: "connection refused".to_string(),
        })
    );
    assert_eq!(sent.len(), 1);
}

#[test]
fn run_over_nothing_finishes_at_once() {
    let cfg = config(1000);
    let (last, sent, delays) = drive(object(vec![]), &cfg, |r| Event::Reply(good_reply(&r.query)));
    assert_eq!(last, Action::Finish(branch(vec![])));
    assert!(sent.is_empty());
    assert!(delays.is_empty());
    let (last, sent, _) = drive(text("alone"), &cfg, |r| Event::Reply(good_reply(&r.query)));
    assert_eq!(last, Action::Finish(branch(vec![])));
    assert!(sent.is_empty());
}

#[test]
fn reports_after_the_end_change_nothing() {
    let cfg = config(0);
    let doc = object(vec![("a", text("hi"))]);
    let (walk, _) = TreeWalk::start(doc, "en").step(&cfg, Event::Start, 1);
    let (walk, action) = walk.step(&cfg, Event::Reply(good_reply("hi")), 2);
    assert_eq!(action, Action::Finish(branch(vec![("a", leaf("<hi>"))])));
    let (walk, action) = walk.step(&cfg, Event::Reply("{}".to_string()), 3);
    assert_eq!(action, Action::Finish(branch(vec![("a", leaf("<hi>"))])));
    let (walk, action) = walk.step(&cfg, Event::Undelivered("late".to_string()), 4);
    assert_eq!(action, Action::Finish(branch(vec![("a", leaf("<hi>"))])));
    assert_eq!(walk.progress(), (1, 1));
}

#[test]
fn start_report_repeats_the_pending_request() {
    let cfg = config(0);
    let doc = object(vec![("a", text("hi")), ("b", text("bye"))]);
    let (walk, first) = TreeWalk::start(doc, "en").step(&cfg, Event::Start, 1);
    let (walk, second) = walk.step(&cfg, Event::Start, 1);
    match (first, second) {
        (Action::Send { request: a, .. }, Action::Send { request: b, .. }) => {
            assert_eq!(a.query, "hi");
            assert_eq!(b.query, "hi");
        }
        _ => panic!("two requests expected"),
    }
    assert_eq!(walk.progress(), (0, 2));
}

#[test]
fn walk_by_hand() {
    let doc = object(vec![("a", text("hi")), ("b", object(vec![("c", text("bye"))]))]);
    let walk = TreeWalk::start(doc, "fr");
    assert_eq!(walk.progress(), (0, 2));
    assert_eq!(
        walk.pending(),
        Some(&Leaf { key_path: vec!["a".to_string()], text: "hi".to_string() })
    );
    assert_eq!(walk.finish(), None);
    assert_eq!(
        walk.failure("oops"),
        Some(TranslateError::TranslationService {
            key_path: vec!["a".to_string()],
            source: "hi".to_string(),
            target_lang: "fr".to_string(),
            raw_response: "oops".to_string(),
        })
    );
    let (walk, accepted) = walk.accept("salut".to_string());
    assert!(accepted);
    assert_eq!(walk.progress(), (1, 2));
    assert_eq!(
        walk.pending(),
        Some(&Leaf { key_path: vec!["b".to_string(), "c".to_string()], text: "bye".to_string() })
    );
    let (walk, accepted) = walk.accept("au revoir".to_string());
    assert!(accepted);
    assert_eq!(walk.pending(), None);
    assert_eq!(walk.failure("oops"), None);
    let (walk, accepted) = walk.accept("extra".to_string());
    assert!(!accepted);
    assert_eq!(walk.progress(), (2, 2));
    assert_eq!(
        walk.finish(),
        Some(branch(vec![("a", leaf("salut")), ("b", branch(vec![("c", leaf("au revoir"))]))]))
    );
}

#[test]
fn run_from_text_to_text() {
    let doc =
        parse_document(r#"{"title": "标题", "menu": {"open": "打开", "count": 3}}"#).unwrap();
    let (last, _, _) = drive(doc, &config(0), |r| Event::Reply(good_reply(&r.query)));
    match last {
        Action::Finish(tree) => {
            assert_eq!(
                render(&tree),
                Some(r#"{"title":"<标题>","menu":{"open":"<打开>"}}"#.to_string())
            );
        }
        _ => panic!("the run should finish"),
    }
}

#[test]
fn driver_may_go_on_after_a_failure() {
    let cfg = config(0);
    let doc = object(vec![("a", text("hi")), ("b", text("bye"))]);
    let (walk, _) = TreeWalk::start(doc, "en").step(&cfg, Event::Start, 1);
    let (walk, action) = walk.step(&cfg, Event::Reply("{}".to_string()), 2);
    assert!(matches!(action, Action::Abort(_)));
    assert_eq!(walk.progress(), (0, 2));
    let (walk, accepted) = walk.accept("hi".to_string());
    assert!(accepted);
    let (walk, action) = walk.step(&cfg, Event::Start, 3);
    match action {
        Action::Send { request, .. } => assert_eq!(request.query, "bye"),
        _ => panic!("a request expected"),
    }
    let (_, action) = walk.step(&cfg, Event::Reply(good_reply("bye")), 4);
    assert_eq!(action, Action::Finish(branch(vec![("a", leaf("hi")), ("b", leaf("<bye>"))])));
}
