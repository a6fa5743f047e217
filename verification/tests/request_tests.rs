use lang_translate::request::{build_request, prepare_request, ClientConfig, TranslationRequest};
use lang_translate::sign::sign;

fn pair(name: &str, value: &str) -> (String, String) {
    (name.to_string(), value.to_string())
}

fn is_uuid(s: &str) -> bool {
    s.chars().count() == 36
        && s.chars().enumerate().all(|(i, c)| {
            if i == 8 || i == 13 || i == 18 || i == 23 {
                c == '-'
            } else {
                c.is_ascii_digit() || ('a'..='f').contains(&c)
            }
        })
}

#[test]
fn standard_configuration() {
    let cfg = ClientConfig::standard();
    assert_eq!(cfg.endpoint, "https://openapi.youdao.com/api");
    assert_eq!(cfg.app_id, "app_id");
    assert_eq!(cfg.app_key, "app_key");
    assert_eq!(cfg.source_lang, "zh-CHS");
    assert_eq!(cfg.min_delay_ms, 1000);
}

#[test]
fn request_carries_its_parts() {
    let cfg = ClientConfig::standard();
    let request = build_request(&cfg, "hi", "en", "nonce-1", 1700000000);
    assert_eq!(
        request,
        TranslationRequest {
            query: "hi".to_string(),
            source_lang: "zh-CHS".to_string(),
            target_lang: "en".to_string(),
            app_id: "app_id".to_string(),
            timestamp: 1700000000,
            nonce: "nonce-1".to_string(),
            sign_type: "v3".to_string(),
            signature: "18a9586ea545aa1b808516804fcb537706337dcf6a826355b8a5d1c1147d8306"
                .to_string(),
        }
    );
}

#[test]
fn request_is_signed_over_the_shortened_query() {
    let cfg = ClientConfig {
        endpoint: "http://localhost".to_string(),
        app_id: "id".to_string(),
        app_key: "key".to_string(),
        source_lang: "en".to_string(),
        min_delay_ms: 0,
    };
    let request = build_request(&cfg, "abcdefghijklmnopqrstuvwxyz", "fr", "salt", 1);
    assert_eq!(request.query, "abcdefghijklmnopqrstuvwxyz");
    assert_eq!(request.source_lang, "en");
    assert_eq!(
        request.signature,
        "37693172ba71d54a663307c3f455f376c3def82823db508d8d149db01deefc01"
    );
}

#[test]
fn request_parameters_by_name() {
    let cfg = ClientConfig::standard();
    let request = build_request(&cfg, "hi", "en", "nonce-1", 1700000000);
    assert_eq!(
        request.query_params(),
        vec![
            pair("q", "hi"),
            pair("from", "zh-CHS"),
            pair("to", "en"),
            pair("appKey", "app_id"),
            pair("sign", "18a9586ea545aa1b808516804fcb537706337dcf6a826355b8a5d1c1147d8306"),
            pair("salt", "nonce-1"),
            pair("signType", "v3"),
            pair("curtime", "1700000000"),
        ]
    );
}

#[test]
fn request_parameters_carry_the_whole_query() {
    let cfg = ClientConfig::standard();
    let query = "一二三四五六七八九十甲乙丙丁戊己庚辛壬癸子丑寅卯辰";
    let request = build_request(&cfg, query, "ja", "n", 0);
    let params = request.query_params();
    assert_eq!(params[0], pair("q", query));
    assert_eq!(params[7], pair("curtime", "0"));
}

#[test]
fn prepared_request_has_a_uuid_for_nonce() {
    let cfg = ClientConfig::standard();
    let request = prepare_request(&cfg, "hi", "en", 1700000000);
    assert!(is_uuid(&request.nonce));
    assert_eq!(request.nonce.chars().nth(14), Some('4'));
    assert_eq!(request.query, "hi");
    assert_eq!(request.target_lang, "en");
    assert_eq!(request.timestamp, 1700000000);
    assert_eq!(request.sign_type, "v3");
    assert_eq!(request.signature, sign("hi", &request.nonce, "1700000000", "app_id", "app_key"));
    assert_eq!(request, build_request(&cfg, "hi", "en", &request.nonce, 1700000000));
}

#[test]
fn prepared_requests_have_fresh_nonces() {
    let cfg = ClientConfig::standard();
    let first = prepare_request(&cfg, "hi", "en", 1700000000);
    let second = prepare_request(&cfg, "hi", "en", 1700000000);
    assert_ne!(first.nonce, second.nonce);
    assert_ne!(first.signature, second.signature);
}
