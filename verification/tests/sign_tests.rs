use lang_translate::sign::{sign, sign_payload};

const SALT: &str = "1b4e28ba-2fa1-11d2-883f-0016d3cca427";

#[test]
fn payload_joins_the_parts_in_order() {
    assert_eq!(
        sign_payload("hello", SALT, "1700000000", "app_id", "app_key"),
        "app_idhello1b4e28ba-2fa1-11d2-883f-0016d3cca4271700000000app_key"
    );
}

#[test]
fn payload_holds_the_shortened_query() {
    assert_eq!(
        sign_payload("abcdefghijklmnopqrstuvwxyz", "salt", "1", "id", "key"),
        "idabcdefghij26qrstuvwxyzsalt1key"
    );
}

#[test]
fn signature_of_a_known_request() {
    assert_eq!(
        sign("hello", SALT, "1700000000", "app_id", "app_key"),
        "0ad190002d7be793f48ed2cee0b00264000212ecfa0299dda77956af8c03d1c1"
    );
}

#[test]
fn signature_of_a_long_query() {
    assert_eq!(
        sign("abcdefghijklmnopqrstuvwxyz", "salt", "1", "id", "key"),
        "37693172ba71d54a663307c3f455f376c3def82823db508d8d149db01deefc01"
    );
}

#[test]
fn signature_of_a_wide_query() {
    assert_eq!(
        sign("你好，世界", "n", "0", "app_id", "app_key"),
        "a4255d4332932ec78eb5fd2d56d83f46f30eef769823a262707527ec158f6dbb"
    );
}

#[test]
fn signature_of_nothing() {
    assert_eq!(
        sign("", "", "", "", ""),
        "e3b0c44298fc1c149afbf4c8996fb92427ae41e4649b934ca495991b7852b855"
    );
}

#[test]
fn signature_is_not_the_payload() {
    let payload = sign_payload("hello", SALT, "1700000000", "app_id", "app_key");
    let signature = sign("hello", SALT, "1700000000", "app_id", "app_key");
    assert_ne!(signature, payload);
    assert_eq!(signature.len(), 64);
    assert!(signature.chars().all(|c| c.is_ascii_digit() || ('a'..='f').contains(&c)));
}

#[test]
fn equal_inputs_give_equal_signatures() {
    let first = sign("hello", SALT, "1700000000", "app_id", "app_key");
    let second = sign("hello", SALT, "1700000000", "app_id", "app_key");
    assert_eq!(first, second);
}

#[test]
fn each_input_changes_the_signature() {
    let base = sign("hello", SALT, "1700000000", "app_id", "app_key");
    assert_ne!(base, sign("hellp", SALT, "1700000000", "app_id", "app_key"));
    assert_ne!(
        base,
        sign("hello", "1b4e28ba-2fa1-11d2-883f-0016d3cca428", "1700000000", "app_id", "app_key")
    );
    assert_ne!(base, sign("hello", SALT, "1700000001", "app_id", "app_key"));
    assert_ne!(base, sign("hello", SALT, "1700000000", "app_ie", "app_key"));
    assert_ne!(base, sign("hello", SALT, "1700000000", "app_id", "app_kez"));
}

#[test]
fn long_queries_alike_at_both_ends_sign_alike() {
    let first = "0123456789-first-middle-0123456789";
    let second = "0123456789-other-middle-0123456789";
    assert_eq!(first.chars().count(), second.chars().count());
    assert_eq!(
        sign(first, SALT, "1", "app_id", "app_key"),
        sign(second, SALT, "1", "app_id", "app_key")
    );
}
