use lang_translate::decimal::to_decimal;
use lang_translate::truncate::query_truncate;

#[test]
fn short_query_is_kept() {
    assert_eq!(query_truncate("hello"), "hello");
}

#[test]
fn empty_query_is_kept() {
    assert_eq!(query_truncate(""), "");
}

#[test]
fn twenty_characters_are_kept() {
    let q = "abcdefghijklmnopqrst";
    assert_eq!(q.chars().count(), 20);
    assert_eq!(query_truncate(q), q);
}

#[test]
fn twenty_one_characters_are_shortened() {
    let q = "abcdefghijklmnopqrstu";
    assert_eq!(q.chars().count(), 21);
    assert_eq!(query_truncate(q), "abcdefghij21lmnopqrstu");
}

#[test]
fn twenty_five_characters_keep_both_ends() {
    let q = "abcdefghijklmnopqrstuvwxy";
    let expected = format!("{}{}{}", &q[0..10], "25", &q[15..25]);
    assert_eq!(expected, "abcdefghij25pqrstuvwxy");
    assert_eq!(query_truncate(q), expected);
}

#[test]
fn every_length_up_to_twenty_is_kept() {
    let mut q = String::new();
    for i in 0..=20 {
        assert_eq!(q.chars().count(), i);
        assert_eq!(query_truncate(&q), q);
        q.push('x');
    }
}

#[test]
fn wide_characters_count_once() {
    let q = "一二三四五六七八九十甲乙丙丁戊己庚辛壬癸子丑寅卯辰";
    assert_eq!(q.chars().count(), 25);
    assert!(q.len() > 25);
    assert_eq!(query_truncate(q), "一二三四五六七八九十25己庚辛壬癸子丑寅卯辰");
}

#[test]
fn twenty_wide_characters_are_kept() {
    let q = "一二三四五六七八九十甲乙丙丁戊己庚辛壬癸";
    assert_eq!(q.chars().count(), 20);
    assert_eq!(query_truncate(q), q);
}

#[test]
fn long_query_counts_with_three_digits() {
    let q = "a".repeat(50) + &"b".repeat(50) + "c";
    assert_eq!(query_truncate(&q), "aaaaaaaaaa101bbbbbbbbbc");
}

#[test]
fn decimal_of_zero() {
    assert_eq!(to_decimal(0), "0");
}

#[test]
fn decimal_of_small_numbers() {
    assert_eq!(to_decimal(7), "7");
    assert_eq!(to_decimal(10), "10");
    assert_eq!(to_decimal(21), "21");
    assert_eq!(to_decimal(100), "100");
}

#[test]
fn decimal_of_a_timestamp() {
    assert_eq!(to_decimal(1700000000), "1700000000");
}

#[test]
fn decimal_of_the_largest_number() {
    assert_eq!(to_decimal(u64::MAX), "18446744073709551615");
    assert_eq!(to_decimal(u64::MAX), u64::MAX.to_string());
}
