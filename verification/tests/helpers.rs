use task_harness::options::{
    divide, find_number, find_user_by_id, get_config_value, parse_and_validate, process_number,
    process_optional_value, validate_number,
};
use task_harness::text::{
    append_world, count_chars, count_words, create_valid_reference, first_word, get_first_word,
    get_length, longest,
};

#[test]
fn divide_rounds_toward_zero() {
    assert_eq!(divide(10, 2), Some(5));
    assert_eq!(divide(7, 2), Some(3));
    assert_eq!(divide(-7, 2), Some(-3));
    assert_eq!(divide(7, -2), Some(-3));
    assert_eq!(divide(-7, -2), Some(3));
    assert_eq!(divide(i32::MIN, 1), Some(i32::MIN));
    assert_eq!(divide(i32::MAX, -1), Some(-i32::MAX));
    assert_eq!(divide(0, 5), Some(0));
}

#[test]
fn divide_by_zero_has_no_quotient() {
    assert_eq!(divide(10, 0), None);
    assert_eq!(divide(0, 0), None);
}

#[test]
fn find_number_gives_the_first_position() {
    assert_eq!(find_number(&[1, 2, 3, 4, 5], 3), Some(2));
    assert_eq!(find_number(&[4, 8, 4], 4), Some(0));
    assert_eq!(find_number(&[1, 2, 3], 10), None);
    assert_eq!(find_number(&[], 1), None);
}

#[test]
fn absent_value_counts_as_zero() {
    assert_eq!(process_optional_value(Some(42)), 42);
    assert_eq!(process_optional_value(Some(-1)), -1);
    assert_eq!(process_optional_value(None), 0);
}

#[test]
fn numbers_up_to_a_thousand_are_doubled() {
    assert_eq!(process_number(5), Some(10));
    assert_eq!(process_number(1000), Some(2000));
    assert_eq!(process_number(1001), None);
    assert_eq!(process_number(-4), Some(-8));
    assert_eq!(process_number(i32::MIN / 2), Some(i32::MIN));
}

#[test]
fn parsed_numbers_are_kept_unless_zero() {
    assert_eq!(parse_and_validate("42"), Ok(Some(42)));
    assert_eq!(parse_and_validate("-17"), Ok(Some(-17)));
    assert_eq!(parse_and_validate("0"), Ok(None));
    assert!(parse_and_validate("abc").is_err());
    assert!(parse_and_validate("").is_err());
    assert!(parse_and_validate("99999999999").is_err());
    assert_eq!(validate_number(0), None);
    assert_eq!(validate_number(3), Some(3));
}

#[test]
fn only_the_first_user_is_known() {
    let user = find_user_by_id(1).expect("user 1 exists");
    assert_eq!(user.id, 1);
    assert_eq!(user.name, "Alice");
    assert_eq!(find_user_by_id(0), None);
    assert_eq!(find_user_by_id(2), None);
}

#[test]
fn known_settings_have_values() {
    assert_eq!(get_config_value("timeout"), Some(60));
    assert_eq!(get_config_value("port"), Some(8080));
    assert_eq!(get_config_value("host"), None);
    assert_eq!(get_config_value(""), None);
    assert_eq!(get_config_value("Timeout"), None);
}

#[test]
fn characters_and_bytes_are_counted_apart() {
    assert_eq!(count_chars("hello"), 5);
    assert_eq!(count_chars(""), 0);
    assert_eq!(count_chars("héllo"), 5);
    assert_eq!(get_length(&String::from("hello")), 5);
    assert_eq!(get_length(&String::from("héllo")), 6);
    assert_eq!(get_length(&String::new()), 0);
}

#[test]
fn world_is_appended() {
    let mut text = String::from("hello");
    append_world(&mut text);
    assert_eq!(text, "hello world");
    append_world(&mut text);
    assert_eq!(text, "hello world world");
}

#[test]
fn static_text_is_returned() {
    assert_eq!(create_valid_reference(), "This is a valid static reference");
}

#[test]
fn longest_prefers_the_second_on_a_tie() {
    assert_eq!(longest("long string is long", "xyz"), "long string is long");
    assert_eq!(longest("xyz", "long string is long"), "long string is long");
    assert_eq!(longest("hello", "world"), "world");
    assert_eq!(longest("", ""), "");
}

#[test]
fn words_are_counted_between_white_space() {
    assert_eq!(count_words("hello world"), 2);
    assert_eq!(count_words("  hello   brave\tnew\nworld  "), 4);
    assert_eq!(count_words(""), 0);
    assert_eq!(count_words("   \t\n"), 0);
    assert_eq!(count_words("one"), 1);
    assert_eq!(count_words("a\u{00a0}b\u{3000}c"), 3);
    assert_eq!(count_words("héllo wörld"), 2);
}

#[test]
fn first_word_skips_leading_white_space() {
    assert_eq!(get_first_word("hello world"), "hello");
    assert_eq!(get_first_word("   hello\tworld"), "hello");
    assert_eq!(get_first_word("single"), "single");
    assert_eq!(get_first_word(""), "");
    assert_eq!(get_first_word(" \n "), "");
    assert_eq!(get_first_word("héllo wörld"), "héllo");
    assert_eq!(get_first_word("a"), "a");
}

#[test]
fn first_word_ends_at_the_first_space_only() {
    assert_eq!(first_word("hello world"), "hello");
    assert_eq!(first_word("hello"), "hello");
    assert_eq!(first_word(" hello"), "");
    assert_eq!(first_word(""), "");
    assert_eq!(first_word("tab\tseparated words"), "tab\tseparated");
    assert_eq!(first_word("héllo wörld"), "héllo");
}
