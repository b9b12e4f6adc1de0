use scx_teddy::text::{
    chars_of, only_digits, parse_i32, parse_u32, piece, push_decimal, push_signed, same_text,
    split_bytes, split_chars, split_once, split_words, string_of, strip_prefix, trim_text,
};

fn strings(v: Vec<Vec<char>>) -> Vec<String> {
    v.iter().map(string_of).collect()
}

#[test]
fn characters_come_back_as_the_string() {
    assert_eq!(string_of(&chars_of("héllo")), "héllo");
    assert_eq!(string_of(&piece(&chars_of("abcdef"), 2, 4)), "cd");
    assert!(same_text("same", "same"));
    assert!(!same_text("same", "sama"));
    assert!(!same_text("same", "sam"));
}

#[test]
fn trimming_takes_unicode_whitespace() {
    assert_eq!(trim_text("  \t game \n"), "game");
    assert_eq!(trim_text("\u{3000}x y\u{2003}\u{85}"), "x y");
    assert_eq!(trim_text("\u{200b}x"), "\u{200b}x");
    assert_eq!(trim_text(" \n "), "");
}

#[test]
fn splitting_keeps_empty_pieces() {
    assert_eq!(strings(split_chars(&chars_of("a,,b,"), ',')), vec!["a", "", "b", ""]);
    assert_eq!(strings(split_chars(&chars_of(""), ',')), vec![""]);
    assert_eq!(split_bytes(b"x\0\0y", 0), vec![vec![b'x'], vec![], vec![b'y']]);
}

#[test]
fn words_are_the_runs_between_whitespace() {
    assert_eq!(strings(split_words(&chars_of("  S 42\t7\n"))), vec!["S", "42", "7"]);
    assert!(split_words(&chars_of(" \t ")).is_empty());
}

#[test]
fn split_once_takes_the_first_separator() {
    let (a, b) = split_once(&chars_of("k=v=w"), '=').unwrap();
    assert_eq!((string_of(&a), string_of(&b)), ("k".to_string(), "v=w".to_string()));
    assert!(split_once(&chars_of("kv"), '=').is_none());
}

#[test]
fn a_prefix_is_taken_off_only_where_it_stands() {
    assert_eq!(string_of(&strip_prefix(&chars_of("policy0"), &chars_of("policy")).unwrap()), "0");
    assert!(strip_prefix(&chars_of("poli"), &chars_of("policy")).is_none());
    assert!(strip_prefix(&chars_of("0policy"), &chars_of("policy")).is_none());
}

#[test]
fn signed_numbers_parse_as_the_standard_library_does() {
    for s in [
        "0", "-0", "+7", "-7", "007", "2147483647", "2147483648", "-2147483648", "-2147483649", "",
        "-", "+", "+-1", " 1", "1 ", "1a", "99999999999999999999", "٣",
    ] {
        assert_eq!(parse_i32(&chars_of(s)), s.parse::<i32>().ok(), "{s:?}");
    }
}

#[test]
fn unsigned_numbers_parse_as_the_standard_library_does() {
    for s in [
        "0", "-0", "+7", "-7", "007", "4294967295", "4294967296", "", "+", "1.0",
        "99999999999999999999",
    ] {
        assert_eq!(parse_u32(&chars_of(s)), s.parse::<u32>().ok(), "{s:?}");
    }
}

#[test]
fn digits_alone_are_told_from_the_rest() {
    assert!(only_digits(&chars_of("019")));
    assert!(!only_digits(&chars_of("")));
    assert!(!only_digits(&chars_of("1a")));
}

#[test]
fn printed_numbers_read_back() {
    for n in [i32::MIN, -1, 0, 9, 10, 100, i32::MAX] {
        let mut s = String::new();
        push_signed(&mut s, n);
        assert_eq!(s, n.to_string());
        assert_eq!(parse_i32(&chars_of(&s)), Some(n));
    }
    let mut s = String::from("n=");
    push_decimal(&mut s, u64::MAX);
    assert_eq!(s, "n=18446744073709551615");
}

#[test]
fn splitting_undoes_joining() {
    let parts = vec!["a", "", "bc"];
    assert_eq!(strings(split_chars(&chars_of(&parts.join(",")), ',')), parts);
}
