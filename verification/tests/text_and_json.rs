use agent::json::{read_lines, Json, Num};
use agent::text::{
    contains, decimal_text, extension_of, join, lines_of, parse_usize, replace, same, trim,
};
use agent::written::parse_written;

#[test]
fn texts_are_searched_and_compared() {
    assert!(contains("abc", "bc"));
    assert!(contains("abc", ""));
    assert!(!contains("abc", "ca"));
    assert!(same("a\u{e9}", "a\u{e9}"));
    assert!(!same("a", "b"));
}

#[test]
fn texts_are_trimmed_of_white_space() {
    assert_eq!(trim(" \t\n\u{a0}a b\u{3000}"), "a b");
    assert_eq!(trim("a"), "a");
    assert_eq!(trim(trim("  x ")), "x");
}

#[test]
fn white_space_is_what_unicode_lists() {
    for c in '\0'..=char::MAX {
        let listed = matches!(
            c,
            '\t'..='\r' | ' ' | '\u{85}' | '\u{a0}' | '\u{1680}' | '\u{2000}'..='\u{200a}'
                | '\u{2028}' | '\u{2029}' | '\u{202f}' | '\u{205f}' | '\u{3000}'
        );
        assert_eq!(trim(&c.to_string()).is_empty(), listed, "{:x}", c as u32);
    }
}

#[test]
fn numbers_are_written_and_read() {
    for n in [0usize, 7, 10, 409, usize::MAX] {
        assert_eq!(decimal_text(n), format!("{n}"));
        assert_eq!(parse_usize(&decimal_text(n)), Some(n));
    }
    assert_eq!(parse_usize("0012"), Some(12));
    assert_eq!(parse_usize("1x"), None);
}

#[test]
fn texts_are_split_joined_and_replaced() {
    assert_eq!(lines_of("a\r\n\nb"), vec!["a", "", "b"]);
    assert_eq!(lines_of("a\n"), vec!["a"]);
    assert!(lines_of("").is_empty());
    assert_eq!(join(&vec!["a".into(), "b".into()], ", "), "a, b");
    assert_eq!(join(&vec![], ", "), "");
    assert_eq!(replace("aaa", "aa", "b"), "ba");
    assert_eq!(extension_of("a.b.c"), "c");
    assert_eq!(extension_of("abc"), "abc");
}

#[test]
fn json_prints_sorted_and_writes_in_order() {
    let v = Json::object().with("b", Json::count(1)).with("a", Json::text("x"));
    assert_eq!(v.print(), "{\"a\":\"x\",\"b\":1}");
    assert_eq!(v.compact(), "{\"b\":1,\"a\":\"x\"}");
}

#[test]
fn scalars_are_printed_exactly() {
    let s = "a\"\\/\u{8}\t\n\u{c}\r\u{0}\u{1f}\u{7f}\u{e9}\u{1f600}";
    assert_eq!(
        Json::text(s).print(),
        "\"a\\\"\\\\/\\b\\t\\n\\f\\r\\u0000\\u001f\u{7f}\u{e9}\u{1f600}\""
    );
    assert_eq!(Json::count(0).compact(), "0");
    assert_eq!(Json::count(u64::MAX).print(), "18446744073709551615");
    assert_eq!(Json::Number(Num::Negative(i64::MIN)).compact(), "-9223372036854775808");
    assert_eq!(Json::Bool(true).print(), "true");
    assert_eq!(Json::Bool(false).compact(), "false");
    assert_eq!(Json::Null.compact(), "null");
    // Every control character is escaped, and nothing else but quote and backslash.
    for c in '\0'..='\u{2ff}' {
        let text = Json::text(&c.to_string()).print();
        let escaped = c < ' ' || c == '"' || c == '\\';
        assert_eq!(text.starts_with("\"\\"), escaped, "{:x}", c as u32);
        assert_eq!(Json::parse(&text).unwrap().as_text(), Some(c.to_string().as_str()));
    }
}

#[test]
fn json_is_read_as_it_is_written() {
    for (text, compact) in [
        ("{\"a\":1,\"a\":2}", "{\"a\":1,\"a\":2}"),
        (" { \"b\" : [ 1 , {\"x\":[]} , {} ] ,\t\"a\" : null } ", "{\"b\":[1,{\"x\":[]},{}],\"a\":null}"),
        ("[ ]", "[]"),
        ("{ }", "{}"),
        ("[[],[[]],\"\"]", "[[],[[]],\"\"]"),
        (" \"x\" ", "\"x\""),
        ("-12", "-12"),
        ("true", "true"),
        ("[\"],{\",\"\\\",[\",\"\\\\\",\"a:b\"]", "[\"],{\",\"\\\",[\",\"\\\\\",\"a:b\"]"),
        ("{\"a:,{\\\"\":\":\",\"\\u0061\":0}", "{\"a:,{\\\"\":\":\",\"a\":0}"),
        ("{\"\\ud83d\\ude00\":\"\u{e9}\"}", "{\"\u{1f600}\":\"\u{e9}\"}"),
    ] {
        let v = parse_written(text).unwrap();
        assert_eq!(v.compact(), compact, "{text}");
        assert_eq!(v.print(), Json::parse(text).unwrap().print(), "{text}");
        assert_eq!(parse_written(&v.compact()).unwrap().compact(), compact, "{text}");
    }
    for text in ["", "{", "[1,]", "{\"a\":1,}", "1 2", "{\"a\"}", "{a:1}", "[1}"] {
        assert!(parse_written(text).is_none(), "{text}");
    }
    let deep = |n: usize| format!("{}{}", "[".repeat(n), "]".repeat(n));
    assert_eq!(parse_written(&deep(127)).unwrap().compact(), deep(127));
    assert!(parse_written(&deep(128)).is_none());
}

#[test]
fn json_reads_back_what_it_prints() {
    for text in [
        "null",
        "true",
        "-9223372036854775808",
        "18446744073709551615",
        "1.5",
        "\"a\\\"\\n\\u0001\"",
        "[1,[2,[3]]]",
        "{\"a\":{\"b\":[]},\"c\":null}",
    ] {
        let v = Json::parse(text).unwrap();
        assert_eq!(v.print(), text);
        assert_eq!(Json::parse(&v.print()).unwrap().print(), text);
        assert_eq!(Json::parse(&v.compact()).unwrap().print(), text);
        assert_eq!(v.clone().print(), text);
    }
    assert!(Json::parse("{").is_none());
    assert!(Json::parse("").is_none());
    assert!(Json::parse("1 2").is_none());
}

#[test]
fn json_nests_as_deep_as_the_parser_takes() {
    let deep = |n: usize| format!("{}{}", "[".repeat(n), "]".repeat(n));
    assert!(Json::parse(&deep(127)).is_some());
    assert!(Json::parse(&deep(128)).is_none());
}

#[test]
fn the_last_member_of_a_key_counts() {
    let v = Json::parse("{\"a\":1,\"a\":2}").unwrap();
    assert_eq!(v.natural_at("a"), Some(2));
    let w = Json::object().with("a", Json::count(1)).with("a", Json::count(2));
    assert_eq!(w.natural_at("a"), Some(2));
    assert_eq!(w.compact(), "{\"a\":1,\"a\":2}");
    assert_eq!(w.print(), "{\"a\":2}");
}

#[test]
fn json_is_read_by_key_and_place() {
    let mut v = Json::parse("{\"t\":\"x\",\"n\":-1,\"l\":[\"a\",2]}").unwrap();
    assert_eq!(v.text_at("t"), Some("x"));
    assert_eq!(v.natural_at("n"), None);
    assert_eq!(v.copy_at("l").copy_nth(1).print(), "2");
    assert_eq!(v.copy_at("l").copy_nth(2).print(), "null");
    assert!(v.copy_at("missing").as_items().is_none());
    assert!(v.get("n").is_some() && v.get("m").is_none());
    v.set("t", Json::Bool(true));
    v.set("z", Json::Null);
    assert_eq!(v.print(), "{\"l\":[\"a\",2],\"n\":-1,\"t\":true,\"z\":null}");
    assert!(matches!(Json::parse("-1"), Some(Json::Number(Num::Negative(-1)))));
    assert!(matches!(Json::parse("1"), Some(Json::Number(Num::Natural(1)))));
    assert!(matches!(Json::parse("1.0"), Some(Json::Number(Num::Float(_)))));
}

#[test]
fn lines_of_json_are_read_in_order() {
    let values = read_lines("1\nx\n\"y\"\n");
    assert_eq!(values.len(), 2);
    assert_eq!(values[1].as_text(), Some("y"));
}
