//! Text and JSON.

use r2_core::json::Json;
use r2_core::text::{
    ascii_lowercase, byte_len, char_count, contains_string, dec_int_string, dec_string, find_string, head_string,
    join_path, join_strings, lines_of, list_has, parse_uint, sort_strings, split_string, starts_with, str_less,
    strip_both_string, strip_left_string, strip_prefix, strip_right_string, tail_string, text_of_bytes, trim_end_string,
    trim_start_string, trim_string,
};

#[test]
fn lines_as_std_gives_them() {
    for s in ["", "a", "a\n", "a\n\nb", "a\r\nb\r", "\n", "\r\n", "x\ry\n"] {
        let mine = lines_of(s);
        let std: Vec<&str> = s.lines().collect();
        assert_eq!(mine, std, "{s:?}");
    }
}

#[test]
fn trimming_as_std_does() {
    for s in ["", " a ", "\u{3000}字\u{85}", "\t\n", "a b", "\u{200b}x"] {
        assert_eq!(trim_string(s), s.trim());
        assert_eq!(trim_start_string(s), s.trim_start());
        assert_eq!(trim_end_string(s), s.trim_end());
    }
    assert_eq!(strip_left_string("##a#", '#'), "a#");
    assert_eq!(strip_right_string("/a//", '/'), "/a");
    assert_eq!(strip_both_string("\"a\"", '"'), "a");
}

#[test]
fn searching() {
    assert_eq!(find_string("你好吗好", "好"), Some(1));
    assert_eq!(find_string("abc", "d"), None);
    assert!(contains_string("abc", ""));
    assert!(starts_with("abc", "ab") && !starts_with("a", "ab"));
    assert_eq!(strip_prefix("data: x", "data:").as_deref(), Some(" x"));
    assert_eq!(strip_prefix("x", "data:"), None);
    assert_eq!(split_string("a,b,,c", ','), "a,b,,c".split(',').collect::<Vec<_>>());
    assert_eq!(join_strings(&vec!["a".into(), "b".into()], ", "), "a, b");
    assert!(list_has(&vec!["a".into()], "a"));
}

#[test]
fn measuring() {
    assert_eq!(byte_len("字a"), 4);
    assert_eq!(char_count("字a"), 2);
    assert_eq!(head_string("你好吗", 2), "你好");
    assert_eq!(tail_string("你好吗", 2), "好吗");
    assert_eq!(tail_string("你", 2), "你");
    assert_eq!(text_of_bytes(b"a\xffb"), "a\u{fffd}b");
    assert_eq!(ascii_lowercase("ABÉ"), "abÉ");
}

#[test]
fn numbers() {
    for n in [0, 7, 10, 99, 100, u64::MAX] {
        assert_eq!(dec_string(n), n.to_string());
    }
    for n in [0, -1, i64::MIN, i64::MAX] {
        assert_eq!(dec_int_string(n), n.to_string());
    }
    assert_eq!(parse_uint("42", u64::MAX), Some(42));
    assert_eq!(parse_uint("+42", u64::MAX), "+42".parse().ok());
    assert_eq!(parse_uint("", u64::MAX), None);
    assert_eq!(parse_uint("4x", u64::MAX), None);
    assert_eq!(parse_uint("256", 255), None);
    assert_eq!(parse_uint("18446744073709551616", u64::MAX), None);
}

#[test]
fn ordering() {
    assert!(str_less("a", "b") && !str_less("b", "b") && str_less("a", "aa") && str_less("Z", "a"));
    let sorted = sort_strings(vec!["b".into(), "字".into(), "a".into()]);
    assert_eq!(sorted, vec!["a", "b", "字"]);
    assert_eq!(join_path("/a", "b"), "/a/b");
    assert_eq!(join_path("/a/", "b"), "/a/b");
    assert_eq!(join_path("/a", "/b"), "/b");
}

#[test]
fn json_values() {
    let text = r#"{"a":[1,-2,2.5,null,true,"x\n"],"b":{"c":"d"},"big":18446744073709551615}"#;
    let v = Json::read(text).unwrap();
    assert_eq!(v.write(), text);
    let a = v.get("a").unwrap().as_arr().unwrap();
    assert_eq!(a[0].as_u64(), Some(1));
    assert_eq!(a[1].as_i64(), Some(-2));
    assert_eq!(a[1].as_u64(), None);
    assert_eq!(a[2].as_u64(), None);
    assert_eq!(a[4].as_bool(), Some(true));
    assert_eq!(a[5].as_str(), Some("x\n"));
    assert_eq!(v.get2_str("b", "c"), Some("d"));
    assert_eq!(v.get_u64("big"), Some(u64::MAX));
    assert_eq!(v.get_i64("big"), None);
    assert!(v.get("none").is_none());
    assert_eq!(v.dup().write(), text);
    assert!(Json::read("{").is_err());
    let built = Json::obj().with("k", Json::text("v")).with("k", Json::arr().item(Json::Uint(1)));
    assert_eq!(built.write(), r#"{"k":[1]}"#);
    assert_eq!(Json::text_or_null(&None).write(), "null");
    assert_eq!(Json::texts(&vec!["a".into()]).write(), r#"["a"]"#);
}

#[test]
fn names_with_a_dollar_are_not_read_back() {
    // serde_json 以 $ 开头的首个成员名另有含义，写出后读回的是别的值
    let v = Json::obj().with("$serde_json::private::RawValue", Json::text("1"));
    assert_eq!(Json::read(&v.write()).unwrap().as_u64(), Some(1));
    let plain = Json::obj().with("a", Json::text("1"));
    assert_eq!(Json::read(&plain.write()).unwrap().get_str("a"), Some("1"));
}
