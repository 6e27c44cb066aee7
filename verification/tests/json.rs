//! JSON documents, texts and ordered maps.

use onec_export::json::{parse_json, Json};
use onec_export::sorting::sort_by_name;
use onec_export::strmap::{is_before, StrMap};
use onec_export::text::{
    dec_int_of, dec_of, hex_of, lines_of, replaced, same_ignore_case, trimmed, trimmed_end_of,
};

#[test]
fn values_are_read_as_serde_reads_them() {
    let text = r#"{"b": [1, 2.5, -3, "s\u0041", true, null, {}], "a": 1e2}"#;
    let value = match parse_json(text) {
        Some(Json::Object(fields)) => fields,
        other => panic!("{:?}", other),
    };
    assert_eq!(value[0].0, "a");
    assert!(matches!(&value[0].1, Json::Number(n) if n == "100.0"));
    match &value[1].1 {
        Json::List(items) => {
            assert!(matches!(&items[0], Json::Number(n) if n == "1"));
            assert!(matches!(&items[1], Json::Number(n) if n == "2.5"));
            assert!(matches!(&items[2], Json::Number(n) if n == "-3"));
            assert!(matches!(&items[3], Json::Text(s) if s == "sA"));
            assert!(matches!(&items[4], Json::Bool(true)));
            assert!(matches!(&items[5], Json::Null));
            assert!(matches!(&items[6], Json::Object(f) if f.is_empty()));
        }
        other => panic!("{:?}", other),
    }
    assert!(parse_json("{").is_none());
    assert!(parse_json("").is_none());
}

#[test]
fn nesting_is_limited() {
    let deep = |n: usize| format!("{}{}", "[".repeat(n), "]".repeat(n));
    for n in [1, 100, 126, 127, 128, 129, 200] {
        let serde = serde_json::from_str::<serde_json::Value>(&deep(n)).is_ok();
        assert_eq!(parse_json(&deep(n)).is_some(), serde, "{}", n);
    }
}

#[test]
fn fields_are_found_by_name() {
    let value = parse_json(r#"{"name": "Имя", "n": 1}"#).unwrap();
    assert_eq!(value.text("name").as_deref(), Some("Имя"));
    assert_eq!(value.text("n"), None);
    assert!(value.get("n").is_some());
    assert!(value.get("m").is_none());
    assert!(parse_json("[]").unwrap().get("n").is_none());
}

#[test]
fn order_is_that_of_strings() {
    let words = ["", "a", "aa", "b", "А", "Я", "а", "ё", "𝄞"];
    for a in words {
        for b in words {
            assert_eq!(is_before(a, b), a < b, "{} {}", a, b);
        }
    }
    let mut m = StrMap::new();
    for w in words.iter().rev() {
        m.insert(w.to_string(), w.len());
    }
    for (i, w) in words.iter().enumerate() {
        assert_eq!(m.key_at(i), w);
        assert_eq!(*m.value_at(i), w.len());
    }
    m.insert("a".to_string(), 99);
    assert_eq!(m.len(), words.len());
    assert_eq!(m.remove("a"), Some(99));
    assert_eq!(m.get("a"), None);
    assert_eq!(m.len(), words.len() - 1);
}

#[test]
fn sorting_is_stable() {
    let p = |a: &str, b: &str| (a.to_string(), b.to_string());
    let got = sort_by_name(vec![p("b", "1"), p("a", "2"), p("b", "3"), p("a", "4")]);
    assert_eq!(got, vec![p("a", "2"), p("a", "4"), p("b", "1"), p("b", "3")]);
}

#[test]
fn texts_behave_as_those_of_the_standard_library() {
    for s in ["", " a ", "\u{a0}x\u{3000}", "\t\r\n", "a b", "\u{85}a", "\u{200b}a"] {
        assert_eq!(trimmed(s), s.trim(), "{:?}", s);
    }
    for s in ["a\nb", "a\r\nb\r\n", "\n", "", "a\r", "a\n\nb"] {
        assert_eq!(lines_of(s), s.lines().collect::<Vec<_>>(), "{:?}", s);
    }
    assert_eq!(trimmed_end_of("a//", "/"), "a//".trim_end_matches('/'));
    assert_eq!(replaced("aaa", "aa", "b"), "aaa".replace("aa", "b"));
    assert!(same_ignore_case("АbC", "АBc"));
    assert!(!same_ignore_case("а", "А"));
    assert_eq!(dec_of(u64::MAX), u64::MAX.to_string());
    assert_eq!(dec_int_of(i64::MIN), i64::MIN.to_string());
    assert_eq!(hex_of(&[0, 171, 255], true), "00ABFF");
}
