use rust_db_engine::json::{
    json_eq, object1, object2, object3, set_field, string_array, Json,
};
use rust_db_engine::numbers::{is_float_literal, parse_i64, parse_u16, parse_u64, u64_to_string};
use rust_db_engine::string_map::{Duplicate, Same, StringMap};
use rust_db_engine::text::{
    is_among, join_with, replace_all, split_on, split_whitespace, str_before, str_contains,
    str_ends_with, str_eq, str_eq_ignore_ascii_case, str_lt, str_starts_with, strip_suffix,
    trim_matches, Strip,
};

#[test]
fn splitting_undoes_joining() {
    let parts = vec!["a".to_string(), "".to_string(), "b c".to_string()];
    let joined = join_with(&parts, ",");
    assert_eq!(joined, "a,,b c");
    assert_eq!(split_on(&joined, ','), parts);
    assert_eq!(join_with(&split_on("x,y,,z", ','), ","), "x,y,,z");
    assert_eq!(split_on("", ','), vec![""]);
}

#[test]
fn white_space_is_trimmed_and_split() {
    assert_eq!(trim_matches("  a b\t", Strip::Space), "a b");
    assert_eq!(trim_matches("\"\"a\"b\"", Strip::Quote), "a\"b");
    assert_eq!(trim_matches("'a'", Strip::Apostrophe), "a");
    assert_eq!(trim_matches("'\"a\"'", Strip::AnyQuote), "a");
    assert_eq!(split_whitespace(" a  b\nc "), vec!["a", "b", "c"]);
}

#[test]
fn texts_are_searched() {
    assert!(str_starts_with("abc", "ab"));
    assert!(!str_starts_with("a", "ab"));
    assert!(str_ends_with("abc", "bc"));
    assert!(str_contains("abcd", "bc"));
    assert!(!str_contains("abcd", "cb"));
    assert_eq!(strip_suffix("t_initial", "_initial"), Some("t".to_string()));
    assert_eq!(strip_suffix("t", "_initial"), None);
    assert_eq!(replace_all("aXbXX", "X", "--"), "a--b----");
    assert_eq!(str_before("a://b://c", "://"), "a");
    assert_eq!(str_before("abc", "x"), "abc");
    assert!(is_among(&vec!["a".to_string(), "b".to_string()], "b"));
    assert!(!is_among(&vec!["a".to_string()], "b"));
}

#[test]
fn texts_are_compared() {
    assert!(str_eq("ab", "ab"));
    assert!(!str_eq("ab", "abc"));
    assert!(str_eq_ignore_ascii_case("AbC", "aBc"));
    assert!(str_lt("a", "ab"));
    assert!(str_lt("ab", "b"));
    assert!(!str_lt("b", "ab"));
}

#[test]
fn numbers_are_read_and_written() {
    assert_eq!(parse_i64("-12"), Some(-12));
    assert_eq!(parse_i64("+7"), Some(7));
    assert_eq!(parse_i64("9223372036854775807"), Some(i64::MAX));
    assert_eq!(parse_i64("-9223372036854775808"), Some(i64::MIN));
    assert_eq!(parse_i64("9223372036854775808"), None);
    assert_eq!(parse_i64(""), None);
    assert_eq!(parse_u64("18446744073709551615"), Some(u64::MAX));
    assert_eq!(parse_u64("-1"), None);
    assert_eq!(parse_u16("65536"), None);
    assert_eq!(parse_u16("8080"), Some(8080));
    assert_eq!(u64_to_string(0), "0");
    assert_eq!(u64_to_string(u64::MAX), "18446744073709551615");
    for s in ["1.5", "-1.", ".5", "1e3", "inf", "NaN", "+2E-1"] {
        assert!(is_float_literal(s));
        assert!(s.parse::<f64>().is_ok());
    }
    for s in ["", ".", "e3", "1e", "1.5x"] {
        assert!(!is_float_literal(s));
        assert!(s.parse::<f64>().is_err());
    }
}

#[test]
fn a_map_keeps_its_keys_in_order() {
    let mut map: StringMap<String> = StringMap::new();
    map.insert("b".to_string(), "1".to_string());
    map.insert("a".to_string(), "2".to_string());
    map.insert("b".to_string(), "3".to_string());
    assert_eq!(map.len(), 2);
    assert_eq!(map.key_at(0), "b");
    assert_eq!(map.value_at(0), "3");
    assert_eq!(map.get("a").unwrap(), "2");
    assert!(map.get("c").is_none());
    let copy = map.duplicate();
    assert!(map.same(&copy));
    assert_eq!(map.remove("b"), Some("3".to_string()));
    assert_eq!(map.remove("b"), None);
    assert!(!map.same(&copy));
    assert_eq!(map.len(), 1);
}

#[test]
fn objects_are_built_and_changed() {
    let value = |s: &str| Json::Str(s.to_string());
    let object = object3("a", Json::Int(1), "b", Json::Null, "c", value("x"));
    assert_eq!(object.get("c").unwrap(), &value("x"));
    assert!(object.get("d").is_none());
    assert_eq!(object.str_field("c").unwrap(), "x");
    assert!(json_eq(&object, &object.copy()));
    assert!(!json_eq(&object1("a", Json::Int(1)), &object1("a", Json::Int(2))));
    assert_ne!(object2("a", Json::Null, "b", Json::Null), object1("a", Json::Null));
    let mut fields = vec![("a".to_string(), Json::Int(1)), ("c".to_string(), Json::Int(3))];
    set_field(&mut fields, "b", Json::Int(2));
    set_field(&mut fields, "a", Json::Int(0));
    assert_eq!(
        fields,
        vec![
            ("a".to_string(), Json::Int(0)),
            ("b".to_string(), Json::Int(2)),
            ("c".to_string(), Json::Int(3))
        ]
    );
    assert_eq!(
        string_array(&vec!["a".to_string()]),
        Json::Array(vec![value("a")])
    );
}
