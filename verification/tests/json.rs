use sting::json::{get_bool, get_str, get_u64, parse, Json, JsonMap};

#[test]
fn parse_and_write() {
    for text in ["null", "true", "false", "42", "-7", "1.5", "\"a\\\"b\"", "[]", "{}"] {
        assert_eq!(parse(text).unwrap().to_string(), text);
    }
    let text = "{\"z\":1,\"a\":[true,null,{\"k\":\"v\"}]}";
    assert_eq!(parse(text).unwrap().to_string(), text);
    assert_eq!(parse(" { \"a\" : 1 } ").unwrap().to_string(), "{\"a\":1}");
    assert!(parse("{").is_err());
    assert!(parse("").is_err());
}

#[test]
fn integers_read_back_as_they_were_written() {
    for text in ["-1", "-9223372036854775808", "18446744073709551615", "[0,-7]"] {
        let doc = parse(text).unwrap();
        assert_eq!(parse(&doc.to_string()).unwrap().to_string(), text);
    }
}

#[test]
fn parse_refuses_what_is_nested_too_deep() {
    let deep = |n: usize| format!("{}{}", "[".repeat(n), "]".repeat(n));
    assert!(parse(&deep(127)).is_ok());
    assert!(parse(&deep(128)).is_err());
}

#[test]
fn later_members_replace_earlier_ones_in_place() {
    assert_eq!(parse("{\"a\":1,\"b\":2,\"a\":3}").unwrap().to_string(), "{\"a\":3,\"b\":2}");
    let mut m = JsonMap::new();
    m.insert("a".into(), Json::Bool(false));
    m.insert("b".into(), Json::Null);
    m.insert("a".into(), Json::Bool(true));
    assert_eq!(m.len(), 2);
    assert_eq!(m.key(0), "a");
    assert!(matches!(m.value(0), Json::Bool(true)));
    assert!(matches!(m.get("b"), Some(Json::Null)));
    assert!(m.get("c").is_none());
    assert_eq!(Json::Object(m.copy()).to_string(), "{\"a\":true,\"b\":null}");
}

#[test]
fn looking_into_documents() {
    let doc = parse("{\"s\":\"x\",\"b\":true,\"n\":7,\"l\":[1,2]}").unwrap();
    assert_eq!(get_str(doc.get("s")).unwrap(), "x");
    assert_eq!(get_bool(doc.get("b")), Some(true));
    assert_eq!(get_u64(doc.get("n")), Some(7));
    assert_eq!(get_u64(doc.get("l").unwrap().at(1)), Some(2));
    assert!(doc.get("l").unwrap().at(2).is_none());
    assert!(doc.at(0).is_none());
    assert!(doc.get("l").unwrap().get("s").is_none());
    assert!(get_str(doc.get("n")).is_none());
    assert!(get_bool(doc.get("s")).is_none());
    assert!(get_u64(None).is_none());
}

#[test]
fn only_non_negative_integers_are_unsigned() {
    let value = |text: &str| get_u64(Some(&parse(text).unwrap()));
    assert_eq!(value("0"), Some(0));
    assert_eq!(value("18446744073709551615"), Some(u64::MAX));
    assert_eq!(value("18446744073709551616"), None);
    assert_eq!(value("-1"), None);
    assert_eq!(value("1.0"), None);
    assert_eq!(value("1e3"), None);
}

#[test]
fn copies_are_the_same() {
    let text = "{\"a\":[1,2.5,{\"b\":\"c\"}],\"d\":null}";
    let doc = parse(text).unwrap();
    assert_eq!(doc.copy().to_string(), text);
}
