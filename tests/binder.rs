use csml_core::args::ArgsType;
use csml_core::error::ErrorKind;
use csml_core::value::{Interval, LitMap, Literal, Primitive};

fn iv() -> Interval {
    Interval::new_as_u32(1, 1)
}

fn s(v: &str) -> Literal {
    Literal::string(v.to_string(), iv())
}

fn text(l: &Literal) -> String {
    l.to_text()
}

fn json_object(keys: &[&str]) -> serde_json::Value {
    let mut m = serde_json::Map::new();
    for k in keys {
        m.insert(k.to_string(), serde_json::Value::Bool(true));
    }
    serde_json::Value::Object(m)
}

fn map_of(pairs: &[(&str, &str)]) -> LitMap {
    let mut m = LitMap::new();
    for (k, v) in pairs {
        m.insert(k.to_string(), s(v));
    }
    m
}

#[test]
fn named_get_prefers_key() {
    let a = ArgsType::Named(map_of(&[("x", "by-name"), ("arg0", "first")]));
    assert_eq!(text(a.get("x", 0).unwrap()), "by-name");
}

#[test]
fn named_get_falls_back_to_first_position() {
    let a = ArgsType::Named(map_of(&[("arg0", "first")]));
    assert_eq!(text(a.get("x", 0).unwrap()), "first");
    assert!(a.get("x", 1).is_none());
}

#[test]
fn named_get_none_when_absent() {
    let a = ArgsType::Named(map_of(&[("y", "other")]));
    assert!(a.get("x", 0).is_none());
}

#[test]
fn normal_get_ignores_key() {
    let a = ArgsType::Normal(map_of(&[("arg0", "zero"), ("arg1", "one"), ("x", "named")]));
    assert_eq!(text(a.get("x", 1).unwrap()), "one");
    assert_eq!(text(a.get("whatever", 0).unwrap()), "zero");
    assert!(a.get("x", 2).is_none());
}

#[test]
fn normal_populate_too_many_arguments() {
    let a = ArgsType::Normal(map_of(&[("arg0", "a"), ("arg1", "b"), ("arg2", "c")]));
    let mut target = LitMap::new();
    let err = a.populate(&mut target, &["p", "q"], Interval::new_as_u32(4, 2)).unwrap_err();
    assert_eq!(err.kind, ErrorKind::Binding);
    assert_eq!(err.message, "too many arguments");
    assert_eq!(err.interval, Interval::new_as_u32(4, 2));
    assert_eq!(target.len(), 0);
}

#[test]
fn normal_populate_enough_parameters() {
    let a = ArgsType::Normal(map_of(&[("arg0", "a"), ("arg1", "b")]));
    let mut target = LitMap::new();
    assert!(a.populate(&mut target, &["p", "q"], iv()).is_ok());
    assert!(a.populate(&mut target, &["p", "q", "r"], iv()).is_ok());
    assert_eq!(target.len(), 0);
}

#[test]
fn named_populate_forwards_undeclared() {
    let a = ArgsType::Named(map_of(&[("arg0", "first"), ("text", "t"), ("color", "red"), ("size", "2")]));
    let mut target = map_of(&[("size", "old")]);
    a.populate(&mut target, &["text"], iv()).unwrap();
    assert_eq!(target.len(), 2);
    assert_eq!(text(target.get("color").unwrap()), "red");
    assert_eq!(text(target.get("size").unwrap()), "2");
    assert!(target.get("text").is_none());
    assert!(target.get("arg0").is_none());
}

#[test]
fn json_populate_skips_declared_keys() {
    let a = ArgsType::Named(map_of(&[("arg0", "first"), ("title", "t"), ("extra", "e")]));
    let mut target = LitMap::new();
    let declared = vec![json_object(&["title"]), serde_json::Value::String("extra".to_string())];
    a.populate_json_to_literal(&mut target, &declared, iv()).unwrap();
    assert_eq!(target.len(), 1);
    assert_eq!(text(target.get("extra").unwrap()), "e");
}

#[test]
fn json_populate_counts_positional() {
    let a = ArgsType::Normal(map_of(&[("arg0", "a"), ("arg1", "b")]));
    let mut target = LitMap::new();
    let one = vec![json_object(&["p"])];
    let err = a.populate_json_to_literal(&mut target, &one, iv()).unwrap_err();
    assert_eq!(err.kind, ErrorKind::Binding);
    let two = vec![json_object(&["p"]), json_object(&["q"])];
    assert!(a.populate_json_to_literal(&mut target, &two, iv()).is_ok());
}

#[test]
fn args_to_debug_wraps_arguments() {
    let mut m = LitMap::new();
    m.insert("a".to_string(), Literal::integer(1, iv()));
    m.insert("b".to_string(), s("x"));
    let lit = ArgsType::Normal(m).args_to_debug(Interval::new_as_u32(3, 3));
    assert_eq!(lit.content_type.as_deref(), Some("debug"));
    assert_eq!(lit.interval, Interval::new_as_u32(3, 3));
    match &lit.primitive {
        Primitive::Object(obj) => {
            assert_eq!(obj.len(), 1);
            assert_eq!(text(obj.get("debug").unwrap()), "{\"a\":1,\"b\":\"x\"}");
        }
        _ => panic!("expected an object"),
    }
}

#[test]
fn positional_names_use_decimal_index() {
    let mut m = LitMap::new();
    for i in 0..12 {
        m.insert(format!("arg{}", i), Literal::integer(i as i64, iv()));
    }
    let a = ArgsType::Normal(m);
    assert_eq!(text(a.get("x", 10).unwrap()), "10");
    assert_eq!(text(a.get("x", 11).unwrap()), "11");
    assert!(a.get("x", 12).is_none());
}

#[test]
fn debug_text_escapes_strings() {
    let mut m = LitMap::new();
    m.insert("q\"k".to_string(), s("a\"b\\c\nd"));
    let lit = ArgsType::Named(m).args_to_debug(iv());
    match &lit.primitive {
        Primitive::Object(obj) => {
            let t = text(obj.get("debug").unwrap());
            assert_eq!(t, "{\"q\\\"k\":\"a\\\"b\\\\c\\nd\"}");
            let parsed: serde_json::Value = serde_json::from_str(&t).unwrap();
            assert_eq!(parsed["q\"k"], serde_json::Value::String("a\"b\\c\nd".to_string()));
        }
        _ => panic!("expected an object"),
    }
}

#[test]
fn json_populate_error_message() {
    let a = ArgsType::Normal(map_of(&[("arg0", "a")]));
    let mut target = LitMap::new();
    let none: Vec<serde_json::Value> = Vec::new();
    let err = a.populate_json_to_literal(&mut target, &none, iv()).unwrap_err();
    assert_eq!(err.message, "too many arguments");
}
