use csml_core::error::ErrorKind;
use csml_core::eval::{
    expr_to_literal, gen_literal_form_builder, gen_literal_form_event, gen_literal_form_expr, search_str, Data, Event,
    Expr, Identifier,
};
use csml_core::value::{Interval, LitMap, Literal, Primitive};

fn iv(line: u32, column: u32) -> Interval {
    Interval::new_as_u32(line, column)
}

fn ident(name: &str, line: u32) -> Expr {
    Expr::IdentExpr(Identifier { ident: name.to_string(), interval: iv(line, 1) })
}

fn text_lit(s: &str) -> Expr {
    Expr::LitExpr(Literal::string(s.to_string(), iv(1, 1)))
}

fn empty_data() -> Data {
    Data { memory: LitMap::new(), metadata: LitMap::new(), past: LitMap::new(), event: Literal::null(iv(0, 0)) }
}

fn as_text(l: &Literal) -> String {
    match &l.primitive {
        Primitive::String(s) => s.clone(),
        _ => panic!("not a string"),
    }
}

#[test]
fn literal_expression_evaluates_to_itself() {
    let mut data = empty_data();
    let e = Expr::LitExpr(Literal::integer(42, iv(3, 4)));
    let r = gen_literal_form_expr(&e, &mut data).unwrap();
    assert!(matches!(r.primitive, Primitive::Int(42)));
    assert_eq!(r.interval, iv(3, 4));
    assert!(r.content_type.is_none());
    let r2 = expr_to_literal(&e, &mut data).unwrap();
    assert!(matches!(r2.primitive, Primitive::Int(42)));
}

#[test]
fn expr_rejects_builder_with_its_interval() {
    let mut data = empty_data();
    let e = Expr::BuilderExpr(Box::new(ident("memory", 7)), Box::new(ident("x", 8)));
    let err = gen_literal_form_expr(&e, &mut data).unwrap_err();
    assert_eq!(err.kind, ErrorKind::Structure);
    assert_eq!(err.interval, iv(7, 1));
    assert_eq!(err.message, "Expression must be a literal or an identifier");
}

#[test]
fn template_concatenates_in_order() {
    let mut data = empty_data();
    data.memory.insert("name".to_string(), Literal::string("Ada".to_string(), iv(2, 2)));
    let items = vec![text_lit("Hi "), ident("name", 1), text_lit(" #"), Expr::LitExpr(Literal::integer(-7, iv(1, 1)))];
    let e = Expr::ComplexLiteral(items, iv(9, 9));
    let r = gen_literal_form_builder(&e, &mut data).unwrap();
    assert_eq!(as_text(&r), "Hi Ada #-7");
    assert_eq!(r.interval, iv(9, 9));
}

#[test]
fn template_three_parts_keep_order() {
    let mut data = empty_data();
    let e = Expr::ComplexLiteral(vec![text_lit("a"), text_lit("b"), text_lit("c")], iv(1, 1));
    assert_eq!(as_text(&gen_literal_form_builder(&e, &mut data).unwrap()), "abc");
    let e2 = Expr::ComplexLiteral(vec![text_lit("c"), text_lit("b"), text_lit("a")], iv(1, 1));
    assert_eq!(as_text(&gen_literal_form_builder(&e2, &mut data).unwrap()), "cba");
}

#[test]
fn template_stops_at_first_failure() {
    let mut data = empty_data();
    let e = Expr::ComplexLiteral(vec![text_lit("a"), ident("missing", 4), ident("other", 5)], iv(1, 1));
    let err = gen_literal_form_builder(&e, &mut data).unwrap_err();
    assert_eq!(err.kind, ErrorKind::Resolution);
    assert_eq!(err.interval, iv(4, 1));
}

#[test]
fn template_renders_nested_values_as_json() {
    let mut data = empty_data();
    let mut obj = LitMap::new();
    obj.insert("k".to_string(), Literal::boolean(true, iv(1, 1)));
    obj.insert("s".to_string(), Literal::string("v".to_string(), iv(1, 1)));
    data.memory.insert("o".to_string(), Literal::object(obj, iv(1, 1)));
    let e = Expr::ComplexLiteral(vec![ident("o", 1)], iv(1, 1));
    assert_eq!(as_text(&gen_literal_form_builder(&e, &mut data).unwrap()), "{\"k\":true,\"s\":\"v\"}");
}

#[test]
fn event_absent_gives_null() {
    let r = gen_literal_form_event(&None, iv(5, 6)).unwrap();
    assert!(matches!(r.primitive, Primitive::Null));
    assert_eq!(r.interval, iv(5, 6));
}

#[test]
fn event_present_gives_payload() {
    let ev = Some(Event { payload: "hello".to_string() });
    let r = gen_literal_form_event(&ev, iv(2, 3)).unwrap();
    assert_eq!(as_text(&r), "hello");
    assert_eq!(r.interval, iv(2, 3));
}

#[test]
fn search_str_matches_identifiers_only() {
    assert!(search_str("memory", &ident("memory", 1)));
    assert!(!search_str("memory", &ident("metadata", 1)));
    assert!(!search_str("memory", &text_lit("memory")));
}

#[test]
fn builder_reads_memory_scope_and_nested_fields() {
    let mut data = empty_data();
    let mut inner = LitMap::new();
    inner.insert("city".to_string(), Literal::string("Paris".to_string(), iv(1, 1)));
    data.memory.insert("user".to_string(), Literal::object(inner, iv(1, 1)));
    let path = Expr::BuilderExpr(Box::new(ident("user", 2)), Box::new(ident("city", 3)));
    let e = Expr::BuilderExpr(Box::new(ident("memory", 1)), Box::new(path));
    assert_eq!(as_text(&gen_literal_form_builder(&e, &mut data).unwrap()), "Paris");
    let direct = Expr::BuilderExpr(Box::new(ident("user", 2)), Box::new(ident("city", 3)));
    assert_eq!(as_text(&gen_literal_form_builder(&direct, &mut data).unwrap()), "Paris");
    let missing = Expr::BuilderExpr(Box::new(ident("user", 2)), Box::new(ident("zip", 6)));
    let err = gen_literal_form_builder(&missing, &mut data).unwrap_err();
    assert_eq!(err.kind, ErrorKind::Resolution);
    assert_eq!(err.interval, iv(6, 1));
}

#[test]
fn builder_reads_metadata_and_past_scopes() {
    let mut data = empty_data();
    data.metadata.insert("lang".to_string(), Literal::string("fr".to_string(), iv(1, 1)));
    data.past.insert("lang".to_string(), Literal::string("en".to_string(), iv(1, 1)));
    let m = Expr::BuilderExpr(Box::new(ident("metadata", 1)), Box::new(ident("lang", 1)));
    let p = Expr::BuilderExpr(Box::new(ident("past", 1)), Box::new(ident("lang", 1)));
    assert_eq!(as_text(&gen_literal_form_builder(&m, &mut data).unwrap()), "fr");
    assert_eq!(as_text(&gen_literal_form_builder(&p, &mut data).unwrap()), "en");
    // a bare name prefers metadata over past results
    assert_eq!(as_text(&gen_literal_form_builder(&ident("lang", 1), &mut data).unwrap()), "fr");
}

#[test]
fn builder_with_non_identifier_left_side_fails() {
    let mut data = empty_data();
    let e = Expr::BuilderExpr(Box::new(text_lit("x")), Box::new(ident("y", 1)));
    let err = gen_literal_form_builder(&e, &mut data).unwrap_err();
    assert_eq!(err.kind, ErrorKind::Structure);
    assert_eq!(err.message, "Error in Object builder");
}

#[test]
fn builder_rejects_inline_constant() {
    let mut data = empty_data();
    let err = gen_literal_form_builder(&Expr::LitExpr(Literal::null(iv(4, 4))), &mut data).unwrap_err();
    assert_eq!(err.kind, ErrorKind::Structure);
    assert_eq!(err.interval, iv(4, 4));
}

#[test]
fn unknown_identifier_is_a_resolution_error() {
    let mut data = empty_data();
    let err = gen_literal_form_expr(&ident("nope", 12), &mut data).unwrap_err();
    assert_eq!(err.kind, ErrorKind::Resolution);
    assert_eq!(err.interval, iv(12, 1));
}

#[test]
fn event_name_resolves_to_event() {
    let mut data = empty_data();
    data.event = Literal::string("ping".to_string(), iv(1, 1));
    assert_eq!(as_text(&gen_literal_form_expr(&ident("event", 1), &mut data).unwrap()), "ping");
}

#[test]
fn duplicate_is_independent() {
    let mut m = LitMap::new();
    m.insert("a".to_string(), Literal::integer(1, iv(1, 1)));
    let original = Literal::object(m, iv(1, 1));
    let mut copy = original.duplicate();
    if let Primitive::Object(ref mut inner) = copy.primitive {
        inner.insert("a".to_string(), Literal::integer(2, iv(1, 1)));
    }
    assert_eq!(original.to_text(), "{\"a\":1}");
    assert_eq!(copy.to_text(), "{\"a\":2}");
}

#[test]
fn arrays_and_null_render() {
    let arr = Literal {
        content_type: None,
        interval: iv(1, 1),
        primitive: Primitive::Array(vec![
            Literal::integer(1, iv(1, 1)),
            Literal::null(iv(1, 1)),
            Literal::boolean(false, iv(1, 1)),
        ]),
    };
    assert_eq!(arr.to_text(), "[1,null,false]");
    assert_eq!(Literal::integer(-120, iv(1, 1)).to_text(), "-120");
}

#[test]
fn expr_rejects_template_with_message() {
    let mut data = empty_data();
    let e = Expr::ComplexLiteral(vec![text_lit("a")], iv(3, 3));
    let err = gen_literal_form_expr(&e, &mut data).unwrap_err();
    assert_eq!(err.message, "Expression must be a literal or an identifier");
    assert_eq!(err.interval, iv(3, 3));
}
