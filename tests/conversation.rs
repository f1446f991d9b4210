use csml_core::db::{init_db, is_dynamodb, is_mongodb, Database, EngineError};
use csml_core::error::ErrorKind;
use csml_core::eval::{Data, Expr, Identifier};
use csml_core::flow::{run_turn, validate_bot, Action, CsmlBot, Flow, GotoTarget, Position, Step, Turn};
use csml_core::routes::GetBotVersionsQuery;
use csml_core::value::{Interval, LitMap, Literal};

fn iv(line: u32) -> Interval {
    Interval::new_as_u32(line, 1)
}

fn say(s: &str) -> Action {
    Action::Say(Expr::LitExpr(Literal::string(s.to_string(), iv(1))))
}

fn goto(flow: Option<&str>, step: Option<&str>, line: u32) -> Action {
    Action::Goto(GotoTarget { flow: flow.map(|f| f.to_string()), step: step.map(|s| s.to_string()) }, iv(line))
}

fn step(name: &str, actions: Vec<Action>) -> Step {
    Step { name: name.to_string(), actions, interval: iv(1) }
}

fn bot(flows: Vec<Flow>) -> CsmlBot {
    CsmlBot {
        id: "bot".to_string(),
        name: "my_bot".to_string(),
        fn_endpoint: None,
        flows,
        custom_components: None,
        default_flow: "default".to_string(),
    }
}

fn sample_bot() -> CsmlBot {
    bot(vec![
        Flow {
            name: "default".to_string(),
            steps: vec![
                step(
                    "start",
                    vec![
                        say("hello"),
                        Action::Remember(
                            "seen".to_string(),
                            Expr::LitExpr(Literal::boolean(true, iv(2))),
                        ),
                        goto(None, Some("ask"), 3),
                        say("never said"),
                    ],
                ),
                step(
                    "ask",
                    vec![Action::Say(Expr::IdentExpr(Identifier { ident: "seen".to_string(), interval: iv(5) }))],
                ),
                step("bye", vec![say("bye"), Action::End]),
            ],
        },
        Flow { name: "other".to_string(), steps: vec![step("start", vec![say("other flow")])] },
    ])
}

fn empty_data() -> Data {
    Data { memory: LitMap::new(), metadata: LitMap::new(), past: LitMap::new(), event: Literal::null(iv(0)) }
}

fn texts(t: &Turn) -> Vec<String> {
    t.messages.iter().map(|m| m.to_text()).collect()
}

fn next(t: &Turn) -> Option<(String, String)> {
    t.next.as_ref().map(|p| (p.flow.clone(), p.step.clone()))
}

#[test]
fn new_conversation_starts_at_default_flow() {
    let b = sample_bot();
    let t = run_turn(&b, &None, &empty_data()).unwrap();
    assert_eq!(texts(&t), vec!["hello".to_string()]);
    assert_eq!(next(&t), Some(("default".to_string(), "ask".to_string())));
    assert_eq!(t.memory.get("seen").unwrap().to_text(), "true");
}

#[test]
fn step_without_transition_is_held() {
    let b = sample_bot();
    let mut data = empty_data();
    data.memory.insert("seen".to_string(), Literal::string("yes".to_string(), iv(1)));
    let at = Some(Position { flow: "default".to_string(), step: "ask".to_string() });
    let t = run_turn(&b, &at, &data).unwrap();
    assert_eq!(texts(&t), vec!["yes".to_string()]);
    assert_eq!(next(&t), Some(("default".to_string(), "ask".to_string())));
}

#[test]
fn end_clears_resume_point() {
    let b = sample_bot();
    let at = Some(Position { flow: "default".to_string(), step: "bye".to_string() });
    let t = run_turn(&b, &at, &empty_data()).unwrap();
    assert_eq!(texts(&t), vec!["bye".to_string()]);
    assert!(t.next.is_none());
}

#[test]
fn goto_other_flow_enters_at_start() {
    let b = bot(vec![
        Flow { name: "default".to_string(), steps: vec![step("start", vec![goto(Some("other"), None, 1)])] },
        Flow { name: "other".to_string(), steps: vec![step("start", vec![say("x")])] },
    ]);
    let t = run_turn(&b, &None, &empty_data()).unwrap();
    assert_eq!(next(&t), Some(("other".to_string(), "start".to_string())));
}

#[test]
fn unknown_resume_point_fails() {
    let b = sample_bot();
    let at = Some(Position { flow: "nowhere".to_string(), step: "start".to_string() });
    let err = run_turn(&b, &at, &empty_data()).unwrap_err();
    assert_eq!(err.kind, ErrorKind::Resolution);
}

#[test]
fn dangling_goto_fails_the_turn() {
    let b = bot(vec![Flow { name: "default".to_string(), steps: vec![step("start", vec![goto(None, Some("gone"), 9)])] }]);
    let err = run_turn(&b, &None, &empty_data()).unwrap_err();
    assert_eq!(err.kind, ErrorKind::Resolution);
    assert_eq!(err.interval, iv(9));
}

#[test]
fn same_turn_twice_gives_same_result() {
    let b = sample_bot();
    let t1 = run_turn(&b, &None, &empty_data()).unwrap();
    let t2 = run_turn(&b, &None, &empty_data()).unwrap();
    assert_eq!(texts(&t1), texts(&t2));
    assert_eq!(next(&t1), next(&t2));
    assert_eq!(t1.memory.len(), t2.memory.len());
}

#[test]
fn valid_bot_has_no_errors() {
    let r = validate_bot(&sample_bot());
    assert!(r.errors.is_empty());
    assert!(r.warnings.is_empty());
}

#[test]
fn dangling_goto_is_rejected() {
    let mut b = sample_bot();
    b.flows[1].steps[0].actions.push(goto(Some("default"), Some("missing"), 14));
    let r = validate_bot(&b);
    assert_eq!(r.errors.len(), 1);
    assert_eq!(r.errors[0].kind, ErrorKind::Resolution);
    assert_eq!(r.errors[0].interval, iv(14));
}

#[test]
fn revalidation_gives_same_errors() {
    let b = sample_bot();
    let r1 = validate_bot(&b);
    let r2 = validate_bot(&b);
    assert!(r1.errors.is_empty());
    assert!(r2.errors.is_empty());
    let mut bad = sample_bot();
    bad.default_flow = "missing".to_string();
    let e1 = validate_bot(&bad);
    let e2 = validate_bot(&bad);
    assert_eq!(e1.errors.len(), 1);
    assert_eq!(e2.errors.len(), 1);
    assert_eq!(e1.errors[0].interval, e2.errors[0].interval);
}

#[test]
fn malformed_expression_and_empty_step() {
    let bad_expr = Expr::BuilderExpr(
        Box::new(Expr::LitExpr(Literal::null(iv(21)))),
        Box::new(Expr::IdentExpr(Identifier { ident: "x".to_string(), interval: iv(22) })),
    );
    let b = bot(vec![Flow {
        name: "default".to_string(),
        steps: vec![step("start", vec![Action::Say(bad_expr)]), step("empty", vec![])],
    }]);
    let r = validate_bot(&b);
    assert_eq!(r.errors.len(), 1);
    assert_eq!(r.errors[0].kind, ErrorKind::Structure);
    assert_eq!(r.errors[0].interval, iv(21));
    assert_eq!(r.warnings.len(), 1);
}

#[test]
fn backend_selection() {
    assert_eq!(init_db(&None).unwrap(), Database::Mongo);
    assert_eq!(init_db(&Some("mongodb".to_string())).unwrap(), Database::Mongo);
    assert_eq!(init_db(&Some("dynamodb".to_string())).unwrap(), Database::Dynamo);
    assert!(matches!(init_db(&Some("sqlite".to_string())), Err(EngineError::Manager(_))));
    assert!(is_mongodb(&None));
    assert!(!is_dynamodb(&None));
}

#[test]
fn default_page_size() {
    assert_eq!(GetBotVersionsQuery { limit: None, last_key: None }.page_size(), 20);
    assert_eq!(GetBotVersionsQuery { limit: Some(5), last_key: None }.page_size(), 5);
}

#[test]
fn forget_deletes_memory_entry() {
    let b = bot(vec![Flow {
        name: "default".to_string(),
        steps: vec![step("start", vec![Action::Forget("token".to_string()), say("done")])],
    }]);
    let mut data = empty_data();
    data.memory.insert("token".to_string(), Literal::string("abc".to_string(), iv(1)));
    data.memory.insert("keep".to_string(), Literal::integer(3, iv(1)));
    let t = run_turn(&b, &None, &data).unwrap();
    assert!(t.memory.get("token").is_none());
    assert_eq!(t.memory.get("keep").unwrap().to_text(), "3");
    assert_eq!(t.memory.len(), 1);
    // the input scopes are left as they were
    assert!(data.memory.get("token").is_some());
}
