use vstd::prelude::*;
use crate::error::{ErrorInfo, ErrorKind, Fault};
use crate::eval::{eval_in, expr_interval, interval_of, value_of, Data, DataView, Expr};
use crate::value::{drop_pair, put_pair, text_eq, Interval, LitMap, LitView, Literal};

verus! {

/// Where a `goto` leads: a step of the current flow, or a flow and one of its steps.
#[derive(Debug)]
pub struct GotoTarget {
    pub flow: Option<String>,
    pub step: Option<String>,
}

/// One statement of a step.
#[derive(Debug)]
pub enum Action {
    /// Emits the value of the expression as a message.
    Say(Expr),
    /// Stores the value of the expression in memory under the name.
    Remember(String, Expr),
    /// Deletes the memory entry with the name.
    Forget(String),
    /// Moves the conversation to another step.
    Goto(GotoTarget, Interval),
    /// Ends the conversation.
    End,
}

#[derive(Debug)]
pub struct Step {
    pub name: String,
    pub actions: Vec<Action>,
    pub interval: Interval,
}

#[derive(Debug)]
pub struct Flow {
    pub name: String,
    pub steps: Vec<Step>,
}

#[derive(Debug)]
pub struct CsmlBot {
    pub id: String,
    pub name: String,
    pub fn_endpoint: Option<String>,
    pub flows: Vec<Flow>,
    pub custom_components: Option<String>,
    pub default_flow: String,
}

/// A resume point: a flow and one of its steps.
#[derive(Debug)]
pub struct Position {
    pub flow: String,
    pub step: String,
}

/// What one turn produces.
#[derive(Debug)]
pub struct Turn {
    /// Outbound messages, in the order they were emitted.
    pub messages: Vec<Literal>,
    /// The memory after the turn's writes.
    pub memory: LitMap,
    /// Where the next event resumes; `None` once the conversation has ended.
    pub next: Option<Position>,
}

/// The name of the step a flow is entered at.
pub open spec fn start_word() -> Seq<char> {
    seq!['s', 't', 'a', 'r', 't']
}

pub open spec fn first_flow(flows: Seq<Flow>, name: Seq<char>, i: int) -> bool {
    &&& 0 <= i < flows.len()
    &&& flows[i].name@ == name
    &&& forall|j: int| 0 <= j < i ==> (#[trigger] flows[j]).name@ != name
}

pub open spec fn first_step(steps: Seq<Step>, name: Seq<char>, i: int) -> bool {
    &&& 0 <= i < steps.len()
    &&& steps[i].name@ == name
    &&& forall|j: int| 0 <= j < i ==> (#[trigger] steps[j]).name@ != name
}

/// Index of the first flow named `name`.
pub open spec fn flow_index(flows: Seq<Flow>, name: Seq<char>) -> Option<int> {
    if exists|i: int| first_flow(flows, name, i) {
        Some(choose|i: int| first_flow(flows, name, i))
    } else {
        None
    }
}

/// Index of the first step named `name`.
pub open spec fn step_index(steps: Seq<Step>, name: Seq<char>) -> Option<int> {
    if exists|i: int| first_step(steps, name, i) {
        Some(choose|i: int| first_step(steps, name, i))
    } else {
        None
    }
}

/// Indices of the flow and step that a name pair points at.
pub open spec fn locate(bot: CsmlBot, flow: Seq<char>, step: Seq<char>) -> Option<(int, int)> {
    match flow_index(bot.flows@, flow) {
        Some(fi) => match step_index(bot.flows@[fi].steps@, step) {
            Some(si) => Some((fi, si)),
            None => None,
        },
        None => None,
    }
}

/// The flow and step names a `goto` from `current_flow` asks for.
pub open spec fn goto_target(current_flow: Seq<char>, t: GotoTarget) -> (Seq<char>, Seq<char>) {
    (
        match t.flow {
            Some(f) => f@,
            None => current_flow,
        },
        match t.step {
            Some(s) => s@,
            None => start_word(),
        },
    )
}

pub open spec fn goto_resolves(bot: CsmlBot, current_flow: Seq<char>, t: GotoTarget) -> bool {
    let (f, s) = goto_target(current_flow, t);
    locate(bot, f, s) is Some
}

pub open spec fn position_view(p: Position) -> (Seq<char>, Seq<char>) {
    (p.flow@, p.step@)
}

pub open spec fn next_view(p: Option<Position>) -> Option<(Seq<char>, Seq<char>)> {
    match p {
        Some(q) => Some(position_view(q)),
        None => None,
    }
}

/// The state of a step part-way through: messages so far, scopes, and the
/// transition taken, if any (`Some(None)` is an explicit end).
pub struct StepState {
    pub messages: Seq<LitView>,
    pub data: DataView,
    pub jump: Option<Option<(Seq<char>, Seq<char>)>>,
}

/// The effect of one statement.
pub open spec fn apply_action(bot: CsmlBot, here_flow: Seq<char>, a: Action, st: StepState) -> Result<StepState, Fault> {
    match a {
        Action::Say(e) => match value_of(e, st.data, true) {
            Ok(v) => Ok(StepState { messages: st.messages.push(v), ..st }),
            Err(f) => Err(f),
        },
        Action::Remember(k, e) => match value_of(e, st.data, true) {
            Ok(v) => Ok(StepState { data: DataView { memory: put_pair(st.data.memory, k@, v), ..st.data }, ..st }),
            Err(f) => Err(f),
        },
        Action::Forget(k) => Ok(StepState { data: DataView { memory: drop_pair(st.data.memory, k@), ..st.data }, ..st }),
        Action::Goto(t, iv) => if goto_resolves(bot, here_flow, t) {
            Ok(StepState { jump: Some(Some(goto_target(here_flow, t))), ..st })
        } else {
            Err(Fault { kind: ErrorKind::Resolution, interval: iv })
        },
        Action::End => Ok(StepState { jump: Some(None), ..st }),
    }
}

/// Runs statements in order until one fails or one takes a transition.
pub open spec fn run_actions(bot: CsmlBot, here_flow: Seq<char>, acts: Seq<Action>, st0: StepState) -> Result<StepState, Fault>
    decreases acts.len(),
{
    if acts.len() == 0 {
        Ok(st0)
    } else {
        match run_actions(bot, here_flow, acts.drop_last(), st0) {
            Ok(st) => if st.jump is Some {
                Ok(st)
            } else {
                apply_action(bot, here_flow, acts.last(), st)
            },
            Err(f) => Err(f),
        }
    }
}

/// What a turn produces, as mathematical values.
pub struct TurnView {
    pub messages: Seq<LitView>,
    pub memory: Seq<(Seq<char>, LitView)>,
    pub next: Option<(Seq<char>, Seq<char>)>,
}

pub open spec fn turn_view(t: Turn) -> TurnView {
    TurnView {
        messages: t.messages@.map_values(|l: Literal| l@),
        memory: t.memory.pairs(),
        next: next_view(t.next),
    }
}

pub open spec fn turn_outcome(r: Result<Turn, ErrorInfo>) -> Result<TurnView, Fault> {
    match r {
        Ok(t) => Ok(turn_view(t)),
        Err(e) => Err(e.fault()),
    }
}

/// Where a turn starts: the stored resume point, or the default flow's start step.
pub open spec fn resume_point(bot: CsmlBot, at: Option<Position>) -> (Seq<char>, Seq<char>) {
    match at {
        Some(p) => position_view(p),
        None => (bot.default_flow@, start_word()),
    }
}

/// One turn: the step at the resume point runs; without a transition it is held.
pub open spec fn turn_spec(bot: CsmlBot, at: Option<Position>, d: DataView) -> Result<TurnView, Fault> {
    let here = resume_point(bot, at);
    match locate(bot, here.0, here.1) {
        None => Err(Fault { kind: ErrorKind::Resolution, interval: Interval { line: 0, column: 0 } }),
        Some(ix) => {
            let st0 = StepState { messages: Seq::empty(), data: d, jump: None };
            match run_actions(bot, here.0, bot.flows@[ix.0].steps@[ix.1].actions@, st0) {
                Ok(st) => Ok(
                    TurnView {
                        messages: st.messages,
                        memory: st.data.memory,
                        next: match st.jump {
                            None => Some(here),
                            Some(j) => j,
                        },
                    },
                ),
                Err(f) => Err(f),
            }
        },
    }
}

fn find_flow(flows: &Vec<Flow>, name: &str) -> (r: Option<usize>)
    ensures
        match r {
            Some(i) => flow_index(flows@, name@) == Some(i as int),
            None => flow_index(flows@, name@) is None,
        },
{
    let mut i: usize = 0;
    while i < flows.len()
        invariant
            i <= flows@.len(),
            forall|j: int| 0 <= j < i ==> (#[trigger] flows@[j]).name@ != name@,
        decreases flows@.len() - i,
    {
        if text_eq(flows[i].name.as_str(), name) {
            assert(first_flow(flows@, name@, i as int));
            return Some(i);
        }
        i = i + 1;
    }
    None
}

fn find_step(steps: &Vec<Step>, name: &str) -> (r: Option<usize>)
    ensures
        match r {
            Some(i) => step_index(steps@, name@) == Some(i as int),
            None => step_index(steps@, name@) is None,
        },
{
    let mut i: usize = 0;
    while i < steps.len()
        invariant
            i <= steps@.len(),
            forall|j: int| 0 <= j < i ==> (#[trigger] steps@[j]).name@ != name@,
        decreases steps@.len() - i,
    {
        if text_eq(steps[i].name.as_str(), name) {
            assert(first_step(steps@, name@, i as int));
            return Some(i);
        }
        i = i + 1;
    }
    None
}

/// Indices of the flow and step that a name pair points at.
pub fn locate_step(bot: &CsmlBot, flow: &str, step: &str) -> (r: Option<(usize, usize)>)
    ensures
        match r {
            Some((fi, si)) => locate(*bot, flow@, step@) == Some((fi as int, si as int)),
            None => locate(*bot, flow@, step@) is None,
        },
{
    match find_flow(&bot.flows, flow) {
        Some(fi) => match find_step(&bot.flows[fi].steps, step) {
            Some(si) => Some((fi, si)),
            None => None,
        },
        None => None,
    }
}

fn start_name() -> (r: String)
    ensures
        r@ == start_word(),
{
    proof {
        reveal_strlit("start");
        assert("start"@ =~= start_word());
    }
    "start".to_owned()
}

/// The position a `goto` from `current_flow` leads to, when it exists.
pub fn resolve_goto(bot: &CsmlBot, current_flow: &str, t: &GotoTarget) -> (r: Option<Position>)
    ensures
        r is Some <==> goto_resolves(*bot, current_flow@, *t),
        r matches Some(p) ==> position_view(p) == goto_target(current_flow@, *t),
{
    let flow = match &t.flow {
        Some(f) => f.clone(),
        None => current_flow.to_owned(),
    };
    let step = match &t.step {
        Some(s) => s.clone(),
        None => start_name(),
    };
    match locate_step(bot, flow.as_str(), step.as_str()) {
        Some(_) => Some(Position { flow, step }),
        None => None,
    }
}

proof fn lemma_run_stops(bot: CsmlBot, here_flow: Seq<char>, acts: Seq<Action>, n: int, st0: StepState)
    requires
        0 <= n <= acts.len(),
        match run_actions(bot, here_flow, acts.subrange(0, n), st0) {
            Ok(st) => st.jump is Some,
            Err(_) => true,
        },
    ensures
        run_actions(bot, here_flow, acts, st0) == run_actions(bot, here_flow, acts.subrange(0, n), st0),
    decreases acts.len() - n,
{
    if n == acts.len() {
        assert(acts.subrange(0, n) =~= acts);
    } else {
        assert(acts.subrange(0, n + 1).drop_last() =~= acts.subrange(0, n));
        lemma_run_stops(bot, here_flow, acts, n + 1, st0);
    }
}

fn copy_data(d: &Data) -> (r: Data)
    requires
        d.memory.wf(),
    ensures
        r@ == d@,
        r.memory.wf(),
{
    let r = Data {
        memory: d.memory.duplicate(),
        metadata: d.metadata.duplicate(),
        past: d.past.duplicate(),
        event: d.event.duplicate(),
    };
    assert forall|i: int, j: int|
        0 <= i < r.memory.entries@.len() && 0 <= j < r.memory.entries@.len() && i != j
            implies #[trigger] r.memory.entries@[i].key@ != #[trigger] r.memory.entries@[j].key@ by {
        assert(d.memory.entries@[i].key@ != d.memory.entries@[j].key@);
    }
    r
}

/// Runs one turn: the step at the resume point (or at the default flow's start
/// step) executes its statements in order, and the turn reports the messages, the
/// memory after its writes, and where the next event resumes.
pub fn run_turn(bot: &CsmlBot, at: &Option<Position>, data: &Data) -> (r: Result<Turn, ErrorInfo>)
    requires
        data.memory.wf(),
    ensures
        turn_outcome(r) == turn_spec(*bot, *at, data@),
        r matches Ok(t) ==> t.memory.wf(),
{
    let (here_flow, here_step) = match at {
        Some(p) => (p.flow.clone(), p.step.clone()),
        None => (bot.default_flow.clone(), start_name()),
    };
    let ghost here = (here_flow@, here_step@);
    assert(here == resume_point(*bot, *at));
    let (fi, si) = match locate_step(bot, here_flow.as_str(), here_step.as_str()) {
        Some(ix) => ix,
        None => {
            return Err(ErrorInfo::new(ErrorKind::Resolution, "unknown flow or step", Interval { line: 0, column: 0 }));
        },
    };
    proof {
        let fx = choose|x: int| first_flow(bot.flows@, here.0, x);
        assert(first_flow(bot.flows@, here.0, fx));
    }
    let acts = &bot.flows[fi].steps[si].actions;
    let mut w = copy_data(data);
    let ghost st0 = StepState { messages: Seq::empty(), data: data@, jump: None };
    let mut msgs: Vec<Literal> = Vec::new();
    let mut jump: Option<Option<Position>> = None;
    let mut i: usize = 0;
    assert(acts@.subrange(0, 0) =~= Seq::<Action>::empty());
    assert(msgs@.map_values(|l: Literal| l@) =~= Seq::<LitView>::empty());
    while i < acts.len()
        invariant
            i <= acts@.len(),
            here_flow@ == here.0,
            here == resume_point(*bot, *at),
            st0 == (StepState { messages: Seq::empty(), data: data@, jump: None }),
            locate(*bot, here.0, here.1) == Some((fi as int, si as int)),
            fi < bot.flows@.len(),
            si < bot.flows@[fi as int].steps@.len(),
            *acts == bot.flows@[fi as int].steps@[si as int].actions,
            w.memory.wf(),
            jump is None,
            run_actions(*bot, here.0, acts@.subrange(0, i as int), st0) == Ok::<StepState, Fault>(
                StepState { messages: msgs@.map_values(|l: Literal| l@), data: w@, jump: None },
            ),
        decreases acts@.len() - i,
    {
        let ghost pre = acts@.subrange(0, i as int);
        assert(acts@.subrange(0, i + 1).drop_last() =~= pre);
        assert(acts@.subrange(0, i + 1).last() == acts@[i as int]);
        match &acts[i] {
            Action::Say(e) => match eval_in(e, &w, true) {
                Ok(v) => {
                    let ghost before = msgs@.map_values(|l: Literal| l@);
                    let ghost vv = v@;
                    msgs.push(v);
                    assert(msgs@.map_values(|l: Literal| l@) =~= before.push(vv));
                },
                Err(err) => {
                    proof {
                        assert(value_of(*e, w@, true) == Err::<LitView, Fault>(err.fault()));
                        assert(run_actions(*bot, here.0, acts@.subrange(0, i + 1), st0) == Err::<StepState, Fault>(err.fault()));
                        lemma_run_stops(*bot, here.0, acts@, i + 1, st0);
                    }
                    return Err(err);
                },
            },
            Action::Remember(k, e) => match eval_in(e, &w, true) {
                Ok(v) => {
                    w.memory.insert(k.clone(), v);
                },
                Err(err) => {
                    proof {
                        assert(value_of(*e, w@, true) == Err::<LitView, Fault>(err.fault()));
                        assert(run_actions(*bot, here.0, acts@.subrange(0, i + 1), st0) == Err::<StepState, Fault>(err.fault()));
                        lemma_run_stops(*bot, here.0, acts@, i + 1, st0);
                    }
                    return Err(err);
                },
            },
            Action::Forget(k) => {
                w.memory.remove(k.as_str());
            },
            Action::Goto(t, iv) => match resolve_goto(bot, here_flow.as_str(), t) {
                Some(p) => {
                    jump = Some(Some(p));
                },
                None => {
                    proof { lemma_run_stops(*bot, here.0, acts@, i + 1, st0); }
                    return Err(ErrorInfo::new(ErrorKind::Resolution, "unknown step", *iv));
                },
            },
            Action::End => {
                jump = Some(None);
            },
        }
        if jump.is_some() {
            proof { lemma_run_stops(*bot, here.0, acts@, i + 1, st0); }
            let next = match jump {
                Some(j) => j,
                None => None,
            };
            return Ok(Turn { messages: msgs, memory: w.memory, next });
        }
        i = i + 1;
    }
    assert(acts@.subrange(0, acts@.len() as int) =~= acts@);
    Ok(Turn { messages: msgs, memory: w.memory, next: Some(Position { flow: here_flow, step: here_step }) })
}

/// Two runs of the same turn (same bot, resume point and scopes) give the same
/// messages, the same memory and the same resume point.
pub proof fn lemma_turn_deterministic(
    bot: CsmlBot,
    at: Option<Position>,
    d: DataView,
    r1: Result<Turn, ErrorInfo>,
    r2: Result<Turn, ErrorInfo>,
)
    requires
        turn_outcome(r1) == turn_spec(bot, at, d),
        turn_outcome(r2) == turn_spec(bot, at, d),
    ensures
        turn_outcome(r1) == turn_outcome(r2),
{
}

/// The first malformed node of a field path.
pub open spec fn path_fault(p: Expr) -> Option<Fault>
    decreases p,
{
    match p {
        Expr::IdentExpr(_) => None,
        Expr::BuilderExpr(l, r) => match *l {
            Expr::IdentExpr(_) => path_fault(*r),
            other => Some(Fault { kind: ErrorKind::Structure, interval: interval_of(other) }),
        },
        _ => Some(Fault { kind: ErrorKind::Structure, interval: interval_of(p) }),
    }
}

/// The first malformed node of an expression.
pub open spec fn expr_fault(e: Expr) -> Option<Fault>
    decreases e,
{
    match e {
        Expr::BuilderExpr(l, r) => match *l {
            Expr::IdentExpr(_) => path_fault(*r),
            other => Some(Fault { kind: ErrorKind::Structure, interval: interval_of(other) }),
        },
        Expr::ComplexLiteral(items, _) => items_fault(items@),
        _ => None,
    }
}

/// The first malformed node among `items`, left to right.
pub open spec fn items_fault(items: Seq<Expr>) -> Option<Fault>
    decreases items,
{
    if items.len() == 0 {
        None
    } else {
        match items_fault(items.drop_last()) {
            Some(f) => Some(f),
            None => expr_fault(items.last()),
        }
    }
}

/// What is wrong with a statement of a step of flow `flow_name`, if anything.
pub open spec fn action_fault(bot: CsmlBot, flow_name: Seq<char>, a: Action) -> Option<Fault> {
    match a {
        Action::Say(e) => expr_fault(e),
        Action::Remember(_, e) => expr_fault(e),
        Action::Forget(_) => None,
        Action::Goto(t, iv) => if goto_resolves(bot, flow_name, t) {
            None
        } else {
            Some(Fault { kind: ErrorKind::Resolution, interval: iv })
        },
        Action::End => None,
    }
}

pub open spec fn opt_seq(o: Option<Fault>) -> Seq<Fault> {
    match o {
        Some(f) => seq![f],
        None => Seq::empty(),
    }
}

pub open spec fn actions_faults(bot: CsmlBot, flow_name: Seq<char>, acts: Seq<Action>) -> Seq<Fault>
    decreases acts.len(),
{
    if acts.len() == 0 {
        Seq::empty()
    } else {
        actions_faults(bot, flow_name, acts.drop_last()) + opt_seq(action_fault(bot, flow_name, acts.last()))
    }
}

pub open spec fn steps_faults(bot: CsmlBot, flow_name: Seq<char>, steps: Seq<Step>) -> Seq<Fault>
    decreases steps.len(),
{
    if steps.len() == 0 {
        Seq::empty()
    } else {
        steps_faults(bot, flow_name, steps.drop_last()) + actions_faults(bot, flow_name, steps.last().actions@)
    }
}

pub open spec fn flows_faults(bot: CsmlBot, flows: Seq<Flow>) -> Seq<Fault>
    decreases flows.len(),
{
    if flows.len() == 0 {
        Seq::empty()
    } else {
        flows_faults(bot, flows.drop_last()) + steps_faults(bot, flows.last().name@, flows.last().steps@)
    }
}

/// The default flow must have a start step.
pub open spec fn entry_faults(bot: CsmlBot) -> Seq<Fault> {
    if locate(bot, bot.default_flow@, start_word()) is Some {
        Seq::empty()
    } else {
        seq![Fault { kind: ErrorKind::Resolution, interval: Interval { line: 0, column: 0 } }]
    }
}

/// Every error of a bot, in the order flows, steps and statements appear.
pub open spec fn bot_errors(bot: CsmlBot) -> Seq<Fault> {
    entry_faults(bot) + flows_faults(bot, bot.flows@)
}

/// A step without statements is accepted, with a warning.
pub open spec fn steps_warnings(steps: Seq<Step>) -> Seq<Fault>
    decreases steps.len(),
{
    if steps.len() == 0 {
        Seq::empty()
    } else {
        steps_warnings(steps.drop_last()) + if steps.last().actions@.len() == 0 {
            seq![Fault { kind: ErrorKind::Structure, interval: steps.last().interval }]
        } else {
            Seq::empty()
        }
    }
}

pub open spec fn flows_warnings(flows: Seq<Flow>) -> Seq<Fault>
    decreases flows.len(),
{
    if flows.len() == 0 {
        Seq::empty()
    } else {
        flows_warnings(flows.drop_last()) + steps_warnings(flows.last().steps@)
    }
}

pub open spec fn faults_of(v: Seq<ErrorInfo>) -> Seq<Fault> {
    v.map_values(|e: ErrorInfo| e.fault())
}

/// The outcome of validating a bot: errors reject it, warnings do not.
#[derive(Debug)]
pub struct ValidationResult {
    pub errors: Vec<ErrorInfo>,
    pub warnings: Vec<ErrorInfo>,
}

proof fn lemma_items_prefix_fault(items: Seq<Expr>, n: int)
    requires
        0 <= n <= items.len(),
        items_fault(items.subrange(0, n)) is Some,
    ensures
        items_fault(items) == items_fault(items.subrange(0, n)),
    decreases items.len() - n,
{
    if n == items.len() {
        assert(items.subrange(0, n) =~= items);
    } else {
        assert(items.subrange(0, n + 1).drop_last() =~= items.subrange(0, n));
        lemma_items_prefix_fault(items, n + 1);
    }
}

fn fault_info(f: Option<Fault>, message: &str) -> (r: Option<ErrorInfo>)
    ensures
        match f {
            Some(g) => r matches Some(e) && e.fault() == g,
            None => r is None,
        },
{
    match f {
        Some(g) => Some(ErrorInfo::new(g.kind, message, g.interval)),
        None => None,
    }
}

fn check_path(p: &Expr) -> (r: Option<Fault>)
    ensures
        r == path_fault(*p),
    decreases p,
{
    match p {
        Expr::IdentExpr(_) => None,
        Expr::BuilderExpr(l, r) => match &**l {
            Expr::IdentExpr(_) => check_path(r),
            other => Some(Fault { kind: ErrorKind::Structure, interval: expr_interval(other) }),
        },
        _ => Some(Fault { kind: ErrorKind::Structure, interval: expr_interval(p) }),
    }
}

/// The first malformed node of an expression.
pub fn check_expr(e: &Expr) -> (r: Option<Fault>)
    ensures
        r == expr_fault(*e),
    decreases e,
{
    match e {
        Expr::BuilderExpr(l, r) => match &**l {
            Expr::IdentExpr(_) => check_path(r),
            other => Some(Fault { kind: ErrorKind::Structure, interval: expr_interval(other) }),
        },
        Expr::ComplexLiteral(items, _) => {
            let mut i: usize = 0;
            while i < items.len()
                invariant
                    i <= items@.len(),
                    *e == Expr::ComplexLiteral(*items, e->ComplexLiteral_1),
                    items_fault(items@.subrange(0, i as int)) is None,
                decreases items@.len() - i,
            {
                proof {
                    assert(decreases_to!(*e => e->ComplexLiteral_0));
                    assert(decreases_to!(e->ComplexLiteral_0 => e->ComplexLiteral_0[i as int]));
                    assert(items@.subrange(0, i + 1).drop_last() =~= items@.subrange(0, i as int));
                    assert(items@.subrange(0, i + 1).last() == items@[i as int]);
                }
                let f = check_expr(&items[i]);
                if f.is_some() {
                    proof { lemma_items_prefix_fault(items@, i + 1); }
                    return f;
                }
                i = i + 1;
            }
            assert(items@.subrange(0, items@.len() as int) =~= items@);
            None
        },
        _ => None,
    }
}

/// What is wrong with a statement of a step of flow `flow_name`, if anything.
pub fn check_action(bot: &CsmlBot, flow_name: &str, a: &Action) -> (r: Option<Fault>)
    ensures
        r == action_fault(*bot, flow_name@, *a),
{
    match a {
        Action::Say(e) => check_expr(e),
        Action::Remember(_, e) => check_expr(e),
        Action::Forget(_) => None,
        Action::Goto(t, iv) => match resolve_goto(bot, flow_name, t) {
            Some(_) => None,
            None => Some(Fault { kind: ErrorKind::Resolution, interval: *iv }),
        },
        Action::End => None,
    }
}

fn check_steps(bot: &CsmlBot, flow_name: &str, steps: &Vec<Step>, errors: &mut Vec<ErrorInfo>, warnings: &mut Vec<ErrorInfo>)
    ensures
        faults_of(final(errors)@) == faults_of(old(errors)@) + steps_faults(*bot, flow_name@, steps@),
        faults_of(final(warnings)@) == faults_of(old(warnings)@) + steps_warnings(steps@),
{
    let mut i: usize = 0;
    assert(steps@.subrange(0, 0) =~= Seq::<Step>::empty());
    assert(faults_of(errors@) =~= faults_of(old(errors)@) + Seq::<Fault>::empty());
    assert(faults_of(warnings@) =~= faults_of(old(warnings)@) + Seq::<Fault>::empty());
    while i < steps.len()
        invariant
            i <= steps@.len(),
            faults_of(errors@) == faults_of(old(errors)@) + steps_faults(*bot, flow_name@, steps@.subrange(0, i as int)),
            faults_of(warnings@) == faults_of(old(warnings)@) + steps_warnings(steps@.subrange(0, i as int)),
        decreases steps@.len() - i,
    {
        let acts = &steps[i].actions;
        let ghost base = faults_of(errors@);
        let mut k: usize = 0;
        assert(acts@.subrange(0, 0) =~= Seq::<Action>::empty());
        assert(base =~= base + Seq::<Fault>::empty());
        while k < acts.len()
            invariant
                k <= acts@.len(),
                faults_of(errors@) == base + actions_faults(*bot, flow_name@, acts@.subrange(0, k as int)),
            decreases acts@.len() - k,
        {
            let ghost before = errors@;
            match fault_info(check_action(bot, flow_name, &acts[k]), "invalid statement") {
                Some(err) => {
                    errors.push(err);
                },
                None => {},
            }
            proof {
                let s = acts@.subrange(0, k + 1);
                assert(s.drop_last() =~= acts@.subrange(0, k as int));
                assert(s.last() == acts@[k as int]);
                assert(faults_of(errors@) =~= faults_of(before) + opt_seq(action_fault(*bot, flow_name@, acts@[k as int])));
                assert(faults_of(errors@) =~= base + actions_faults(*bot, flow_name@, s));
            }
            k = k + 1;
        }
        assert(acts@.subrange(0, acts@.len() as int) =~= acts@);
        let ghost wbefore = warnings@;
        if acts.len() == 0 {
            warnings.push(ErrorInfo::new(ErrorKind::Structure, "step without statements", steps[i].interval));
            assert(faults_of(warnings@) =~= faults_of(wbefore) + seq![Fault { kind: ErrorKind::Structure, interval: steps@[i as int].interval }]);
        } else {
            assert(faults_of(warnings@) =~= faults_of(wbefore) + Seq::<Fault>::empty());
        }
        proof {
            let s = steps@.subrange(0, i + 1);
            assert(s.drop_last() =~= steps@.subrange(0, i as int));
            assert(s.last() == steps@[i as int]);
            assert(faults_of(errors@) =~= faults_of(old(errors)@) + steps_faults(*bot, flow_name@, s));
            assert(faults_of(warnings@) =~= faults_of(old(warnings)@) + steps_warnings(s));
        }
        i = i + 1;
    }
    assert(steps@.subrange(0, steps@.len() as int) =~= steps@);
}

/// Checks a bot before it runs: the default flow has a start step, every `goto`
/// leads to an existing step, and every expression is well formed. Steps without
/// statements are reported as warnings.
pub fn validate_bot(bot: &CsmlBot) -> (r: ValidationResult)
    ensures
        faults_of(r.errors@) == bot_errors(*bot),
        faults_of(r.warnings@) == flows_warnings(bot.flows@),
{
    let mut errors: Vec<ErrorInfo> = Vec::new();
    let mut warnings: Vec<ErrorInfo> = Vec::new();
    let start = start_name();
    if locate_step(bot, bot.default_flow.as_str(), start.as_str()).is_none() {
        errors.push(ErrorInfo::new(ErrorKind::Resolution, "default flow has no start step", Interval { line: 0, column: 0 }));
    }
    assert(faults_of(errors@) =~= entry_faults(*bot));
    let mut i: usize = 0;
    assert(bot.flows@.subrange(0, 0) =~= Seq::<Flow>::empty());
    assert(faults_of(errors@) =~= entry_faults(*bot) + Seq::<Fault>::empty());
    assert(faults_of(warnings@) =~= Seq::<Fault>::empty());
    while i < bot.flows.len()
        invariant
            i <= bot.flows@.len(),
            faults_of(errors@) == entry_faults(*bot) + flows_faults(*bot, bot.flows@.subrange(0, i as int)),
            faults_of(warnings@) == flows_warnings(bot.flows@.subrange(0, i as int)),
        decreases bot.flows@.len() - i,
    {
        let flow = &bot.flows[i];
        check_steps(bot, flow.name.as_str(), &flow.steps, &mut errors, &mut warnings);
        proof {
            let s = bot.flows@.subrange(0, i + 1);
            assert(s.drop_last() =~= bot.flows@.subrange(0, i as int));
            assert(s.last() == bot.flows@[i as int]);
            assert(faults_of(errors@) =~= entry_faults(*bot) + flows_faults(*bot, s));
        }
        i = i + 1;
    }
    assert(bot.flows@.subrange(0, bot.flows@.len() as int) =~= bot.flows@);
    ValidationResult { errors, warnings }
}

proof fn lemma_actions_clean(bot: CsmlBot, flow_name: Seq<char>, acts: Seq<Action>)
    ensures
        actions_faults(bot, flow_name, acts).len() == 0 <==> forall|k: int|
            0 <= k < acts.len() ==> (#[trigger] action_fault(bot, flow_name, acts[k])) is None,
    decreases acts.len(),
{
    if acts.len() > 0 {
        let p = acts.drop_last();
        lemma_actions_clean(bot, flow_name, p);
        assert forall|k: int| 0 <= k < p.len() implies p[k] == acts[k] by {}
        if actions_faults(bot, flow_name, acts).len() == 0 {
            assert forall|k: int| 0 <= k < acts.len() implies (#[trigger] action_fault(bot, flow_name, acts[k])) is None by {
                if k < p.len() {
                    assert(action_fault(bot, flow_name, p[k]) is None);
                }
            }
        }
        if forall|k: int| 0 <= k < acts.len() ==> (#[trigger] action_fault(bot, flow_name, acts[k])) is None {
            assert(action_fault(bot, flow_name, acts[acts.len() - 1]) is None);
            assert forall|k: int| 0 <= k < p.len() implies (#[trigger] action_fault(bot, flow_name, p[k])) is None by {
                assert(action_fault(bot, flow_name, acts[k]) is None);
            }
        }
    }
}

proof fn lemma_steps_clean(bot: CsmlBot, flow_name: Seq<char>, steps: Seq<Step>)
    ensures
        steps_faults(bot, flow_name, steps).len() == 0 <==> forall|j: int|
            0 <= j < steps.len() ==> (#[trigger] actions_faults(bot, flow_name, steps[j].actions@)).len() == 0,
    decreases steps.len(),
{
    if steps.len() > 0 {
        let p = steps.drop_last();
        lemma_steps_clean(bot, flow_name, p);
        if steps_faults(bot, flow_name, steps).len() == 0 {
            assert forall|j: int| 0 <= j < steps.len() implies (#[trigger] actions_faults(bot, flow_name, steps[j].actions@)).len() == 0 by {
                if j < p.len() {
                    assert(p[j] == steps[j]);
                    assert(actions_faults(bot, flow_name, p[j].actions@).len() == 0);
                }
            }
        }
        if forall|j: int| 0 <= j < steps.len() ==> (#[trigger] actions_faults(bot, flow_name, steps[j].actions@)).len() == 0 {
            assert(actions_faults(bot, flow_name, steps[steps.len() - 1].actions@).len() == 0);
            assert forall|j: int| 0 <= j < p.len() implies (#[trigger] actions_faults(bot, flow_name, p[j].actions@)).len() == 0 by {
                assert(p[j] == steps[j]);
                assert(actions_faults(bot, flow_name, steps[j].actions@).len() == 0);
            }
        }
    }
}

proof fn lemma_flows_clean(bot: CsmlBot, flows: Seq<Flow>)
    ensures
        flows_faults(bot, flows).len() == 0 <==> forall|i: int|
            0 <= i < flows.len() ==> (#[trigger] steps_faults(bot, flows[i].name@, flows[i].steps@)).len() == 0,
    decreases flows.len(),
{
    if flows.len() > 0 {
        let p = flows.drop_last();
        lemma_flows_clean(bot, p);
        if flows_faults(bot, flows).len() == 0 {
            assert forall|i: int| 0 <= i < flows.len() implies (#[trigger] steps_faults(bot, flows[i].name@, flows[i].steps@)).len() == 0 by {
                if i < p.len() {
                    assert(p[i] == flows[i]);
                    assert(steps_faults(bot, p[i].name@, p[i].steps@).len() == 0);
                }
            }
        }
        if forall|i: int| 0 <= i < flows.len() ==> (#[trigger] steps_faults(bot, flows[i].name@, flows[i].steps@)).len() == 0 {
            let l = flows.len() - 1;
            assert(steps_faults(bot, flows[l].name@, flows[l].steps@).len() == 0);
            assert forall|i: int| 0 <= i < p.len() implies (#[trigger] steps_faults(bot, p[i].name@, p[i].steps@)).len() == 0 by {
                assert(p[i] == flows[i]);
                assert(steps_faults(bot, flows[i].name@, flows[i].steps@).len() == 0);
            }
        }
    }
}

/// Every statement of the bot checks out: each `goto` leads to an existing step
/// and each expression is well formed.
pub open spec fn statements_clean(bot: CsmlBot) -> bool {
    forall|i: int, j: int, k: int|
        0 <= i < bot.flows@.len() && 0 <= j < bot.flows@[i].steps@.len() && 0 <= k
            < bot.flows@[i].steps@[j].actions@.len() ==> (#[trigger] action_fault(
            bot,
            bot.flows@[i].name@,
            bot.flows@[i].steps@[j].actions@[k],
        )) is None
}

/// A bot whose default flow has a start step, with no `goto` that leads nowhere
/// and no malformed expression, validates without errors.
pub proof fn lemma_clean_bot_accepted(bot: CsmlBot)
    requires
        locate(bot, bot.default_flow@, start_word()) is Some,
        statements_clean(bot),
    ensures
        bot_errors(bot) == Seq::<Fault>::empty(),
{
    let flows = bot.flows@;
    assert forall|i: int| 0 <= i < flows.len() implies (#[trigger] steps_faults(bot, flows[i].name@, flows[i].steps@)).len() == 0 by {
        let steps = flows[i].steps@;
        assert forall|j: int| 0 <= j < steps.len() implies (#[trigger] actions_faults(bot, flows[i].name@, steps[j].actions@)).len() == 0 by {
            let acts = steps[j].actions@;
            assert forall|k: int| 0 <= k < acts.len() implies (#[trigger] action_fault(bot, flows[i].name@, acts[k])) is None by {
                assert(action_fault(bot, bot.flows@[i].name@, bot.flows@[i].steps@[j].actions@[k]) is None);
            }
            lemma_actions_clean(bot, flows[i].name@, acts);
        }
        lemma_steps_clean(bot, flows[i].name@, steps);
    }
    lemma_flows_clean(bot, flows);
    assert(bot_errors(bot) =~= Seq::<Fault>::empty());
}

/// A bot with a `goto` that leads to no existing step has at least one error,
/// so it is rejected.
pub proof fn lemma_dangling_goto_rejected(bot: CsmlBot, i: int, j: int, k: int)
    requires
        0 <= i < bot.flows@.len(),
        0 <= j < bot.flows@[i].steps@.len(),
        0 <= k < bot.flows@[i].steps@[j].actions@.len(),
        bot.flows@[i].steps@[j].actions@[k] matches Action::Goto(t, _) && !goto_resolves(bot, bot.flows@[i].name@, t),
    ensures
        bot_errors(bot).len() > 0,
{
    let f = bot.flows@[i];
    let st = f.steps@[j];
    assert(action_fault(bot, f.name@, st.actions@[k]) is Some);
    lemma_actions_clean(bot, f.name@, st.actions@);
    lemma_steps_clean(bot, f.name@, f.steps@);
    lemma_flows_clean(bot, bot.flows@);
}

/// Validating the same bot twice reports the same errors both times; for a bot
/// with no errors, none either time.
pub proof fn lemma_revalidation_stable(bot: CsmlBot, r1: ValidationResult, r2: ValidationResult)
    requires
        faults_of(r1.errors@) == bot_errors(bot),
        faults_of(r2.errors@) == bot_errors(bot),
    ensures
        faults_of(r1.errors@) == faults_of(r2.errors@),
        bot_errors(bot).len() == 0 ==> r1.errors@.len() == 0 && r2.errors@.len() == 0,
{
}

} // verus!
