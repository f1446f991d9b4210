use vstd::prelude::*;
use vstd::string::StringExecFns;
use crate::error::{outcome, ErrorInfo, ErrorKind, Fault};
use crate::value::{text_eq, text_of, Interval, LitMap, LitView, Literal, Primitive, Val};

verus! {

/// A name in the source, with its position.
#[derive(Debug)]
pub struct Identifier {
    pub ident: String,
    pub interval: Interval,
}

/// A node of the parsed source.
#[derive(Debug)]
pub enum Expr {
    /// An inline constant.
    LitExpr(Literal),
    /// A name reference.
    IdentExpr(Identifier),
    /// A chained access such as `memory.foo.bar`.
    BuilderExpr(Box<Expr>, Box<Expr>),
    /// A template: the texts of its parts, in order.
    ComplexLiteral(Vec<Expr>, Interval),
}

/// An inbound event.
#[derive(Debug)]
pub struct Event {
    pub payload: String,
}

/// The context of one turn: the scopes that names resolve against.
#[derive(Debug)]
pub struct Data {
    pub memory: LitMap,
    pub metadata: LitMap,
    pub past: LitMap,
    pub event: Literal,
}

/// The scopes of a turn, as mathematical values.
pub struct DataView {
    pub memory: Seq<(Seq<char>, LitView)>,
    pub metadata: Seq<(Seq<char>, LitView)>,
    pub past: Seq<(Seq<char>, LitView)>,
    pub event: LitView,
}

impl Data {
    pub open spec fn view(&self) -> DataView {
        DataView {
            memory: self.memory.pairs(),
            metadata: self.metadata.pairs(),
            past: self.past.pairs(),
            event: self.event@,
        }
    }
}

pub open spec fn memory_word() -> Seq<char> {
    seq!['m', 'e', 'm', 'o', 'r', 'y']
}

pub open spec fn metadata_word() -> Seq<char> {
    seq!['m', 'e', 't', 'a', 'd', 'a', 't', 'a']
}

pub open spec fn past_word() -> Seq<char> {
    seq!['p', 'a', 's', 't']
}

pub open spec fn event_word() -> Seq<char> {
    seq!['e', 'v', 'e', 'n', 't']
}

/// The position a diagnostic about `e` points at.
pub open spec fn interval_of(e: Expr) -> Interval
    decreases e,
{
    match e {
        Expr::LitExpr(l) => l.interval,
        Expr::IdentExpr(id) => id.interval,
        Expr::BuilderExpr(l, _) => interval_of(*l),
        Expr::ComplexLiteral(_, iv) => iv,
    }
}

/// The value of the first field named `name`.
pub open spec fn find_field(fields: Seq<(Seq<char>, LitView)>, name: Seq<char>) -> Option<LitView>
    decreases fields.len(),
{
    if fields.len() == 0 {
        None
    } else if fields[0].0 == name {
        Some(fields[0].1)
    } else {
        find_field(fields.drop_first(), name)
    }
}

/// Follows a field path (`a` or `a.b.c`) through nested objects.
pub open spec fn path_in(fields: Seq<(Seq<char>, LitView)>, path: Expr) -> Result<LitView, Fault>
    decreases path,
{
    match path {
        Expr::IdentExpr(id) => match find_field(fields, id.ident@) {
            Some(v) => Ok(v),
            None => Err(Fault { kind: ErrorKind::Resolution, interval: id.interval }),
        },
        Expr::BuilderExpr(l, r) => match *l {
            Expr::IdentExpr(id) => match find_field(fields, id.ident@) {
                Some(v) => match v.val {
                    Val::Object(inner) => path_in(inner, *r),
                    _ => Err(Fault { kind: ErrorKind::Resolution, interval: interval_of(*r) }),
                },
                None => Err(Fault { kind: ErrorKind::Resolution, interval: id.interval }),
            },
            other => Err(Fault { kind: ErrorKind::Structure, interval: interval_of(other) }),
        },
        _ => Err(Fault { kind: ErrorKind::Structure, interval: interval_of(path) }),
    }
}

/// Field path access on a value, which must be an object.
pub open spec fn decompose(v: LitView, path: Expr) -> Result<LitView, Fault> {
    match v.val {
        Val::Object(fields) => path_in(fields, path),
        _ => Err(Fault { kind: ErrorKind::Resolution, interval: interval_of(path) }),
    }
}

/// A bare name: the event, then memory, then metadata, then past results.
pub open spec fn var_value(name: Seq<char>, interval: Interval, d: DataView) -> Result<LitView, Fault> {
    if name == event_word() {
        Ok(d.event)
    } else if find_field(d.memory, name) is Some {
        Ok(find_field(d.memory, name)->Some_0)
    } else if find_field(d.metadata, name) is Some {
        Ok(find_field(d.metadata, name)->Some_0)
    } else if find_field(d.past, name) is Some {
        Ok(find_field(d.past, name)->Some_0)
    } else {
        Err(Fault { kind: ErrorKind::Resolution, interval })
    }
}

/// The scope that a keyword names.
pub open spec fn scope_of(name: Seq<char>, d: DataView) -> Option<Seq<(Seq<char>, LitView)>> {
    if name == memory_word() {
        Some(d.memory)
    } else if name == metadata_word() {
        Some(d.metadata)
    } else if name == past_word() {
        Some(d.past)
    } else {
        None
    }
}

/// The value of an expression. An inline constant is accepted only when `lit_ok`.
pub open spec fn value_of(e: Expr, d: DataView, lit_ok: bool) -> Result<LitView, Fault>
    decreases e,
{
    match e {
        Expr::LitExpr(l) => if lit_ok {
            Ok(l@)
        } else {
            Err(Fault { kind: ErrorKind::Structure, interval: l.interval })
        },
        Expr::IdentExpr(id) => var_value(id.ident@, id.interval, d),
        Expr::BuilderExpr(l, r) => match *l {
            Expr::IdentExpr(id) => match scope_of(id.ident@, d) {
                Some(fields) => path_in(fields, *r),
                None => match var_value(id.ident@, id.interval, d) {
                    Ok(v) => decompose(v, *r),
                    Err(f) => Err(f),
                },
            },
            other => Err(Fault { kind: ErrorKind::Structure, interval: interval_of(other) }),
        },
        Expr::ComplexLiteral(items, iv) => match concat_value(items@, d) {
            Ok(s) => Ok(LitView { content_type: None, interval: iv, val: Val::Str(s) }),
            Err(f) => Err(f),
        },
    }
}

/// The texts of the values of `items`, left to right; the first failure stops it.
pub open spec fn concat_value(items: Seq<Expr>, d: DataView) -> Result<Seq<char>, Fault>
    decreases items,
{
    if items.len() == 0 {
        Ok(Seq::empty())
    } else {
        match concat_value(items.drop_last(), d) {
            Ok(s) => match value_of(items.last(), d, true) {
                Ok(v) => Ok(s + text_of(v)),
                Err(f) => Err(f),
            },
            Err(f) => Err(f),
        }
    }
}

/// A result seen through the views of its literal and its diagnostic.
pub open spec fn view_outcome(r: Result<Literal, ErrorInfo>) -> Result<LitView, Fault> {
    match r {
        Ok(l) => Ok(l@),
        Err(e) => Err(e.fault()),
    }
}

pub proof fn lemma_object_view(l: Literal)
    requires
        l.primitive is Object,
    ensures
        l@.val == Val::Object(l.primitive->Object_0.pairs()),
{
    assert(l@.val->Object_0 =~= l.primitive->Object_0.pairs());
}

proof fn lemma_concat_prefix_err(items: Seq<Expr>, n: int, d: DataView)
    requires
        0 <= n <= items.len(),
        concat_value(items.subrange(0, n), d) is Err,
    ensures
        concat_value(items, d) == concat_value(items.subrange(0, n), d),
    decreases items.len() - n,
{
    if n == items.len() {
        assert(items.subrange(0, n) =~= items);
    } else {
        let s = items.subrange(0, n + 1);
        assert(s.drop_last() =~= items.subrange(0, n));
        lemma_concat_prefix_err(items, n + 1, d);
    }
}

/// The position a diagnostic about `e` points at.
pub fn expr_interval(e: &Expr) -> (r: Interval)
    ensures
        r == interval_of(*e),
    decreases e,
{
    match e {
        Expr::LitExpr(l) => l.interval,
        Expr::IdentExpr(id) => id.interval,
        Expr::BuilderExpr(l, _) => expr_interval(l),
        Expr::ComplexLiteral(_, iv) => *iv,
    }
}

/// Position of the first entry of `m` named `name`.
fn first_index(m: &LitMap, name: &str) -> (r: Option<usize>)
    ensures
        match r {
            Some(i) => i < m.entries@.len() && find_field(m.pairs(), name@) == Some(m.entries@[i as int].value@),
            None => find_field(m.pairs(), name@) is None,
        },
{
    let ghost all = m.pairs();
    assert(all.subrange(0, all.len() as int) =~= all);
    let mut i: usize = 0;
    while i < m.entries.len()
        invariant
            i <= m.entries@.len(),
            all == m.pairs(),
            find_field(all, name@) == find_field(all.subrange(i as int, all.len() as int), name@),
        decreases m.entries@.len() - i,
    {
        let ghost rest = all.subrange(i as int, all.len() as int);
        assert(rest[0] == all[i as int]);
        if text_eq(m.entries[i].key.as_str(), name) {
            return Some(i);
        }
        assert(rest.drop_first() =~= all.subrange(i + 1, all.len() as int));
        i = i + 1;
    }
    None
}

/// Follows a field path through the entries of `m` and copies what it reaches.
pub fn path_in_map(m: &LitMap, path: &Expr) -> (r: Result<Literal, ErrorInfo>)
    ensures
        view_outcome(r) == path_in(m.pairs(), *path),
    decreases path,
{
    match path {
        Expr::IdentExpr(id) => match first_index(m, id.ident.as_str()) {
            Some(i) => Ok(m.entries[i].value.duplicate()),
            None => Err(ErrorInfo::new(ErrorKind::Resolution, "unknown field", id.interval)),
        },
        Expr::BuilderExpr(l, r) => match &**l {
            Expr::IdentExpr(id) => match first_index(m, id.ident.as_str()) {
                Some(i) => match &m.entries[i].value.primitive {
                    Primitive::Object(inner) => {
                        proof { lemma_object_view(m.entries@[i as int].value); }
                        path_in_map(inner, r)
                    },
                    _ => Err(ErrorInfo::new(ErrorKind::Resolution, "value is not an object", expr_interval(r))),
                },
                None => Err(ErrorInfo::new(ErrorKind::Resolution, "unknown field", id.interval)),
            },
            other => Err(ErrorInfo::new(ErrorKind::Structure, "Error in Object builder", expr_interval(other))),
        },
        _ => Err(ErrorInfo::new(ErrorKind::Structure, "Error in Object builder", expr_interval(path))),
    }
}

/// Field path access on a literal, which must be an object.
pub fn decompose_object(lit: &Literal, path: &Expr) -> (r: Result<Literal, ErrorInfo>)
    ensures
        view_outcome(r) == decompose(lit@, *path),
{
    match &lit.primitive {
        Primitive::Object(m) => {
            proof { lemma_object_view(*lit); }
            path_in_map(m, path)
        },
        _ => Err(ErrorInfo::new(ErrorKind::Resolution, "value is not an object", expr_interval(path))),
    }
}

fn var_in(name: &str, interval: Interval, d: &Data) -> (r: Result<Literal, ErrorInfo>)
    ensures
        view_outcome(r) == var_value(name@, interval, d@),
{
    proof {
        reveal_strlit("event");
        assert("event"@ =~= event_word());
    }
    if text_eq(name, "event") {
        return Ok(d.event.duplicate());
    }
    match first_index(&d.memory, name) {
        Some(i) => { return Ok(d.memory.entries[i].value.duplicate()); },
        None => {},
    }
    match first_index(&d.metadata, name) {
        Some(i) => { return Ok(d.metadata.entries[i].value.duplicate()); },
        None => {},
    }
    match first_index(&d.past, name) {
        Some(i) => Ok(d.past.entries[i].value.duplicate()),
        None => Err(ErrorInfo::new(ErrorKind::Resolution, "unknown variable", interval)),
    }
}

/// Resolves a bare name: the event, then memory, then metadata, then past results.
pub fn get_var(ident: &Identifier, data: &Data) -> (r: Result<Literal, ErrorInfo>)
    ensures
        view_outcome(r) == var_value(ident.ident@, ident.interval, data@),
{
    var_in(ident.ident.as_str(), ident.interval, data)
}

fn scope_map<'a>(name: &str, d: &'a Data) -> (r: Option<&'a LitMap>)
    ensures
        match scope_of(name@, d@) {
            Some(f) => r matches Some(m) && m.pairs() == f,
            None => r is None,
        },
{
    proof {
        reveal_strlit("memory");
        reveal_strlit("metadata");
        reveal_strlit("past");
        assert("memory"@ =~= memory_word());
        assert("metadata"@ =~= metadata_word());
        assert("past"@ =~= past_word());
    }
    if text_eq(name, "memory") {
        Some(&d.memory)
    } else if text_eq(name, "metadata") {
        Some(&d.metadata)
    } else if text_eq(name, "past") {
        Some(&d.past)
    } else {
        None
    }
}

/// Evaluates `e`; an inline constant is accepted only when `lit_ok`.
pub(crate) fn eval_in(e: &Expr, d: &Data, lit_ok: bool) -> (r: Result<Literal, ErrorInfo>)
    ensures
        view_outcome(r) == value_of(*e, d@, lit_ok),
        (*e is BuilderExpr && !((*e->BuilderExpr_0) is IdentExpr)) ==> (r matches Err(x) && x.message@
            == "Error in Object builder"@),
    decreases e,
{
    match e {
        Expr::LitExpr(l) => if lit_ok {
            Ok(l.duplicate())
        } else {
            Err(ErrorInfo::new(ErrorKind::Structure, "Error in Expression builder", l.interval))
        },
        Expr::IdentExpr(id) => get_var(id, d),
        Expr::BuilderExpr(l, r) => match &**l {
            Expr::IdentExpr(id) => match scope_map(id.ident.as_str(), d) {
                Some(m) => path_in_map(m, r),
                None => match get_var(id, d) {
                    Ok(v) => decompose_object(&v, r),
                    Err(err) => Err(err),
                },
            },
            other => Err(ErrorInfo::new(ErrorKind::Structure, "Error in Object builder", expr_interval(other))),
        },
        Expr::ComplexLiteral(items, iv) => {
            let mut acc = String::new();
            let mut i: usize = 0;
            while i < items.len()
                invariant
                    i <= items@.len(),
                    *e == Expr::ComplexLiteral(*items, *iv),
                    concat_value(items@.subrange(0, i as int), d@) == Ok::<Seq<char>, Fault>(acc@),
                decreases items@.len() - i,
            {
                proof {
                    assert(decreases_to!(*e => e->ComplexLiteral_0));
                    assert(decreases_to!(e->ComplexLiteral_0 => e->ComplexLiteral_0[i as int]));
                }
                let ghost s = items@.subrange(0, i + 1);
                proof {
                    assert(s.drop_last() =~= items@.subrange(0, i as int));
                    assert(s.last() == items@[i as int]);
                }
                match eval_in(&items[i], d, true) {
                    Ok(v) => {
                        let t = v.to_text();
                        acc.append(t.as_str());
                    },
                    Err(err) => {
                        proof { lemma_concat_prefix_err(items@, i + 1, d@); }
                        return Err(err);
                    },
                }
                i = i + 1;
            }
            assert(items@.subrange(0, items@.len() as int) =~= items@);
            Ok(Literal::string(acc, *iv))
        },
    }
}

/// What `gen_literal_form_expr` gives: an inline constant or a bare name.
pub open spec fn expr_value(e: Expr, d: DataView) -> Result<LitView, Fault> {
    match e {
        Expr::LitExpr(l) => Ok(l@),
        Expr::IdentExpr(id) => var_value(id.ident@, id.interval, d),
        _ => Err(Fault { kind: ErrorKind::Structure, interval: interval_of(e) }),
    }
}

/// The literal that stands for an event: its payload as a string, or null when there is none.
pub open spec fn event_view(event: Option<Event>, interval: Interval) -> LitView {
    match event {
        Some(ev) => LitView { content_type: None, interval, val: Val::Str(ev.payload@) },
        None => LitView { content_type: None, interval, val: Val::Null },
    }
}

/// Whether `expr` is the bare name `name`.
pub fn search_str(name: &str, expr: &Expr) -> (r: bool)
    ensures
        r == (expr is IdentExpr && expr->IdentExpr_0.ident@ == name@),
{
    match expr {
        Expr::IdentExpr(id) => text_eq(id.ident.as_str(), name),
        _ => false,
    }
}

/// Evaluates an inline constant or a bare name; any other node is a structural error.
pub fn gen_literal_form_expr(expr: &Expr, data: &mut Data) -> (r: Result<Literal, ErrorInfo>)
    ensures
        view_outcome(r) == expr_value(*expr, old(data)@),
        !(*expr is LitExpr) && !(*expr is IdentExpr) ==> (r matches Err(e) && e.message@
            == "Expression must be a literal or an identifier"@),
        *final(data) == *old(data),
{
    match expr {
        Expr::LitExpr(literal) => Ok(literal.duplicate()),
        Expr::IdentExpr(ident) => get_var(ident, data),
        e => Err(
            ErrorInfo::new(ErrorKind::Structure, "Expression must be a literal or an identifier", expr_interval(e)),
        ),
    }
}

/// Evaluates a chained access, a template or a bare name; an inline constant
/// is a structural error here.
pub fn gen_literal_form_builder(expr: &Expr, data: &mut Data) -> (r: Result<Literal, ErrorInfo>)
    ensures
        view_outcome(r) == value_of(*expr, old(data)@, false),
        (*expr is BuilderExpr && !((*expr->BuilderExpr_0) is IdentExpr)) ==> (r matches Err(e) && e.message@
            == "Error in Object builder"@),
        *final(data) == *old(data),
{
    eval_in(expr, data, false)
}

/// Evaluates any expression.
pub fn expr_to_literal(expr: &Expr, data: &mut Data) -> (r: Result<Literal, ErrorInfo>)
    ensures
        view_outcome(r) == value_of(*expr, old(data)@, true),
        *final(data) == *old(data),
{
    eval_in(expr, data, true)
}

/// The literal for an event, or null at `interval` when there is none; never fails.
pub fn gen_literal_form_event(event: &Option<Event>, interval: Interval) -> (r: Result<Literal, ErrorInfo>)
    ensures
        r matches Ok(l) && l@ == event_view(*event, interval),
{
    match event {
        Some(Event { payload }) => Ok(Literal::string(payload.clone(), interval)),
        None => Ok(Literal::null(interval)),
    }
}

/// Evaluating an inline constant gives back an equal literal.
pub proof fn lemma_literal_evaluates_to_itself(l: Literal, d: DataView)
    ensures
        expr_value(Expr::LitExpr(l), d) == Ok::<LitView, Fault>(l@),
        value_of(Expr::LitExpr(l), d, true) == Ok::<LitView, Fault>(l@),
{
}

/// A template of three parts whose values are `a`, `b` and `c` evaluates to the
/// texts of `a`, `b` and `c`, in that order.
pub proof fn lemma_template_keeps_order(items: Vec<Expr>, iv: Interval, d: DataView, a: LitView, b: LitView, c: LitView)
    requires
        items@.len() == 3,
        value_of(items@[0], d, true) == Ok::<LitView, Fault>(a),
        value_of(items@[1], d, true) == Ok::<LitView, Fault>(b),
        value_of(items@[2], d, true) == Ok::<LitView, Fault>(c),
    ensures
        value_of(Expr::ComplexLiteral(items, iv), d, false) == Ok::<LitView, Fault>(
            LitView { content_type: None, interval: iv, val: Val::Str(text_of(a) + text_of(b) + text_of(c)) },
        ),
{
    let s = items@;
    let s2 = s.drop_last();
    let s1 = s2.drop_last();
    let s0 = s1.drop_last();
    assert(s1.last() == s[0]);
    assert(s2.last() == s[1]);
    assert(s.last() == s[2]);
    assert(concat_value(s0, d) == Ok::<Seq<char>, Fault>(Seq::empty()));
    assert(concat_value(s1, d) == Ok::<Seq<char>, Fault>(Seq::empty() + text_of(a)));
    assert(Seq::<char>::empty() + text_of(a) =~= text_of(a));
    assert(concat_value(s2, d) == Ok::<Seq<char>, Fault>(text_of(a) + text_of(b)));
    assert(concat_value(s, d) == Ok::<Seq<char>, Fault>(text_of(a) + text_of(b) + text_of(c)));
}

} // verus!
