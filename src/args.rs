use vstd::prelude::*;
use vstd::string::StringExecFns;
use crate::error::{ErrorInfo, ErrorKind, Fault};
use crate::value::{decimal_of, text_eq, Entry, Interval, LitMap, LitView, Literal, Val, json_of};

verus! {

/// The synthetic name of the positional argument at `index`: `arg` then its decimal digits.
pub open spec fn arg_name(index: int) -> Seq<char> {
    seq!['a', 'r', 'g'] + decimal_of(index)
}

/// Relies on the `Display` impl of `usize`: its decimal digits.
#[verifier::external_body]
fn usize_text(n: usize) -> (r: String)
    ensures
        r@ == decimal_of(n as int),
{
    n.to_string()
}

/// The synthetic name of the positional argument at `index`.
fn arg_key(index: usize) -> (r: String)
    ensures
        r@ == arg_name(index as int),
{
    let mut k = "arg".to_owned();
    let digits = usize_text(index);
    k.append(digits.as_str());
    proof {
        reveal_strlit("arg");
        assert(k@ =~= arg_name(index as int));
    }
    k
}

/// `base` with each of `pairs`, in order, that `skip` does not hold of.
pub open spec fn forward(
    base: Map<Seq<char>, LitView>,
    pairs: Seq<(Seq<char>, LitView)>,
    skip: spec_fn(Seq<char>) -> bool,
) -> Map<Seq<char>, LitView>
    decreases pairs.len(),
{
    if pairs.len() == 0 {
        base
    } else {
        let m = forward(base, pairs.drop_last(), skip);
        let (k, v) = pairs.last();
        if skip(k) {
            m
        } else {
            m.insert(k, v)
        }
    }
}

/// serde_json's `Value`, carried through opaquely.
#[verifier::external_type_specification]
#[verifier::external_body]
pub struct ExJsonValue(serde_json::Value);

/// The keys of a JSON object; none for any other JSON value.
pub uninterp spec fn json_object_keys(v: serde_json::Value) -> Set<Seq<char>>;

/// Relies on serde_json's `Value::as_object` and `Map::contains_key`: true exactly
/// when the value is an object that has the key.
#[verifier::external_body]
fn json_has_key(v: &serde_json::Value, key: &str) -> (r: bool)
    ensures
        r == json_object_keys(*v).contains(key@),
{
    v.as_object().map_or(false, |m| m.contains_key(key))
}

/// Names that a forwarding leaves out: those declared, and the first positional name.
pub open spec fn skip_declared(names: Seq<&str>) -> spec_fn(Seq<char>) -> bool {
    |k: Seq<char>| (exists|j: int| 0 <= j < names.len() && (#[trigger] names[j])@ == k) || k == arg_name(0)
}

/// Names that a forwarding leaves out: keys of the JSON objects, and the first positional name.
pub open spec fn skip_json_keys(objs: Seq<serde_json::Value>) -> spec_fn(Seq<char>) -> bool {
    |k: Seq<char>|
        (exists|j: int| 0 <= j < objs.len() && json_object_keys(#[trigger] objs[j]).contains(k)) || k
            == arg_name(0)
}

pub open spec fn debug_word() -> Seq<char> {
    seq!['d', 'e', 'b', 'u', 'g']
}

/// A debug rendering of arguments: an object tagged `debug` whose one field
/// `debug` holds the arguments written as a JSON object.
pub open spec fn debug_view(pairs: Seq<(Seq<char>, LitView)>, interval: Interval) -> LitView {
    let args = LitView { content_type: None, interval, val: Val::Object(pairs) };
    let text = LitView { content_type: None, interval, val: Val::Str(json_of(args)) };
    LitView { content_type: Some(debug_word()), interval, val: Val::Object(seq![(debug_word(), text)]) }
}

/// The arguments of a call: by name, or by position under synthetic names.
#[derive(Debug)]
pub enum ArgsType {
    Named(LitMap),
    Normal(LitMap),
}

impl ArgsType {
    pub open spec fn args(&self) -> LitMap {
        match self {
            ArgsType::Named(m) => *m,
            ArgsType::Normal(m) => *m,
        }
    }

    pub open spec fn wf(&self) -> bool {
        self.args().wf()
    }

    /// What `get(key, index)` finds.
    pub open spec fn lookup(&self, key: Seq<char>, index: int) -> Option<LitView> {
        match self {
            ArgsType::Named(m) => if m@.dom().contains(key) {
                Some(m@[key])
            } else if index == 0 && m@.dom().contains(arg_name(0)) {
                Some(m@[arg_name(0)])
            } else {
                None
            },
            ArgsType::Normal(m) => if m@.dom().contains(arg_name(index)) {
                Some(m@[arg_name(index)])
            } else {
                None
            },
        }
    }

    fn args_ref(&self) -> (r: &LitMap)
        ensures
            *r == self.args(),
    {
        match self {
            ArgsType::Named(m) => m,
            ArgsType::Normal(m) => m,
        }
    }

    /// The arguments as a debug object (see `debug_view`).
    pub fn args_to_debug(&self, interval: Interval) -> (r: Literal)
        ensures
            r@ == debug_view(self.args().pairs(), interval),
    {
        let value = Literal::object(self.args_ref().duplicate(), interval);
        let text = Literal::string(value.to_text(), interval);
        let ghost tv = text@;
        let key = "debug".to_owned();
        proof {
            reveal_strlit("debug");
            assert(key@ =~= debug_word());
        }
        let mut entries: Vec<Entry> = Vec::new();
        entries.push(Entry { key, value: text });
        let obj = LitMap { entries };
        assert(obj.pairs() =~= seq![(debug_word(), tv)]);
        let mut lit = Literal::object(obj, interval);
        lit.set_content_type("debug");
        lit
    }

    /// Finds an argument: by `key` (for the first position, falling back to its
    /// synthetic name), or by position alone when the arguments are positional.
    pub fn get(&self, key: &str, index: usize) -> (r: Option<&Literal>)
        requires
            self.wf(),
        ensures
            r is None <==> self.lookup(key@, index as int) is None,
            r matches Some(v) ==> self.lookup(key@, index as int) == Some(v@),
    {
        match self {
            ArgsType::Named(var) => {
                match var.get(key) {
                    Some(val) => Some(val),
                    None => {
                        if index == 0 {
                            let k = arg_key(index);
                            var.get(k.as_str())
                        } else {
                            None
                        }
                    },
                }
            },
            ArgsType::Normal(var) => {
                let k = arg_key(index);
                var.get(k.as_str())
            },
        }
    }

    /// Copies into `map` the named arguments that the callee does not declare;
    /// positional arguments are only counted against the declared names.
    pub fn populate(&self, map: &mut LitMap, vec: &[&str], interval: Interval) -> (r: Result<(), ErrorInfo>)
        requires
            self.wf(),
            old(map).wf(),
        ensures
            final(map).wf(),
            match self {
                ArgsType::Named(var) => r is Ok && final(map)@ == forward(old(map)@, var.pairs(), skip_declared(vec@)),
                ArgsType::Normal(var) => {
                    &&& *final(map) == *old(map)
                    &&& (r is Err <==> vec@.len() < var.entries@.len())
                    &&& (r matches Err(e) ==> e.fault() == (Fault { kind: ErrorKind::Binding, interval }) && e.message@
                        == "too many arguments"@)
                },
            },
    {
        match self {
            ArgsType::Named(var) => {
                let first = arg_key(0);
                let mut i: usize = 0;
                while i < var.entries.len()
                    invariant
                        i <= var.entries@.len(),
                        var.wf(),
                        first@ == arg_name(0),
                        map.wf(),
                        map@ == forward(old(map)@, var.pairs().subrange(0, i as int), skip_declared(vec@)),
                    decreases var.entries@.len() - i,
                {
                    let key = &var.entries[i].key;
                    let mut declared = false;
                    let mut j: usize = 0;
                    while j < vec.len()
                        invariant
                            j <= vec@.len(),
                            declared == exists|t: int| 0 <= t < j && (#[trigger] vec@[t])@ == key@,
                        decreases vec@.len() - j,
                    {
                        if text_eq(vec[j], key.as_str()) {
                            declared = true;
                        }
                        j = j + 1;
                    }
                    let is_first = text_eq(key.as_str(), first.as_str());
                    if !declared && !is_first {
                        map.insert(key.clone(), var.entries[i].value.duplicate());
                    }
                    proof {
                        let ps = var.pairs().subrange(0, i + 1);
                        assert(ps.drop_last() =~= var.pairs().subrange(0, i as int));
                        assert(ps.last() == (var.entries@[i as int].key@, var.entries@[i as int].value@));
                    }
                    i = i + 1;
                }
                assert(var.pairs().subrange(0, var.entries@.len() as int) =~= var.pairs());
                Ok(())
            },
            ArgsType::Normal(var) => {
                if vec.len() < var.entries.len() {
                    Err(ErrorInfo::new(ErrorKind::Binding, "too many arguments", interval))
                } else {
                    Ok(())
                }
            },
        }
    }

    /// As `populate`, with the declared names given as JSON objects: a named
    /// argument is declared when one of the objects has it as a key.
    pub fn populate_json_to_literal(
        &self,
        map: &mut LitMap,
        vec: &[serde_json::Value],
        interval: Interval,
    ) -> (r: Result<(), ErrorInfo>)
        requires
            self.wf(),
            old(map).wf(),
        ensures
            final(map).wf(),
            match self {
                ArgsType::Named(var) => r is Ok && final(map)@ == forward(old(map)@, var.pairs(), skip_json_keys(vec@)),
                ArgsType::Normal(var) => {
                    &&& *final(map) == *old(map)
                    &&& (r is Err <==> vec@.len() < var.entries@.len())
                    &&& (r matches Err(e) ==> e.fault() == (Fault { kind: ErrorKind::Binding, interval }) && e.message@
                        == "too many arguments"@)
                },
            },
    {
        match self {
            ArgsType::Named(var) => {
                let first = arg_key(0);
                let mut i: usize = 0;
                while i < var.entries.len()
                    invariant
                        i <= var.entries@.len(),
                        var.wf(),
                        first@ == arg_name(0),
                        map.wf(),
                        map@ == forward(old(map)@, var.pairs().subrange(0, i as int), skip_json_keys(vec@)),
                    decreases var.entries@.len() - i,
                {
                    let key = &var.entries[i].key;
                    let mut declared = false;
                    let mut j: usize = 0;
                    while j < vec.len()
                        invariant
                            j <= vec@.len(),
                            declared == exists|t: int| 0 <= t < j && json_object_keys(#[trigger] vec@[t]).contains(key@),
                        decreases vec@.len() - j,
                    {
                        if json_has_key(&vec[j], key.as_str()) {
                            declared = true;
                        }
                        j = j + 1;
                    }
                    let is_first = text_eq(key.as_str(), first.as_str());
                    if !declared && !is_first {
                        map.insert(key.clone(), var.entries[i].value.duplicate());
                    }
                    proof {
                        let ps = var.pairs().subrange(0, i + 1);
                        assert(ps.drop_last() =~= var.pairs().subrange(0, i as int));
                        assert(ps.last() == (var.entries@[i as int].key@, var.entries@[i as int].value@));
                    }
                    i = i + 1;
                }
                assert(var.pairs().subrange(0, var.entries@.len() as int) =~= var.pairs());
                Ok(())
            },
            ArgsType::Normal(var) => {
                if vec.len() < var.entries.len() {
                    Err(ErrorInfo::new(ErrorKind::Binding, "too many arguments", interval))
                } else {
                    Ok(())
                }
            },
        }
    }
}

} // verus!
