use vstd::prelude::*;
use vstd::string::StringExecFns;
use vstd::string::StrSliceExecFns;

verus! {

/// A source position, kept only for diagnostics.
#[derive(Clone, Copy, Debug, PartialEq, Eq, Structural)]
pub struct Interval {
    pub line: u32,
    pub column: u32,
}

impl Interval {
    pub fn new_as_u32(line: u32, column: u32) -> (r: Interval)
        ensures
            r.line == line,
            r.column == column,
    {
        Interval { line, column }
    }
}

impl Default for Interval {
    fn default() -> (r: Interval)
        ensures
            r.line == 0,
            r.column == 0,
    {
        Interval { line: 0, column: 0 }
    }
}

/// The dynamic value carried by a `Literal`.
#[derive(Debug)]
pub enum Primitive {
    String(String),
    Int(i64),
    Boolean(bool),
    Null,
    Array(Vec<Literal>),
    Object(LitMap),
}

/// The only value that crosses evaluator boundaries.
#[derive(Debug)]
pub struct Literal {
    pub content_type: Option<String>,
    pub interval: Interval,
    pub primitive: Primitive,
}

/// What a `Literal` holds, as mathematical values.
pub enum Val {
    Str(Seq<char>),
    Int(int),
    Bool(bool),
    Null,
    Array(Seq<LitView>),
    Object(Seq<(Seq<char>, LitView)>),
}

/// The view of a `Literal`.
pub struct LitView {
    pub content_type: Option<Seq<char>>,
    pub interval: Interval,
    pub val: Val,
}

pub open spec fn opt_text(o: Option<String>) -> Option<Seq<char>> {
    match o {
        Some(s) => Some(s@),
        None => None,
    }
}

impl Literal {
    pub open spec fn view(&self) -> LitView
        decreases self,
    {
        LitView {
            content_type: opt_text(self.content_type),
            interval: self.interval,
            val: match self.primitive {
                Primitive::String(s) => Val::Str(s@),
                Primitive::Int(n) => Val::Int(n as int),
                Primitive::Boolean(b) => Val::Bool(b),
                Primitive::Null => Val::Null,
                Primitive::Array(v) => Val::Array(
                    Seq::new(
                        v@.len(),
                        |i: int|
                            if 0 <= i < v@.len() {
                                v@[i].view()
                            } else {
                                LitView { content_type: None, interval: self.interval, val: Val::Null }
                            },
                    ),
                ),
                Primitive::Object(m) => Val::Object(
                    Seq::new(
                        m.entries@.len(),
                        |i: int|
                            if 0 <= i < m.entries@.len() {
                                (m.entries@[i].key@, m.entries@[i].value.view())
                            } else {
                                (Seq::empty(), LitView { content_type: None, interval: self.interval, val: Val::Null })
                            },
                    ),
                ),
            },
        }
    }
}

/// A decimal digit.
pub open spec fn digit_char(d: nat) -> char {
    if d == 0 { '0' } else if d == 1 { '1' } else if d == 2 { '2' } else if d == 3 { '3' }
    else if d == 4 { '4' } else if d == 5 { '5' } else if d == 6 { '6' } else if d == 7 { '7' }
    else if d == 8 { '8' } else { '9' }
}

/// Decimal digits of a natural number, most significant first.
pub open spec fn digits_of(n: nat) -> Seq<char>
    decreases n,
{
    if n < 10 {
        seq![digit_char(n)]
    } else {
        digits_of(n / 10).push(digit_char(n % 10))
    }
}

/// Decimal text of an integer, with a leading minus sign when negative.
pub open spec fn decimal_of(n: int) -> Seq<char> {
    if n < 0 {
        seq!['-'] + digits_of((-n) as nat)
    } else {
        digits_of(n as nat)
    }
}

/// Relies on the `Display` impl of `i64`: decimal digits, with a minus sign when negative.
#[verifier::external_body]
fn int_text(n: i64) -> (r: String)
    ensures
        r@ == decimal_of(n as int),
{
    n.to_string()
}

pub open spec fn bool_text(b: bool) -> Seq<char> {
    if b { seq!['t', 'r', 'u', 'e'] } else { seq!['f', 'a', 'l', 's', 'e'] }
}

/// How a character is written inside a quoted string: a quote, a backslash and a
/// newline get a backslash escape; anything else stands for itself.
pub open spec fn escape_char(c: char) -> Seq<char> {
    if c == '"' {
        seq!['\\', '"']
    } else if c == '\\' {
        seq!['\\', '\\']
    } else if c == '\n' {
        seq!['\\', 'n']
    } else {
        seq![c]
    }
}

pub open spec fn escaped(s: Seq<char>) -> Seq<char>
    decreases s.len(),
{
    if s.len() == 0 {
        Seq::empty()
    } else {
        escaped(s.drop_last()) + escape_char(s.last())
    }
}

/// A string as JSON writes it: escaped, between quotes.
pub open spec fn quoted(s: Seq<char>) -> Seq<char> {
    seq!['"'] + escaped(s) + seq!['"']
}

/// Appends `escaped(s@)` to `out`.
pub fn append_escaped(out: &mut String, s: &str)
    ensures
        final(out)@ == old(out)@ + escaped(s@),
{
    let n = s.unicode_len();
    let mut i: usize = 0;
    assert(s@.subrange(0, 0) =~= Seq::<char>::empty());
    assert(out@ =~= old(out)@ + escaped(s@.subrange(0, 0)));
    while i < n
        invariant
            n == s@.len(),
            i <= n,
            out@ == old(out)@ + escaped(s@.subrange(0, i as int)),
        decreases n - i,
    {
        proof {
            reveal_strlit("\\\"");
            reveal_strlit("\\\\");
            reveal_strlit("\\n");
        }
        let ghost before = out@;
        let c = s.get_char(i);
        if c == '"' {
            out.append("\\\"");
        } else if c == '\\' {
            out.append("\\\\");
        } else if c == '\n' {
            out.append("\\n");
        } else {
            out.append(s.substring_char(i, i + 1));
            assert(s@.subrange(i as int, i + 1) =~= seq![c]);
        }
        proof {
            let t = s@.subrange(0, i + 1);
            assert(t.drop_last() =~= s@.subrange(0, i as int));
            assert(t.last() == c);
            assert(out@ =~= before + escape_char(c));
            assert(out@ =~= old(out)@ + escaped(t));
        }
        i = i + 1;
    }
    assert(s@.subrange(0, n as int) =~= s@);
}

/// Text of a value nested in an array or an object: strings are quoted.
pub open spec fn json_of(v: LitView) -> Seq<char>
    decreases v,
{
    match v.val {
        Val::Str(s) => quoted(s),
        Val::Int(n) => decimal_of(n),
        Val::Bool(b) => bool_text(b),
        Val::Null => seq!['n', 'u', 'l', 'l'],
        Val::Array(items) => seq!['['] + json_items(items) + seq![']'],
        Val::Object(fields) => seq!['{'] + json_fields(fields) + seq!['}'],
    }
}

/// Comma-separated texts of the items.
pub open spec fn json_items(items: Seq<LitView>) -> Seq<char>
    decreases items,
{
    if items.len() == 0 {
        Seq::empty()
    } else {
        let head = json_items(items.drop_last());
        let sep = if items.len() == 1 { Seq::<char>::empty() } else { seq![','] };
        head + sep + json_of(items.last())
    }
}

/// Comma-separated `"key":value` texts of the fields.
pub open spec fn json_fields(fields: Seq<(Seq<char>, LitView)>) -> Seq<char>
    decreases fields,
{
    if fields.len() == 0 {
        Seq::empty()
    } else {
        let head = json_fields(fields.drop_last());
        let sep = if fields.len() == 1 { Seq::<char>::empty() } else { seq![','] };
        head + sep + quoted(fields.last().0) + seq![':'] + json_of(fields.last().1)
    }
}

/// The text of a value: a string stands for itself, anything else as in `json_of`.
pub open spec fn text_of(v: LitView) -> Seq<char> {
    match v.val {
        Val::Str(s) => s,
        _ => json_of(v),
    }
}

/// `pairs` with the first pair keyed `k` set to `v`, or with `(k, v)` appended.
pub open spec fn put_pair(pairs: Seq<(Seq<char>, LitView)>, k: Seq<char>, v: LitView) -> Seq<(Seq<char>, LitView)> {
    if exists|i: int| 0 <= i < pairs.len() && (#[trigger] pairs[i]).0 == k {
        pairs.update(choose|i: int| 0 <= i < pairs.len() && (#[trigger] pairs[i]).0 == k, (k, v))
    } else {
        pairs.push((k, v))
    }
}

/// `pairs` without the first pair keyed `k`.
pub open spec fn drop_pair(pairs: Seq<(Seq<char>, LitView)>, k: Seq<char>) -> Seq<(Seq<char>, LitView)> {
    if exists|i: int| 0 <= i < pairs.len() && (#[trigger] pairs[i]).0 == k {
        pairs.remove(choose|i: int| 0 <= i < pairs.len() && (#[trigger] pairs[i]).0 == k)
    } else {
        pairs
    }
}

/// One key/value pair of a `LitMap`.
#[derive(Debug)]
pub struct Entry {
    pub key: String,
    pub value: Literal,
}

/// A map from names to literals that keeps its keys in insertion order.
#[derive(Debug)]
pub struct LitMap {
    pub entries: Vec<Entry>,
}

/// Text equality of two string slices.
pub fn text_eq(a: &str, b: &str) -> (r: bool)
    ensures
        r == (a@ == b@),
{
    a.to_owned() == b.to_owned()
}

/// Index of the entry holding `k`, if any.
pub open spec fn key_at(entries: Seq<Entry>, i: int, k: Seq<char>) -> bool {
    0 <= i < entries.len() && entries[i].key@ == k
}

impl LitMap {
    /// Keys are unique.
    pub open spec fn wf(&self) -> bool {
        forall|i: int, j: int|
            0 <= i < self.entries@.len() && 0 <= j < self.entries@.len() && i != j
                ==> #[trigger] self.entries@[i].key@ != #[trigger] self.entries@[j].key@
    }

    pub open spec fn has(&self, k: Seq<char>) -> bool {
        exists|i: int| key_at(self.entries@, i, k)
    }

    pub open spec fn value_of(&self, k: Seq<char>) -> LitView {
        self.entries@[choose|i: int| key_at(self.entries@, i, k)].value@
    }

    /// The entries in insertion order.
    pub open spec fn pairs(&self) -> Seq<(Seq<char>, LitView)> {
        Seq::new(self.entries@.len(), |i: int| (self.entries@[i].key@, self.entries@[i].value@))
    }

    /// The map as a mathematical map from key text to literal.
    pub open spec fn view(&self) -> Map<Seq<char>, LitView> {
        Map::new(|k: Seq<char>| self.has(k), |k: Seq<char>| self.value_of(k))
    }

    pub fn new() -> (r: LitMap)
        ensures
            r.wf(),
            r@ == Map::<Seq<char>, LitView>::empty(),
            r.entries@.len() == 0,
    {
        let r = LitMap { entries: Vec::new() };
        assert(r@ =~= Map::<Seq<char>, LitView>::empty());
        r
    }

    /// A copy that shares nothing with `self`.
    pub fn duplicate(&self) -> (r: LitMap)
        ensures
            r.pairs() == self.pairs(),
            r.entries@.len() == self.entries@.len(),
            forall|i: int| 0 <= i < r.entries@.len() ==> (#[trigger] r.entries@[i]).key@ == self.entries@[i].key@,
    {
        let mut out: Vec<Entry> = Vec::new();
        let mut i: usize = 0;
        while i < self.entries.len()
            invariant
                i <= self.entries@.len(),
                out@.len() == i,
                forall|j: int| 0 <= j < i ==> (#[trigger] out@[j]).key@ == self.entries@[j].key@
                    && out@[j].value@ == self.entries@[j].value@,
            decreases self.entries@.len() - i,
        {
            out.push(Entry { key: self.entries[i].key.clone(), value: self.entries[i].value.duplicate() });
            i = i + 1;
        }
        let r = LitMap { entries: out };
        assert(r.pairs() =~= self.pairs());
        r
    }

    pub fn len(&self) -> (r: usize)
        ensures
            r == self.entries@.len(),
    {
        self.entries.len()
    }

    /// Position of the entry with key `k`.
    pub fn find(&self, k: &str) -> (r: Option<usize>)
        requires
            self.wf(),
        ensures
            r is None <==> !self.has(k@),
            r matches Some(i) ==> key_at(self.entries@, i as int, k@),
    {
        let mut i: usize = 0;
        while i < self.entries.len()
            invariant
                i <= self.entries@.len(),
                forall|j: int| 0 <= j < i ==> self.entries@[j].key@ != k@,
            decreases self.entries@.len() - i,
        {
            if text_eq(self.entries[i].key.as_str(), k) {
                assert(key_at(self.entries@, i as int, k@));
                return Some(i);
            }
            i = i + 1;
        }
        None
    }

    pub fn get(&self, k: &str) -> (r: Option<&Literal>)
        requires
            self.wf(),
        ensures
            r is None <==> !self@.dom().contains(k@),
            r matches Some(v) ==> v@ == self@[k@],
    {
        match self.find(k) {
            Some(i) => {
                proof { self.lemma_value_at(i as int, k@); }
                Some(&self.entries[i].value)
            },
            None => None,
        }
    }

    pub fn contains_key(&self, k: &str) -> (r: bool)
        requires
            self.wf(),
        ensures
            r == self@.dom().contains(k@),
    {
        self.find(k).is_some()
    }

    pub proof fn lemma_value_at(&self, i: int, k: Seq<char>)
        requires
            self.wf(),
            key_at(self.entries@, i, k),
        ensures
            self@.dom().contains(k),
            self@[k] == self.entries@[i].value@,
    {
        let j = choose|j: int| key_at(self.entries@, j, k);
        assert(self.entries@[j].key@ == self.entries@[i].key@);
    }

    /// Removes the entry with key `k`, if there is one.
    pub fn remove(&mut self, k: &str)
        requires
            old(self).wf(),
        ensures
            final(self).wf(),
            final(self)@ == old(self)@.remove(k@),
            final(self).pairs() == drop_pair(old(self).pairs(), k@),
    {
        match self.find(k) {
            Some(i) => {
                let ghost prev = self.entries@;
                let ghost op = old(self).pairs();
                self.entries.remove(i);
                proof {
                    assert forall|a: int| 0 <= a < self.entries@.len() implies #[trigger] self.entries@[a] == (if a < i {
                        prev[a]
                    } else {
                        prev[a + 1]
                    }) by {}
                    assert forall|a: int, b: int|
                        0 <= a < self.entries@.len() && 0 <= b < self.entries@.len() && a != b
                            implies #[trigger] self.entries@[a].key@ != #[trigger] self.entries@[b].key@ by {
                        let a2 = if a < i { a } else { a + 1 };
                        let b2 = if b < i { b } else { b + 1 };
                        assert(prev[a2].key@ != prev[b2].key@);
                    }
                    assert forall|q: Seq<char>| #[trigger] self.has(q) == old(self)@.remove(k@).dom().contains(q) by {
                        if old(self).has(q) && q != k@ {
                            let j = choose|j: int| key_at(prev, j, q);
                            assert(j != i);
                            let j2 = if j < i { j } else { j - 1 };
                            assert(key_at(self.entries@, j2, q));
                        }
                        if self.has(q) {
                            let j = choose|j: int| key_at(self.entries@, j, q);
                            let j2 = if j < i { j } else { j + 1 };
                            assert(key_at(prev, j2, q));
                            assert(j2 != i);
                        }
                    }
                    assert forall|q: Seq<char>| #[trigger] self.has(q) implies self@[q] == old(self)@.remove(k@)[q] by {
                        let j = choose|j: int| key_at(self.entries@, j, q);
                        self.lemma_value_at(j, q);
                        let j2 = if j < i { j } else { j + 1 };
                        assert(key_at(prev, j2, q));
                        old(self).lemma_value_at(j2, q);
                    }
                    assert(self@ =~= old(self)@.remove(k@));
                    assert(op[i as int].0 == k@);
                    let c = choose|c: int| 0 <= c < op.len() && (#[trigger] op[c]).0 == k@;
                    assert(prev[c].key@ == prev[i as int].key@);
                    assert(self.pairs() =~= op.remove(i as int));
                }
            },
            None => {
                proof {
                    let op = old(self).pairs();
                    assert forall|c: int| 0 <= c < op.len() implies (#[trigger] op[c]).0 != k@ by {
                        assert(!key_at(self.entries@, c, k@));
                    }
                    assert(self@ =~= old(self)@.remove(k@));
                }
            },
        }
    }

    /// Sets `k` to `v`, replacing the value in place or appending a new entry.
    pub fn insert(&mut self, k: String, v: Literal)
        requires
            old(self).wf(),
        ensures
            final(self).wf(),
            final(self)@ == old(self)@.insert(k@, v@),
            final(self).pairs() == put_pair(old(self).pairs(), k@, v@),
    {
        match self.find(k.as_str()) {
            Some(i) => {
                let ghost prev = self.entries@;
                let ghost kv = k@;
                let ghost vv = v@;
                self.entries.set(i, Entry { key: k, value: v });
                proof {
                    assert forall|a: int, b: int|
                        0 <= a < self.entries@.len() && 0 <= b < self.entries@.len() && a != b
                            implies #[trigger] self.entries@[a].key@ != #[trigger] self.entries@[b].key@ by {
                        assert(prev[a].key@ != prev[b].key@);
                    }
                    assert forall|q: Seq<char>| #[trigger] self.has(q) == old(self)@.insert(kv, vv).dom().contains(q) by {
                        if old(self).has(q) {
                            let j = choose|j: int| key_at(prev, j, q);
                            assert(key_at(self.entries@, j, q));
                        }
                        if self.has(q) {
                            let j = choose|j: int| key_at(self.entries@, j, q);
                            if j != i { assert(key_at(prev, j, q)); }
                        }
                    }
                    assert forall|q: Seq<char>| #[trigger] self.has(q) implies self@[q] == old(self)@.insert(kv, vv)[q] by {
                        let j = choose|j: int| key_at(self.entries@, j, q);
                        self.lemma_value_at(j, q);
                        if j != i {
                            assert(key_at(prev, j, q));
                            old(self).lemma_value_at(j, q);
                        }
                    }
                    assert(self@ =~= old(self)@.insert(kv, vv));
                    let op = old(self).pairs();
                    assert(op[i as int].0 == kv);
                    let c = choose|c: int| 0 <= c < op.len() && (#[trigger] op[c]).0 == kv;
                    assert(prev[c].key@ == prev[i as int].key@);
                    assert(self.pairs() =~= op.update(i as int, (kv, vv)));
                }
            },
            None => {
                let ghost prev = self.entries@;
                let ghost kv = k@;
                let ghost vv = v@;
                self.entries.push(Entry { key: k, value: v });
                proof {
                    let n = prev.len() as int;
                    assert forall|a: int, b: int|
                        0 <= a < self.entries@.len() && 0 <= b < self.entries@.len() && a != b
                            implies #[trigger] self.entries@[a].key@ != #[trigger] self.entries@[b].key@ by {
                        if a < n && b < n {
                            assert(prev[a].key@ != prev[b].key@);
                        } else if a < n {
                            assert(!key_at(prev, a, kv));
                        } else {
                            assert(!key_at(prev, b, kv));
                        }
                    }
                    assert forall|q: Seq<char>| #[trigger] self.has(q) == old(self)@.insert(kv, vv).dom().contains(q) by {
                        if old(self).has(q) {
                            let j = choose|j: int| key_at(prev, j, q);
                            assert(key_at(self.entries@, j, q));
                        }
                        if q == kv {
                            assert(key_at(self.entries@, n, q));
                        }
                        if self.has(q) {
                            let j = choose|j: int| key_at(self.entries@, j, q);
                            if j != n { assert(key_at(prev, j, q)); }
                        }
                    }
                    assert forall|q: Seq<char>| #[trigger] self.has(q) implies self@[q] == old(self)@.insert(kv, vv)[q] by {
                        let j = choose|j: int| key_at(self.entries@, j, q);
                        self.lemma_value_at(j, q);
                        if j != n {
                            assert(key_at(prev, j, q));
                            old(self).lemma_value_at(j, q);
                        }
                    }
                    assert(self@ =~= old(self)@.insert(kv, vv));
                    let op = old(self).pairs();
                    assert forall|c: int| 0 <= c < op.len() implies (#[trigger] op[c]).0 != kv by {
                        assert(!key_at(prev, c, kv));
                    }
                    assert(self.pairs() =~= op.push((kv, vv)));
                }
            },
        }
    }
}

impl Literal {
    pub fn string(s: String, interval: Interval) -> (r: Literal)
        ensures
            r@ == (LitView { content_type: None, interval, val: Val::Str(s@) }),
    {
        Literal { content_type: None, interval, primitive: Primitive::String(s) }
    }

    pub fn null(interval: Interval) -> (r: Literal)
        ensures
            r@ == (LitView { content_type: None, interval, val: Val::Null }),
    {
        Literal { content_type: None, interval, primitive: Primitive::Null }
    }

    pub fn integer(n: i64, interval: Interval) -> (r: Literal)
        ensures
            r@ == (LitView { content_type: None, interval, val: Val::Int(n as int) }),
    {
        Literal { content_type: None, interval, primitive: Primitive::Int(n) }
    }

    pub fn boolean(b: bool, interval: Interval) -> (r: Literal)
        ensures
            r@ == (LitView { content_type: None, interval, val: Val::Bool(b) }),
    {
        Literal { content_type: None, interval, primitive: Primitive::Boolean(b) }
    }

    pub fn object(m: LitMap, interval: Interval) -> (r: Literal)
        ensures
            r@ == (LitView { content_type: None, interval, val: Val::Object(m.pairs()) }),
    {
        let r = Literal { content_type: None, interval, primitive: Primitive::Object(m) };
        assert(r@.val->Object_0 =~= m.pairs());
        r
    }

    /// Tags the literal with a content type; nothing else changes.
    pub fn set_content_type(&mut self, t: &str)
        ensures
            final(self)@ == (LitView { content_type: Some(t@), ..old(self)@ }),
    {
        self.content_type = Some(t.to_owned());
        proof {
            let a = self@;
            let b = LitView { content_type: Some(t@), ..old(self)@ };
            if a.val is Array {
                assert(a.val->Array_0 =~= b.val->Array_0);
            }
            if a.val is Object {
                assert(a.val->Object_0 =~= b.val->Object_0);
            }
        }
    }

    /// A copy that shares nothing with `self`.
    pub fn duplicate(&self) -> (r: Literal)
        ensures
            r@ == self@,
        decreases self,
    {
        let content_type = match &self.content_type {
            Some(c) => Some(c.clone()),
            None => None,
        };
        let primitive = match &self.primitive {
            Primitive::String(s) => Primitive::String(s.clone()),
            Primitive::Int(n) => Primitive::Int(*n),
            Primitive::Boolean(b) => Primitive::Boolean(*b),
            Primitive::Null => Primitive::Null,
            Primitive::Array(v) => {
                let mut out: Vec<Literal> = Vec::new();
                let mut i: usize = 0;
                while i < v.len()
                    invariant
                        i <= v@.len(),
                        self.primitive == Primitive::Array(*v),
                        out@.len() == i,
                        forall|j: int| 0 <= j < i ==> (#[trigger] out@[j])@ == v@[j]@,
                    decreases v@.len() - i,
                {
                    proof {
                        assert(decreases_to!(*self => self.primitive));
                        assert(decreases_to!(self.primitive => self.primitive->Array_0));
                        assert(decreases_to!(*v => v[i as int]));
                    }
                    out.push(v[i].duplicate());
                    i = i + 1;
                }
                Primitive::Array(out)
            },
            Primitive::Object(m) => {
                let mut out: Vec<Entry> = Vec::new();
                let mut i: usize = 0;
                while i < m.entries.len()
                    invariant
                        i <= m.entries@.len(),
                        self.primitive == Primitive::Object(*m),
                        out@.len() == i,
                        forall|j: int| 0 <= j < i ==> (#[trigger] out@[j]).key@ == m.entries@[j].key@
                            && out@[j].value@ == m.entries@[j].value@,
                    decreases m.entries@.len() - i,
                {
                    proof {
                        assert(decreases_to!(*self => self.primitive));
                        assert(decreases_to!(self.primitive => self.primitive->Object_0));
                        assert(decreases_to!(*m => m.entries));
                        assert(decreases_to!(m.entries => m.entries[i as int]));
                        assert(decreases_to!(m.entries[i as int] => m.entries[i as int].value));
                    }
                    out.push(Entry { key: m.entries[i].key.clone(), value: m.entries[i].value.duplicate() });
                    i = i + 1;
                }
                Primitive::Object(LitMap { entries: out })
            },
        };
        let r = Literal { content_type, interval: self.interval, primitive };
        proof {
            if self@.val is Array {
                assert(r@.val->Array_0 =~= self@.val->Array_0);
            }
            if self@.val is Object {
                assert(r@.val->Object_0 =~= self@.val->Object_0);
            }
        }
        r
    }

    /// Appends `json_of(self@)` to `out`.
    pub fn write_json(&self, out: &mut String)
        ensures
            final(out)@ == old(out)@ + json_of(self@),
        decreases self,
    {
        match &self.primitive {
            Primitive::String(s) => {
                out.append("\"");
                append_escaped(out, s.as_str());
                out.append("\"");
                proof { reveal_strlit("\""); }
                assert(out@ =~= old(out)@ + json_of(self@));
            },
            Primitive::Int(n) => {
                let t = int_text(*n);
                out.append(t.as_str());
            },
            Primitive::Boolean(b) => {
                if *b {
                    out.append("true");
                    proof { reveal_strlit("true"); }
                } else {
                    out.append("false");
                    proof { reveal_strlit("false"); }
                }
                assert(out@ =~= old(out)@ + json_of(self@));
            },
            Primitive::Null => {
                out.append("null");
                proof { reveal_strlit("null"); }
                assert(out@ =~= old(out)@ + json_of(self@));
            },
            Primitive::Array(v) => {
                let ghost items = self@.val->Array_0;
                out.append("[");
                proof { reveal_strlit("["); reveal_strlit(","); reveal_strlit("]"); }
                let mut i: usize = 0;
                while i < v.len()
                    invariant
                        i <= v@.len(),
                        self.primitive == Primitive::Array(*v),
                        items.len() == v@.len(),
                        forall|j: int| 0 <= j < v@.len() ==> #[trigger] items[j] == v@[j]@,
                        out@ == old(out)@ + seq!['['] + json_items(items.subrange(0, i as int)),
                    decreases v@.len() - i,
                {
                    proof { reveal_strlit(","); }
                    if i > 0 {
                        out.append(",");
                    }
                    proof {
                        assert(decreases_to!(*self => self.primitive));
                        assert(decreases_to!(self.primitive => self.primitive->Array_0));
                        assert(decreases_to!(*v => v[i as int]));
                    }
                    v[i].write_json(out);
                    proof {
                        let s = items.subrange(0, i + 1);
                        assert(s.drop_last() =~= items.subrange(0, i as int));
                        assert(s.last() == v@[i as int]@);
                        assert(out@ =~= old(out)@ + seq!['['] + json_items(s));
                    }
                    i = i + 1;
                }
                out.append("]");
                assert(items.subrange(0, v@.len() as int) =~= items);
                assert(out@ =~= old(out)@ + json_of(self@));
            },
            Primitive::Object(m) => {
                let ghost fields = self@.val->Object_0;
                out.append("{");
                proof { reveal_strlit("{"); reveal_strlit(","); reveal_strlit("}"); reveal_strlit("\""); reveal_strlit(":"); }
                let mut i: usize = 0;
                while i < m.entries.len()
                    invariant
                        i <= m.entries@.len(),
                        self.primitive == Primitive::Object(*m),
                        fields.len() == m.entries@.len(),
                        forall|j: int| 0 <= j < m.entries@.len() ==> #[trigger] fields[j] == (m.entries@[j].key@, m.entries@[j].value@),
                        out@ == old(out)@ + seq!['{'] + json_fields(fields.subrange(0, i as int)),
                    decreases m.entries@.len() - i,
                {
                    proof { reveal_strlit(","); reveal_strlit("\""); reveal_strlit(":"); }
                    if i > 0 {
                        out.append(",");
                    }
                    out.append("\"");
                    append_escaped(out, m.entries[i].key.as_str());
                    out.append("\"");
                    out.append(":");
                    proof {
                        assert(decreases_to!(*self => self.primitive));
                        assert(decreases_to!(self.primitive => self.primitive->Object_0));
                        assert(decreases_to!(*m => m.entries));
                        assert(decreases_to!(m.entries => m.entries[i as int]));
                        assert(decreases_to!(m.entries[i as int] => m.entries[i as int].value));
                    }
                    m.entries[i].value.write_json(out);
                    proof {
                        let s = fields.subrange(0, i + 1);
                        assert(s.drop_last() =~= fields.subrange(0, i as int));
                        assert(s.last() == fields[i as int]);
                        assert(out@ =~= old(out)@ + seq!['{'] + json_fields(s));
                    }
                    i = i + 1;
                }
                out.append("}");
                assert(fields.subrange(0, m.entries@.len() as int) =~= fields);
                assert(out@ =~= old(out)@ + json_of(self@));
            },
        }
    }

    /// The literal's text: a string stands for itself, anything else is written as JSON.
    pub fn to_text(&self) -> (r: String)
        ensures
            r@ == text_of(self@),
    {
        match &self.primitive {
            Primitive::String(s) => s.clone(),
            _ => {
                let mut out = String::new();
                self.write_json(&mut out);
                assert(out@ =~= text_of(self@));
                out
            },
        }
    }
}

} // verus!
