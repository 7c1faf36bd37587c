//! The semantic value model: the abstract datum the reader produces and the
//! evaluator manipulates, together with structural equality over it. Maps
//! and sets are association sequences with structural keys; functions and
//! macros carry their parameter list, body, and the frame they captured.

use vstd::prelude::*;

verus! {

/// The built-in operations the standard environment provides.
#[derive(Clone, Copy, PartialEq, Eq, Structural, Debug)]
pub enum BuiltinOp {
    Add,
    Sub,
    Mul,
    Div,
    Equal,
    Less,
    Greater,
    Not,
    ListOf,
    First,
    Rest,
}

/// A function value: a user closure (parameters, body, captured frame) or a
/// built-in operation.
#[derive(Debug)]
pub struct Function {
    /// Parameter names, for a user closure.
    pub params: Vec<String>,
    /// Body forms, evaluated in order; the last one's value is returned.
    pub body: Vec<Value>,
    /// The frame the closure captured, by its index in the environment.
    pub env: usize,
    /// Whether this is a built-in function.
    pub is_builtin: bool,
    /// The built-in operation, when `is_builtin` holds.
    pub builtin_op: Option<BuiltinOp>,
}

/// A macro value: the same shape as a user function, under a distinct tag.
#[derive(Debug)]
pub struct Macro {
    /// Parameter names.
    pub params: Vec<String>,
    /// Body forms.
    pub body: Vec<Value>,
    /// The frame the macro captured, by its index in the environment.
    pub env: usize,
}

/// A mapping from values to values, kept as an association sequence whose
/// keys are structurally distinct.
#[derive(Debug)]
pub struct ValueMap {
    /// The entries, in insertion order.
    pub entries: Vec<(Value, Value)>,
}

/// A set of values, kept as a sequence of structurally distinct members.
#[derive(Debug)]
pub struct ValueSet {
    /// The members, in insertion order.
    pub items: Vec<Value>,
}

/// A value of the language.
#[derive(Debug)]
pub enum Value {
    Nil,
    Boolean(bool),
    Number(i64),
    String(String),
    Symbol(String),
    Keyword(String),
    List(Vec<Value>),
    Vector(Vec<Value>),
    MapVal(ValueMap),
    SetVal(ValueSet),
    Function(Function),
    Macro(Macro),
}

/// An evaluation error surfaced to callers.
#[derive(Debug)]
pub enum EvalError {
    UnboundSymbol(String),
    NotCallable(Value),
    ArityMismatch { expected: usize, got: usize },
    TypeError { expected: String, got: String },
    SyntaxError(String),
    Other(String),
}

/// Structural equality of values, as the language's `=` sees it: equal tags
/// and equal contents for data variants, with text compared character by
/// character, maps and sets compared without regard to order, and functions
/// and macros never equal to anything.
pub open spec fn val_eq(a: Value, b: Value) -> bool
    decreases a, 0int,
{
    match (a, b) {
        (Value::Nil, Value::Nil) => true,
        (Value::Boolean(x), Value::Boolean(y)) => x == y,
        (Value::Number(x), Value::Number(y)) => x == y,
        (Value::String(x), Value::String(y)) => x@ == y@,
        (Value::Symbol(x), Value::Symbol(y)) => x@ == y@,
        (Value::Keyword(x), Value::Keyword(y)) => x@ == y@,
        (Value::List(xs), Value::List(ys)) => seq_val_eq(xs@, ys@),
        (Value::Vector(xs), Value::Vector(ys)) => seq_val_eq(xs@, ys@),
        (Value::MapVal(x), Value::MapVal(y)) => entries_val_eq(x.entries@, y.entries@),
        (Value::SetVal(x), Value::SetVal(y)) => items_val_eq(x.items@, y.items@),
        _ => false,
    }
}

/// Pairwise structural equality of value sequences.
pub open spec fn seq_val_eq(xs: Seq<Value>, ys: Seq<Value>) -> bool
    decreases xs, 2int,
{
    xs.len() == ys.len() && forall|i: int| 0 <= i < xs.len() ==> val_eq(#[trigger] xs[i], ys[i])
}

/// Some entry of `ys` equals the entry `e` structurally, key and value.
pub open spec fn entry_in(e: (Value, Value), ys: Seq<(Value, Value)>) -> bool
    decreases e, 1int,
{
    exists|j: int| 0 <= j < ys.len() && val_eq(e.0, (#[trigger] ys[j]).0) && val_eq(e.1, ys[j].1)
}

/// Some entry of `xs` equals the entry `e` structurally, key and value.
pub open spec fn entry_matched(xs: Seq<(Value, Value)>, e: (Value, Value)) -> bool
    decreases xs, 1int,
{
    exists|i: int| 0 <= i < xs.len() && val_eq((#[trigger] xs[i]).0, e.0) && val_eq(xs[i].1, e.1)
}

/// Mutual containment of association sequences: every entry of each side
/// has a structurally equal entry on the other.
pub open spec fn entries_val_eq(xs: Seq<(Value, Value)>, ys: Seq<(Value, Value)>) -> bool
    decreases xs, 2int,
{
    &&& forall|i: int| 0 <= i < xs.len() ==> entry_in(#[trigger] xs[i], ys)
    &&& forall|j: int| 0 <= j < ys.len() ==> entry_matched(xs, #[trigger] ys[j])
}

/// Some member of `ys` equals `x` structurally.
pub open spec fn item_in(x: Value, ys: Seq<Value>) -> bool
    decreases x, 1int,
{
    exists|j: int| 0 <= j < ys.len() && val_eq(x, #[trigger] ys[j])
}

/// Some member of `xs` equals `y` structurally.
pub open spec fn item_matched(xs: Seq<Value>, y: Value) -> bool
    decreases xs, 1int,
{
    exists|i: int| 0 <= i < xs.len() && val_eq(#[trigger] xs[i], y)
}

/// Mutual containment of member sequences.
pub open spec fn items_val_eq(xs: Seq<Value>, ys: Seq<Value>) -> bool
    decreases xs, 2int,
{
    &&& forall|i: int| 0 <= i < xs.len() ==> item_in(#[trigger] xs[i], ys)
    &&& forall|j: int| 0 <= j < ys.len() ==> item_matched(xs, #[trigger] ys[j])
}

/// Structural identity of values: like `val_eq`, but order-sensitive for
/// maps and sets and defined on functions and macros as well. This is the
/// relation a deep copy preserves.
pub open spec fn val_sim(a: Value, b: Value) -> bool
    decreases a, 0int,
{
    match (a, b) {
        (Value::Nil, Value::Nil) => true,
        (Value::Boolean(x), Value::Boolean(y)) => x == y,
        (Value::Number(x), Value::Number(y)) => x == y,
        (Value::String(x), Value::String(y)) => x@ == y@,
        (Value::Symbol(x), Value::Symbol(y)) => x@ == y@,
        (Value::Keyword(x), Value::Keyword(y)) => x@ == y@,
        (Value::List(xs), Value::List(ys)) => seq_val_sim(xs@, ys@),
        (Value::Vector(xs), Value::Vector(ys)) => seq_val_sim(xs@, ys@),
        (Value::MapVal(x), Value::MapVal(y)) => entries_val_sim(x.entries@, y.entries@),
        (Value::SetVal(x), Value::SetVal(y)) => seq_val_sim(x.items@, y.items@),
        (Value::Function(f), Value::Function(g)) => {
            &&& names_sim(f.params@, g.params@)
            &&& seq_val_sim(f.body@, g.body@)
            &&& f.env == g.env
            &&& f.is_builtin == g.is_builtin
            &&& f.builtin_op == g.builtin_op
        },
        (Value::Macro(m), Value::Macro(n)) => {
            &&& names_sim(m.params@, n.params@)
            &&& seq_val_sim(m.body@, n.body@)
            &&& m.env == n.env
        },
        _ => false,
    }
}

/// Pairwise structural identity of value sequences.
pub open spec fn seq_val_sim(xs: Seq<Value>, ys: Seq<Value>) -> bool
    decreases xs, 2int,
{
    xs.len() == ys.len() && forall|i: int| 0 <= i < xs.len() ==> val_sim(#[trigger] xs[i], ys[i])
}

/// Pairwise structural identity of association sequences.
pub open spec fn entries_val_sim(xs: Seq<(Value, Value)>, ys: Seq<(Value, Value)>) -> bool
    decreases xs, 2int,
{
    &&& xs.len() == ys.len()
    &&& forall|i: int|
        0 <= i < xs.len() ==> val_sim((#[trigger] xs[i]).0, ys[i].0) && val_sim(xs[i].1, ys[i].1)
}

/// Names equal character by character.
pub open spec fn names_sim(xs: Seq<String>, ys: Seq<String>) -> bool {
    xs.len() == ys.len() && forall|i: int| 0 <= i < xs.len() ==> (#[trigger] xs[i])@ == ys[i]@
}

/// Decides structural equality of two values.
pub fn value_eq(a: &Value, b: &Value) -> (r: bool)
    ensures
        r == val_eq(*a, *b),
    decreases *a,
{
    match (a, b) {
        (Value::Nil, Value::Nil) => true,
        (Value::Boolean(x), Value::Boolean(y)) => *x == *y,
        (Value::Number(x), Value::Number(y)) => *x == *y,
        (Value::String(x), Value::String(y)) => *x == *y,
        (Value::Symbol(x), Value::Symbol(y)) => *x == *y,
        (Value::Keyword(x), Value::Keyword(y)) => *x == *y,
        (Value::List(xs), Value::List(ys)) => values_eq_vec(xs, ys),
        (Value::Vector(xs), Value::Vector(ys)) => values_eq_vec(xs, ys),
        (Value::MapVal(x), Value::MapVal(y)) => {
            let fwd = entries_fwd(&x.entries, &y.entries);
            if fwd {
                entries_rev(&x.entries, &y.entries)
            } else {
                false
            }
        },
        (Value::SetVal(x), Value::SetVal(y)) => {
            let fwd = items_fwd(&x.items, &y.items);
            if fwd {
                items_rev(&x.items, &y.items)
            } else {
                false
            }
        },
        _ => false,
    }
}

/// Decides pairwise structural equality of two value vectors.
fn values_eq_vec(xs: &Vec<Value>, ys: &Vec<Value>) -> (r: bool)
    ensures
        r == seq_val_eq(xs@, ys@),
    decreases xs@,
{
    let n = xs.len();
    if n != ys.len() {
        return false;
    }
    let mut i: usize = 0;
    let mut ok = true;
    while ok && i < n
        invariant
            0 <= i <= n,
            n == xs@.len(),
            n == ys@.len(),
            ok ==> forall|k: int| 0 <= k < i ==> val_eq(#[trigger] xs@[k], ys@[k]),
            !ok ==> !seq_val_eq(xs@, ys@),
        decreases n - i,
    {
        if !value_eq(&xs[i], &ys[i]) {
            ok = false;
        }
        i = i + 1;
    }
    ok
}

/// Decides whether every entry of `xs` has a structurally equal entry in
/// `ys`.
fn entries_fwd(xs: &Vec<(Value, Value)>, ys: &Vec<(Value, Value)>) -> (r: bool)
    ensures
        r == forall|i: int| 0 <= i < xs@.len() ==> entry_in(#[trigger] xs@[i], ys@),
    decreases xs@,
{
    let xn = xs.len();
    let yn = ys.len();
    let mut i: usize = 0;
    let mut ok = true;
    while ok && i < xn
        invariant
            0 <= i <= xn,
            xn == xs@.len(),
            yn == ys@.len(),
            ok ==> forall|ii: int| 0 <= ii < i ==> entry_in(#[trigger] xs@[ii], ys@),
            !ok ==> exists|ii: int| 0 <= ii < xs@.len() && !entry_in(#[trigger] xs@[ii], ys@),
        decreases xn - i,
    {
        let mut j: usize = 0;
        let mut found = false;
        while !found && j < yn
            invariant
                0 <= i < xn,
                0 <= j <= yn,
                xn == xs@.len(),
                yn == ys@.len(),
                !found ==> forall|jj: int|
                    0 <= jj < j ==> !(val_eq(xs@[i as int].0, (#[trigger] ys@[jj]).0) && val_eq(
                        xs@[i as int].1,
                        ys@[jj].1,
                    )),
                found ==> entry_in(xs@[i as int], ys@),
            decreases yn - j,
        {
            let xk = &xs[i];
            let yk = &ys[j];
            if value_eq(&xk.0, &yk.0) && value_eq(&xk.1, &yk.1) {
                found = true;
            }
            j = j + 1;
        }
        if !found {
            ok = false;
        }
        i = i + 1;
    }
    ok
}

/// Decides whether every entry of `ys` has a structurally equal entry in
/// `xs`.
fn entries_rev(xs: &Vec<(Value, Value)>, ys: &Vec<(Value, Value)>) -> (r: bool)
    ensures
        r == forall|j: int| 0 <= j < ys@.len() ==> entry_matched(xs@, #[trigger] ys@[j]),
    decreases xs@,
{
    let xn = xs.len();
    let yn = ys.len();
    let mut j: usize = 0;
    let mut ok = true;
    while ok && j < yn
        invariant
            0 <= j <= yn,
            xn == xs@.len(),
            yn == ys@.len(),
            ok ==> forall|jj: int| 0 <= jj < j ==> entry_matched(xs@, #[trigger] ys@[jj]),
            !ok ==> exists|jj: int| 0 <= jj < ys@.len() && !entry_matched(xs@, #[trigger] ys@[jj]),
        decreases yn - j,
    {
        let mut i: usize = 0;
        let mut found = false;
        while !found && i < xn
            invariant
                0 <= i <= xn,
                0 <= j < yn,
                xn == xs@.len(),
                yn == ys@.len(),
                !found ==> forall|ii: int|
                    0 <= ii < i ==> !(val_eq((#[trigger] xs@[ii]).0, ys@[j as int].0) && val_eq(
                        xs@[ii].1,
                        ys@[j as int].1,
                    )),
                found ==> entry_matched(xs@, ys@[j as int]),
            decreases xn - i,
        {
            let xk = &xs[i];
            let yk = &ys[j];
            if value_eq(&xk.0, &yk.0) && value_eq(&xk.1, &yk.1) {
                found = true;
            }
            i = i + 1;
        }
        if !found {
            ok = false;
        }
        j = j + 1;
    }
    ok
}

/// Decides whether every member of `xs` has a structurally equal member in
/// `ys`.
fn items_fwd(xs: &Vec<Value>, ys: &Vec<Value>) -> (r: bool)
    ensures
        r == forall|i: int| 0 <= i < xs@.len() ==> item_in(#[trigger] xs@[i], ys@),
    decreases xs@,
{
    let xn = xs.len();
    let yn = ys.len();
    let mut i: usize = 0;
    let mut ok = true;
    while ok && i < xn
        invariant
            0 <= i <= xn,
            xn == xs@.len(),
            yn == ys@.len(),
            ok ==> forall|ii: int| 0 <= ii < i ==> item_in(#[trigger] xs@[ii], ys@),
            !ok ==> exists|ii: int| 0 <= ii < xs@.len() && !item_in(#[trigger] xs@[ii], ys@),
        decreases xn - i,
    {
        let mut j: usize = 0;
        let mut found = false;
        while !found && j < yn
            invariant
                0 <= i < xn,
                0 <= j <= yn,
                xn == xs@.len(),
                yn == ys@.len(),
                !found ==> forall|jj: int|
                    0 <= jj < j ==> !val_eq(xs@[i as int], #[trigger] ys@[jj]),
                found ==> item_in(xs@[i as int], ys@),
            decreases yn - j,
        {
            if value_eq(&xs[i], &ys[j]) {
                found = true;
            }
            j = j + 1;
        }
        if !found {
            ok = false;
        }
        i = i + 1;
    }
    ok
}

/// Decides whether every member of `ys` has a structurally equal member in
/// `xs`.
fn items_rev(xs: &Vec<Value>, ys: &Vec<Value>) -> (r: bool)
    ensures
        r == forall|j: int| 0 <= j < ys@.len() ==> item_matched(xs@, #[trigger] ys@[j]),
    decreases xs@,
{
    let xn = xs.len();
    let yn = ys.len();
    let mut j: usize = 0;
    let mut ok = true;
    while ok && j < yn
        invariant
            0 <= j <= yn,
            xn == xs@.len(),
            yn == ys@.len(),
            ok ==> forall|jj: int| 0 <= jj < j ==> item_matched(xs@, #[trigger] ys@[jj]),
            !ok ==> exists|jj: int| 0 <= jj < ys@.len() && !item_matched(xs@, #[trigger] ys@[jj]),
        decreases yn - j,
    {
        let mut i: usize = 0;
        let mut found = false;
        while !found && i < xn
            invariant
                0 <= i <= xn,
                0 <= j < yn,
                xn == xs@.len(),
                yn == ys@.len(),
                !found ==> forall|ii: int|
                    0 <= ii < i ==> !val_eq(#[trigger] xs@[ii], ys@[j as int]),
                found ==> item_matched(xs@, ys@[j as int]),
            decreases xn - i,
        {
            if value_eq(&xs[i], &ys[j]) {
                found = true;
            }
            i = i + 1;
        }
        if !found {
            ok = false;
        }
        j = j + 1;
    }
    ok
}

impl PartialEq for Value {
    fn eq(&self, other: &Value) -> (r: bool) {
        value_eq(self, other)
    }
}

impl vstd::std_specs::cmp::PartialEqSpecImpl for Value {
    open spec fn obeys_eq_spec() -> bool {
        true
    }

    open spec fn eq_spec(&self, other: &Value) -> bool {
        val_eq(*self, *other)
    }
}

/// Deep-copies a value; the copy is structurally identical to the original.
pub fn value_clone(v: &Value) -> (r: Value)
    ensures
        val_sim(*v, r),
    decreases *v,
{
    match v {
        Value::Nil => Value::Nil,
        Value::Boolean(x) => Value::Boolean(*x),
        Value::Number(x) => Value::Number(*x),
        Value::String(x) => Value::String(x.clone()),
        Value::Symbol(x) => Value::Symbol(x.clone()),
        Value::Keyword(x) => Value::Keyword(x.clone()),
        Value::List(xs) => Value::List(clone_values(xs)),
        Value::Vector(xs) => Value::Vector(clone_values(xs)),
        Value::MapVal(x) => Value::MapVal(ValueMap { entries: clone_entries(&x.entries) }),
        Value::SetVal(x) => Value::SetVal(ValueSet { items: clone_values(&x.items) }),
        Value::Function(f) => Value::Function(
            Function {
                params: clone_names(&f.params),
                body: clone_values(&f.body),
                env: f.env,
                is_builtin: f.is_builtin,
                builtin_op: f.builtin_op,
            },
        ),
        Value::Macro(m) => Value::Macro(
            Macro { params: clone_names(&m.params), body: clone_values(&m.body), env: m.env },
        ),
    }
}

/// Deep-copies a vector of values.
pub fn clone_values(xs: &Vec<Value>) -> (r: Vec<Value>)
    ensures
        seq_val_sim(xs@, r@),
    decreases xs@,
{
    let n = xs.len();
    let mut r: Vec<Value> = Vec::new();
    let mut i: usize = 0;
    while i < n
        invariant
            0 <= i <= n,
            n == xs@.len(),
            r@.len() == i,
            forall|k: int| 0 <= k < i ==> val_sim(#[trigger] xs@[k], r@[k]),
        decreases n - i,
    {
        r.push(value_clone(&xs[i]));
        i = i + 1;
    }
    r
}

/// Deep-copies an association vector.
fn clone_entries(xs: &Vec<(Value, Value)>) -> (r: Vec<(Value, Value)>)
    ensures
        entries_val_sim(xs@, r@),
    decreases xs@,
{
    let n = xs.len();
    let mut r: Vec<(Value, Value)> = Vec::new();
    let mut i: usize = 0;
    while i < n
        invariant
            0 <= i <= n,
            n == xs@.len(),
            r@.len() == i,
            forall|k: int|
                0 <= k < i ==> val_sim((#[trigger] xs@[k]).0, r@[k].0) && val_sim(
                    xs@[k].1,
                    r@[k].1,
                ),
        decreases n - i,
    {
        let pair = &xs[i];
        let key = value_clone(&pair.0);
        let val = value_clone(&pair.1);
        r.push((key, val));
        i = i + 1;
    }
    r
}

/// Copies a vector of names.
fn clone_names(xs: &Vec<String>) -> (r: Vec<String>)
    ensures
        names_sim(xs@, r@),
{
    let n = xs.len();
    let mut r: Vec<String> = Vec::new();
    let mut i: usize = 0;
    while i < n
        invariant
            0 <= i <= n,
            n == xs@.len(),
            r@.len() == i,
            forall|k: int| 0 <= k < i ==> (#[trigger] xs@[k])@ == r@[k]@,
        decreases n - i,
    {
        r.push(xs[i].clone());
        i = i + 1;
    }
    r
}


impl ValueMap {
    /// The number of entries.
    pub fn len(&self) -> (n: usize)
        ensures
            n == self.entries@.len(),
    {
        self.entries.len()
    }

    /// The value of the first entry whose key structurally equals `key`.
    pub fn get(&self, key: &Value) -> (r: Option<&Value>)
        ensures
            match r {
                Some(v) => exists|j: int|
                    0 <= j < self.entries@.len() && val_eq((#[trigger] self.entries@[j]).0, *key)
                        && *v == self.entries@[j].1,
                None => forall|j: int|
                    0 <= j < self.entries@.len() ==> !val_eq((#[trigger] self.entries@[j]).0, *key),
            },
    {
        let n = self.entries.len();
        let mut j: usize = 0;
        while j < n
            invariant
                0 <= j <= n,
                n == self.entries@.len(),
                forall|t: int|
                    0 <= t < j ==> !val_eq((#[trigger] self.entries@[t]).0, *key),
            decreases n - j,
        {
            if value_eq(&self.entries[j].0, key) {
                return Some(&self.entries[j].1);
            }
            j = j + 1;
        }
        None
    }
}

impl ValueSet {
    /// The number of members.
    pub fn len(&self) -> (n: usize)
        ensures
            n == self.items@.len(),
    {
        self.items.len()
    }

    /// Whether a structurally equal member is present.
    pub fn contains(&self, v: &Value) -> (b: bool)
        ensures
            b == item_matched(self.items@, *v),
    {
        let n = self.items.len();
        let mut j: usize = 0;
        while j < n
            invariant
                0 <= j <= n,
                n == self.items@.len(),
                forall|t: int| 0 <= t < j ==> !val_eq(#[trigger] self.items@[t], *v),
            decreases n - j,
        {
            if value_eq(&self.items[j], v) {
                proof {
                    assert(item_matched(self.items@, *v));
                }
                return true;
            }
            j = j + 1;
        }
        false
    }
}

impl Function {
    /// Creates a new user-defined function capturing the given frame.
    pub fn new(params: Vec<String>, body: Vec<Value>, env: usize) -> (f: Function)
        ensures
            f.params == params,
            f.body == body,
            f.env == env,
            !f.is_builtin,
            f.builtin_op is None,
    {
        Function { params, body, env, is_builtin: false, builtin_op: None }
    }

    /// Creates a new built-in function.
    pub fn builtin(op: BuiltinOp) -> (f: Function)
        ensures
            f.params@.len() == 0,
            f.body@.len() == 0,
            f.env == 0,
            f.is_builtin,
            f.builtin_op == Some(op),
    {
        Function { params: Vec::new(), body: Vec::new(), env: 0, is_builtin: true, builtin_op: Some(op) }
    }
}

impl Macro {
    /// Creates a new macro capturing the given frame.
    pub fn new(params: Vec<String>, body: Vec<Value>, env: usize) -> (m: Macro)
        ensures
            m.params == params,
            m.body == body,
            m.env == env,
    {
        Macro { params, body, env }
    }
}

} // verus!
