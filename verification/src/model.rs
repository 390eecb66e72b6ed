//! The mathematical model: values, failures and their printed renderings.

use vstd::prelude::*;

verus! {

/// The operations that the root environment binds to native code.
#[derive(Clone, Copy, Debug, PartialEq, Eq, Structural)]
pub enum Primitive {
    Print,
    Println,
    PrintTyped,
    PrintlnTyped,
    Add,
    Sub,
    Mul,
    Div,
    Cons,
    List,
    IsList,
    IsNil,
    Nth,
    Rest,
    Count,
    Equal,
}

/// A value of the language, as mathematics sees it.
pub enum Value {
    Nil,
    Int(int),
    Symbol(Seq<char>),
    List(Seq<Value>),
    Func(Primitive),
    AFunc { exp: Box<Value>, env: nat, params: Box<Value>, is_macro: bool },
}

/// The ways in which an evaluation fails.
pub enum Failure {
    /// What was expected, and a rendering of what was received.
    InvalidType(Seq<char>, Seq<char>),
    InvalidOperation(Seq<char>),
    InvalidArgument(Seq<char>),
    UndefinedSymbol(Seq<char>),
    /// A bound on nesting or on repetition was reached.
    LimitExceeded(Seq<char>),
}

/// What an evaluation gives: a value, or the failure that ended it.
pub type Outcome = Result<Value, Failure>;

/// One scope: its own bindings and the scope it was opened in.
pub struct Frame {
    pub parent: Option<nat>,
    pub data: Map<Seq<char>, Value>,
}

/// Everything an evaluation can read or change: the frames made so far, each
/// known by its position, and the text printed so far.
pub struct State {
    pub frames: Seq<Frame>,
    pub out: Seq<char>,
}

/// The bindings of a frame that holds none.
pub open spec fn no_bindings() -> Map<Seq<char>, Value> {
    Map::empty()
}

/// The state after a frame with the given parent has been opened.
pub open spec fn open_frame(st: State, parent: Option<nat>) -> State {
    State { frames: st.frames.push(Frame { parent, data: no_bindings() }), ..st }
}

/// The state after `name` has been bound in frame `env` itself. A frame that
/// does not exist cannot be written.
pub open spec fn define(st: State, env: nat, name: Seq<char>, v: Value) -> State {
    if env < st.frames.len() {
        State {
            frames: st.frames.update(
                env as int,
                Frame {
                    parent: st.frames[env as int].parent,
                    data: st.frames[env as int].data.insert(name, v),
                },
            ),
            ..st
        }
    } else {
        st
    }
}

/// What `key` is bound to as seen from frame `env`: the frame's own binding,
/// else that of the nearest enclosing frame that has one.
pub open spec fn lookup(st: State, env: nat, key: Seq<char>) -> Option<Value>
    decreases env,
{
    if env >= st.frames.len() {
        None
    } else if st.frames[env as int].data.contains_key(key) {
        Some(st.frames[env as int].data[key])
    } else {
        match st.frames[env as int].parent {
            Some(p) => if p < env {
                lookup(st, p, key)
            } else {
                None
            },
            None => None,
        }
    }
}

/// What a value is bound to when it is used as a key: only symbols are bound.
pub open spec fn resolve(st: State, env: nat, key: Value) -> Option<Value> {
    match key {
        Value::Symbol(name) => lookup(st, env, name),
        _ => None,
    }
}

/// Binds a key in frame `env` itself. Only a symbol can be bound, and only in
/// a frame that exists; otherwise the state stays as it is.
pub open spec fn set_binding(st: State, env: nat, key: Value, v: Value) -> (
    Result<(), Failure>,
    State,
) {
    match key {
        Value::Symbol(name) => if env < st.frames.len() {
            (Ok(()), define(st, env, name, v))
        } else {
            (Err(Failure::InvalidArgument("unknown environment"@)), st)
        },
        other => (Err(Failure::InvalidType("Symbol"@, render(other, true))), st),
    }
}

/// Binds `params[from..]` in frame `env`, each to the argument at its own
/// position, or to `Nil` where the arguments have run out. Stops at the first
/// parameter that cannot be bound.
pub open spec fn bind(st: State, env: nat, params: Seq<Value>, args: Seq<Value>, from: nat) -> (
    Result<(), Failure>,
    State,
)
    decreases params.len() - from,
{
    if from >= params.len() {
        (Ok(()), st)
    } else {
        let (r, st1) = set_binding(st, env, params[from as int], item_or_nil(args, from as int));
        match r {
            Err(e) => (Err(e), st1),
            Ok(_) => bind(st1, env, params, args, from + 1),
        }
    }
}

/// The element at `index`, or `Nil` past the end.
pub open spec fn item_or_nil(items: Seq<Value>, index: int) -> Value {
    if 0 <= index < items.len() {
        items[index]
    } else {
        Value::Nil
    }
}

/// Everything after the first element; empty for an empty sequence.
pub open spec fn tail(items: Seq<Value>) -> Seq<Value> {
    if items.len() > 0 {
        items.subrange(1, items.len() as int)
    } else {
        Seq::empty()
    }
}

/// The character that writes a digit.
pub open spec fn digit_char(d: int) -> char {
    if d == 0 {
        '0'
    } else if d == 1 {
        '1'
    } else if d == 2 {
        '2'
    } else if d == 3 {
        '3'
    } else if d == 4 {
        '4'
    } else if d == 5 {
        '5'
    } else if d == 6 {
        '6'
    } else if d == 7 {
        '7'
    } else if d == 8 {
        '8'
    } else {
        '9'
    }
}

/// The decimal digits of a natural number, most significant first.
pub open spec fn digits(n: nat) -> Seq<char>
    decreases n,
{
    if n < 10 {
        seq![digit_char(n as int)]
    } else {
        digits(n / 10).push(digit_char((n % 10) as int))
    }
}

/// The decimal text of an integer, with a leading minus sign when negative.
pub open spec fn decimal(n: int) -> Seq<char> {
    if n < 0 {
        seq!['-'] + digits((-n) as nat)
    } else {
        digits(n as nat)
    }
}

/// The printed form of a value: the plain one that a reader could take back,
/// or the one that names each value's kind.
pub open spec fn render(v: Value, typed: bool) -> Seq<char>
    decreases v, 0nat,
{
    match v {
        Value::Nil => if typed {
            "Nil()"@
        } else {
            "nil"@
        },
        Value::Int(n) => if typed {
            "Int("@ + decimal(n) + ")"@
        } else {
            decimal(n)
        },
        Value::Symbol(s) => if typed {
            "Symbol("@ + s + ")"@
        } else {
            s
        },
        Value::List(items) => if typed {
            "List("@ + render_items(items, typed, items.len()) + ")"@
        } else {
            "("@ + render_items(items, typed, items.len()) + ")"@
        },
        Value::Func(_) => "#func()"@,
        Value::AFunc { exp, env, params, is_macro } => if typed {
            "#"@ + (if is_macro {
                "macro"@
            } else {
                "builtin_func"@
            }) + "(exp="@ + render(*exp, false) + " params="@ + render(*params, true) + ")"@
        } else if is_macro {
            "#macro()"@
        } else {
            "#builtin_func()"@
        },
    }
}

/// The renderings of the first `count` items, separated by single spaces.
pub open spec fn render_items(items: Seq<Value>, typed: bool, count: nat) -> Seq<char>
    decreases items, count,
{
    if count == 0 || count > items.len() {
        Seq::empty()
    } else if count == 1 {
        render(items[0], typed)
    } else {
        render_items(items, typed, (count - 1) as nat) + " "@ + render(
            items[count - 1],
            typed,
        )
    }
}

/// Equality as the language's `=` sees it: structural, except that a native
/// function equals nothing, itself included.
pub open spec fn same_value(a: Value, b: Value) -> bool
    decreases a, 0nat,
{
    match (a, b) {
        (Value::Nil, Value::Nil) => true,
        (Value::Int(x), Value::Int(y)) => x == y,
        (Value::Symbol(s), Value::Symbol(t)) => s == t,
        (Value::List(xs), Value::List(ys)) => xs.len() == ys.len() && same_items(
            xs,
            ys,
            xs.len(),
        ),
        (
            Value::AFunc { exp: e1, env: n1, params: p1, is_macro: m1 },
            Value::AFunc { exp: e2, env: n2, params: p2, is_macro: m2 },
        ) => same_value(*e1, *e2) && n1 == n2 && same_value(*p1, *p2) && m1 == m2,
        _ => false,
    }
}

/// Whether the first `count` items of two sequences are pairwise the same.
pub open spec fn same_items(xs: Seq<Value>, ys: Seq<Value>, count: nat) -> bool
    decreases xs, count,
{
    if count == 0 {
        true
    } else if count > xs.len() || count > ys.len() {
        false
    } else {
        same_items(xs, ys, (count - 1) as nat) && same_value(xs[count - 1], ys[count - 1])
    }
}

/// The text that reports a failure.
pub open spec fn failure_text(f: Failure) -> Seq<char> {
    match f {
        Failure::InvalidType(expected, got) => "expected: "@ + expected + ", received: "@ + got,
        Failure::InvalidOperation(op) => "invalid operation: "@ + op,
        Failure::InvalidArgument(what) => "invalid argument: "@ + what,
        Failure::UndefinedSymbol(name) => "undefined symbol: "@ + name,
        Failure::LimitExceeded(what) => "limit exceeded: "@ + what,
    }
}

/// Whether `a`, from position `from` on, comes before `b` or equals it, in
/// the order of dictionaries, character by character.
pub open spec fn text_le(a: Seq<char>, b: Seq<char>, from: nat) -> bool
    decreases a.len() - from,
{
    if from >= a.len() {
        true
    } else if from >= b.len() {
        false
    } else if a[from as int] < b[from as int] {
        true
    } else if b[from as int] < a[from as int] {
        false
    } else {
        text_le(a, b, from + 1)
    }
}

/// Whether no line comes before its predecessor.
pub open spec fn ordered(lines: Seq<Seq<char>>) -> bool {
    forall|i: int| 0 <= i < lines.len() - 1 ==> text_le(#[trigger] lines[i], lines[i + 1], 0)
}

/// The line that shows one binding: the name, a blank and the value.
pub open spec fn binding_line(pair: (Seq<char>, Value)) -> Seq<char> {
    pair.0 + " "@ + render(pair.1, false)
}

/// The lines that show a sequence of bindings.
pub open spec fn binding_lines(pairs: Seq<(Seq<char>, Value)>) -> Seq<Seq<char>> {
    Seq::new(pairs.len(), |i: int| binding_line(pairs[i]))
}

/// Whether a sequence of bindings lists what a frame holds: every binding of
/// the frame once, and nothing else.
#[verifier::opaque]
pub open spec fn lists_bindings(pairs: Seq<(Seq<char>, Value)>, data: Map<Seq<char>, Value>) -> bool {
    &&& forall|i: int|
        0 <= i < pairs.len() ==> data.contains_key((#[trigger] pairs[i]).0) && data[pairs[i].0]
            == pairs[i].1
    &&& forall|i: int, j: int|
        0 <= i < j < pairs.len() ==> (#[trigger] pairs[i]).0 != (#[trigger] pairs[j]).0
    &&& forall|k: Seq<char>| #[trigger]
        data.contains_key(k) ==> exists|i: int| 0 <= i < pairs.len() && (#[trigger] pairs[i]).0 == k
}

/// The first `count` lines, separated by single blanks.
pub open spec fn joined(lines: Seq<Seq<char>>, count: nat) -> Seq<char>
    decreases count,
{
    if count == 0 || count > lines.len() {
        Seq::empty()
    } else if count == 1 {
        lines[0]
    } else {
        joined(lines, (count - 1) as nat) + " "@ + lines[count - 1]
    }
}

/// How a frame is shown when its bindings are taken in the given order.
pub open spec fn frame_text(pairs: Seq<(Seq<char>, Value)>) -> Seq<char> {
    "{"@ + joined(binding_lines(pairs), pairs.len()) + "}"@
}

} // verus!
