//! The native operations (arithmetic, lists, comparison and printing) and
//! the session that an interpreter starts from.

use vstd::prelude::*;
use vstd::string::StringExecFns;
use std::rc::Rc;
use crate::data::{AtomType, AtomVal, AtomRet, AtomError, share, values_of, outcome_of, c_nil, c_int, c_symbol, c_func};
use crate::env::{Env, Session, Limits, c_env, env_set};
use crate::eval::{eval_str, evaluate_text};
use crate::model::{Primitive, Value, Failure, Outcome, State, render, render_items, item_or_nil, tail, same_value, open_frame, define};

verus! {

pub open spec fn magnitude(a: int) -> nat {
    if a < 0 {
        (-a) as nat
    } else {
        a as nat
    }
}

/// Division that rounds toward zero.
pub open spec fn quotient(a: int, b: int) -> int {
    if (a >= 0) == (b > 0) {
        (magnitude(a) / magnitude(b)) as int
    } else {
        -((magnitude(a) / magnitude(b)) as int)
    }
}

pub open spec fn fits(n: int) -> bool {
    i64::MIN <= n <= i64::MAX
}

/// One step of integer arithmetic on 64-bit values. A result that does not
/// fit, and a division by zero, are failures.
pub open spec fn arith(op: Primitive, a: int, b: int) -> Result<int, Failure> {
    if op == Primitive::Div && b == 0 {
        Err(Failure::InvalidArgument("division by zero"@))
    } else {
        let r = match op {
            Primitive::Add => a + b,
            Primitive::Sub => a - b,
            Primitive::Mul => a * b,
            _ => quotient(a, b),
        };
        if fits(r) {
            Ok(r)
        } else {
            Err(Failure::InvalidArgument("integer overflow"@))
        }
    }
}

pub open spec fn as_int(v: Value) -> Result<int, Failure> {
    match v {
        Value::Int(n) => Ok(n),
        other => Err(Failure::InvalidType("Int"@, render(other, true))),
    }
}

pub open spec fn as_list(v: Value) -> Result<Seq<Value>, Failure> {
    match v {
        Value::List(items) => Ok(items),
        other => Err(Failure::InvalidType("List"@, render(other, true))),
    }
}

/// Folds `args[from..]` into `acc`, left to right.
pub open spec fn fold_ints(op: Primitive, acc: int, args: Seq<Value>, from: nat) -> Result<
    int,
    Failure,
>
    decreases args.len() - from,
{
    if from >= args.len() {
        Ok(acc)
    } else {
        match as_int(args[from as int]) {
            Err(e) => Err(e),
            Ok(n) => match arith(op, acc, n) {
                Err(e) => Err(e),
                Ok(next) => fold_ints(op, next, args, from + 1),
            },
        }
    }
}

/// An arithmetic operation on any number of arguments: `Nil` for none, the
/// argument itself for one integer, else the fold from the first argument.
pub open spec fn int_op_result(op: Primitive, args: Seq<Value>) -> Outcome {
    if args.len() == 0 {
        Ok(Value::Nil)
    } else {
        match as_int(args[0]) {
            Err(e) => Err(e),
            Ok(first) => match fold_ints(op, first, args, 1) {
                Err(e) => Err(e),
                Ok(n) => Ok(Value::Int(n)),
            },
        }
    }
}

/// Whether each of the first `count` arguments is the same as its successor.
pub open spec fn chain_same(args: Seq<Value>, count: nat) -> bool
    decreases count,
{
    if count == 0 {
        true
    } else {
        chain_same(args, (count - 1) as nat) && (count < args.len() ==> same_value(
            args[count as int],
            args[count - 1],
        ))
    }
}

pub open spec fn truth(b: bool) -> Value {
    if b {
        Value::Int(1)
    } else {
        Value::Nil
    }
}

/// What a native operation returns.
pub open spec fn prim_result(op: Primitive, args: Seq<Value>) -> Outcome {
    match op {
        Primitive::Print | Primitive::Println | Primitive::PrintTyped | Primitive::PrintlnTyped => Ok(
            item_or_nil(args, 0),
        ),
        Primitive::Add | Primitive::Sub | Primitive::Mul | Primitive::Div => int_op_result(
            op,
            args,
        ),
        Primitive::Cons => match as_list(item_or_nil(args, 1)) {
            Err(e) => Err(e),
            Ok(items) => Ok(Value::List(seq![item_or_nil(args, 0)] + items)),
        },
        Primitive::List => Ok(Value::List(args)),
        Primitive::IsList => Ok(truth(item_or_nil(args, 0) is List)),
        Primitive::IsNil => Ok(truth(item_or_nil(args, 0) is Nil)),
        Primitive::Count => match as_list(item_or_nil(args, 0)) {
            Err(e) => Err(e),
            Ok(items) => if fits(items.len() as int) {
                Ok(Value::Int(items.len() as int))
            } else {
                Err(Failure::InvalidArgument("integer overflow"@))
            },
        },
        Primitive::Nth => match as_list(item_or_nil(args, 0)) {
            Err(e) => Err(e),
            Ok(items) => Ok(
                item_or_nil(
                    items,
                    match item_or_nil(args, 1) {
                        Value::Int(n) => n,
                        _ => 0,
                    },
                ),
            ),
        },
        Primitive::Rest => match item_or_nil(args, 0) {
            Value::List(items) => Ok(Value::List(tail(items))),
            _ => Ok(Value::Nil),
        },
        Primitive::Equal => Ok(truth(chain_same(args, args.len()))),
    }
}

/// What a native operation prints.
pub open spec fn prim_output(op: Primitive, args: Seq<Value>) -> Seq<char> {
    match op {
        Primitive::Print => render_items(args, false, args.len()),
        Primitive::Println => render_items(args, false, args.len()) + "\n"@,
        Primitive::PrintTyped => render_items(args, true, args.len()),
        Primitive::PrintlnTyped => render_items(args, true, args.len()) + "\n"@,
        _ => Seq::empty(),
    }
}

/// A native operation applied to arguments: what it returns, and the state
/// with what it printed.
pub open spec fn prim_apply(op: Primitive, args: Seq<Value>, st: State) -> (Outcome, State) {
    (prim_result(op, args), State { out: st.out + prim_output(op, args), ..st })
}

/// The argument at `index`, or `Nil` past the end.
pub fn safe_get(args: &[AtomVal], index: usize) -> (r: AtomVal)
    ensures
        r@ == item_or_nil(values_of(args@), index as int),
{
    if index < args.len() {
        share(&args[index])
    } else {
        c_nil()
    }
}

/// The values from position `from` on; none where there are not so many.
pub fn list_from(items: &[AtomVal], from: usize) -> (r: Vec<AtomVal>)
    ensures
        from <= items@.len() ==> r@ == items@.subrange(from as int, items@.len() as int),
        from > items@.len() ==> r@ == Seq::<AtomVal>::empty(),
{
    let mut out: Vec<AtomVal> = Vec::new();
    if from > items.len() {
        return out;
    }
    let mut k: usize = from;
    while k < items.len()
        invariant
            from <= k <= items.len(),
            out@ =~= items@.subrange(from as int, k as int),
        decreases items.len() - k,
    {
        out.push(share(&items[k]));
        k = k + 1;
    }
    out
}

fn magnitude_of(a: i64) -> (m: u64)
    ensures
        m == magnitude(a as int),
{
    if a < 0 {
        (0 - (a as i128)) as u64
    } else {
        a as u64
    }
}

fn failure(what: &str) -> (e: AtomError)
    ensures
        e@ == Failure::InvalidArgument(what@),
{
    AtomError::InvalidArgument(String::from_str(what))
}

fn arith_step(op: Primitive, a: i64, b: i64) -> (r: Result<i64, AtomError>)
    requires
        op == Primitive::Add || op == Primitive::Sub || op == Primitive::Mul || op
            == Primitive::Div,
    ensures
        arith(op, a as int, b as int) matches Ok(n) ==> r == Ok::<i64, AtomError>(n as i64),
        arith(op, a as int, b as int) matches Err(f) ==> (r matches Err(e) && e@ == f),
{
    let checked: Option<i64> = match op {
        Primitive::Add => a.checked_add(b),
        Primitive::Sub => a.checked_sub(b),
        Primitive::Mul => a.checked_mul(b),
        _ => {
            if b == 0 {
                return Err(failure("division by zero"));
            }
            let q: u64 = magnitude_of(a) / magnitude_of(b);
            if (a >= 0) == (b > 0) {
                if q > 0x7fff_ffff_ffff_ffffu64 {
                    None
                } else {
                    Some(q as i64)
                }
            } else {
                Some((0 - (q as i128)) as i64)
            }
        },
    };
    match checked {
        Some(n) => Ok(n),
        None => Err(failure("integer overflow")),
    }
}

fn int_op(op: Primitive, args: &[AtomVal]) -> (r: AtomRet)
    requires
        op == Primitive::Add || op == Primitive::Sub || op == Primitive::Mul || op
            == Primitive::Div,
    ensures
        outcome_of(r) == int_op_result(op, values_of(args@)),
{
    if args.len() > 0 {
        let mut acc: i64 = args[0].get_int()?;
        let mut k: usize = 1;
        while k < args.len()
            invariant
                1 <= k <= args.len(),
                op == Primitive::Add || op == Primitive::Sub || op == Primitive::Mul || op
                    == Primitive::Div,
                fold_ints(op, acc as int, values_of(args@), k as nat) == fold_ints(
                    op,
                    values_of(args@)[0]->Int_0,
                    values_of(args@),
                    1,
                ),
                values_of(args@)[0] is Int,
            decreases args.len() - k,
        {
            let el: i64 = args[k].get_int()?;
            acc = arith_step(op, acc, el)?;
            k = k + 1;
        }
        Ok(c_int(acc))
    } else {
        Ok(c_nil())
    }
}

fn truth_value(b: bool) -> (r: AtomVal)
    ensures
        r@ == truth(b),
{
    if b {
        c_int(1)
    } else {
        c_nil()
    }
}

fn list_value(items: Vec<AtomVal>) -> (r: AtomVal)
    ensures
        r@ == Value::List(values_of(items@)),
{
    Rc::new(AtomType::List(items))
}

fn cons(args: &[AtomVal]) -> (r: AtomRet)
    ensures
        outcome_of(r) == prim_result(Primitive::Cons, values_of(args@)),
{
    let second = safe_get(args, 1);
    let items = second.get_list()?;
    let mut list: Vec<AtomVal> = Vec::new();
    let first = safe_get(args, 0);
    let ghost head = first;
    list.push(first);
    let mut k: usize = 0;
    while k < items.len()
        invariant
            k <= items.len(),
            list@ =~= seq![head] + items@.subrange(0, k as int),
        decreases items.len() - k,
    {
        list.push(share(&items[k]));
        k = k + 1;
    }
    assert(values_of(list@) =~= seq![head@] + values_of(items@));
    Ok(list_value(list))
}

fn count(args: &[AtomVal]) -> (r: AtomRet)
    ensures
        outcome_of(r) == prim_result(Primitive::Count, values_of(args@)),
{
    let first = safe_get(args, 0);
    let items = first.get_list()?;
    let n: usize = items.len();
    if n as u64 <= 0x7fff_ffff_ffff_ffffu64 {
        Ok(c_int(n as i64))
    } else {
        Err(failure("integer overflow"))
    }
}

fn nth(args: &[AtomVal]) -> (r: AtomRet)
    ensures
        outcome_of(r) == prim_result(Primitive::Nth, values_of(args@)),
{
    let second = safe_get(args, 1);
    let n: i64 = match &*second {
        AtomType::Int(n) => *n,
        _ => 0,
    };
    let first = safe_get(args, 0);
    let items = first.get_list()?;
    if n >= 0 && (n as u64) < (items.len() as u64) {
        Ok(share(&items[n as usize]))
    } else {
        Ok(c_nil())
    }
}

fn rest(args: &[AtomVal]) -> (r: AtomRet)
    ensures
        outcome_of(r) == prim_result(Primitive::Rest, values_of(args@)),
{
    let first = safe_get(args, 0);
    match &*first {
        AtomType::List(seq) => {
            let from: usize = if seq.len() > 0 {
                1
            } else {
                0
            };
            let items = list_from(seq.as_slice(), from);
            assert(values_of(items@) =~= tail(values_of(seq@)));
            Ok(list_value(items))
        },
        _ => Ok(c_nil()),
    }
}

fn partialeq(args: &[AtomVal]) -> (r: AtomRet)
    ensures
        outcome_of(r) == prim_result(Primitive::Equal, values_of(args@)),
{
    let mut i: usize = 0;
    while i < args.len()
        invariant
            i <= args.len(),
            chain_same(values_of(args@), i as nat),
        decreases args.len() - i,
    {
        if i + 1 < args.len() {
            let arg: &AtomType = &*args[i];
            let next_arg: &AtomType = &*args[i + 1];
            if !next_arg.same(arg) {
                proof {
                    lemma_chain_breaks(values_of(args@), (i + 1) as nat, args.len() as nat);
                }
                return Ok(c_nil());
            }
        }
        i = i + 1;
    }
    Ok(c_int(1))
}

/// Once one argument differs from its successor, no longer chain holds.
proof fn lemma_chain_breaks(args: Seq<Value>, at: nat, count: nat)
    requires
        0 < at <= count,
        at < args.len(),
        !same_value(args[at as int], args[at - 1]),
    ensures
        !chain_same(args, count),
    decreases count,
{
    if count > at {
        lemma_chain_breaks(args, at, (count - 1) as nat);
    }
}

/// Appends the renderings of the arguments, separated by single spaces.
fn push_args(out: &mut String, args: &[AtomVal], with_type: bool)
    ensures
        final(out)@ == old(out)@ + render_items(values_of(args@), with_type, args@.len()),
{
    let ghost start = out@;
    let mut k: usize = 0;
    while k < args.len()
        invariant
            k <= args.len(),
            out@ =~= start + render_items(values_of(args@), with_type, k as nat),
        decreases args.len() - k,
    {
        if k > 0 {
            out.append(" ");
        }
        let item: &AtomType = &*args[k];
        item.push_rendering(out, with_type);
        k = k + 1;
    }
}

fn print(op: Primitive, args: &[AtomVal], session: &mut Session) -> (r: AtomRet)
    requires
        op == Primitive::Print || op == Primitive::Println || op == Primitive::PrintTyped || op
            == Primitive::PrintlnTyped,
    ensures
        final(session).limits() == old(session).limits(),
        (outcome_of(r), final(session)@) == prim_apply(op, values_of(args@), old(session)@),
{
    let with_type: bool = match op {
        Primitive::PrintTyped | Primitive::PrintlnTyped => true,
        _ => false,
    };
    let mut text = String::new();
    push_args(&mut text, args, with_type);
    match op {
        Primitive::Println | Primitive::PrintlnTyped => {
            text.append("\n");
        },
        _ => {},
    }
    assert(text@ =~= prim_output(op, values_of(args@)));
    session.emit(text.as_str());
    Ok(safe_get(args, 0))
}

/// Applies a native operation to arguments.
pub fn call_primitive(op: Primitive, args: &[AtomVal], session: &mut Session) -> (r: AtomRet)
    ensures
        final(session).limits() == old(session).limits(),
        (outcome_of(r), final(session)@) == prim_apply(op, values_of(args@), old(session)@),
{
    assert(session@.out + Seq::<char>::empty() =~= session@.out);
    match op {
        Primitive::Print | Primitive::Println | Primitive::PrintTyped | Primitive::PrintlnTyped => print(
            op,
            args,
            session,
        ),
        Primitive::Add | Primitive::Sub | Primitive::Mul | Primitive::Div => int_op(op, args),
        Primitive::Cons => cons(args),
        Primitive::List => {
            let items = list_from(args, 0);
            assert(items@ =~= args@);
            Ok(list_value(items))
        },
        Primitive::IsList => {
            let first = safe_get(args, 0);
            let is: bool = match &*first {
                AtomType::List(_) => true,
                _ => false,
            };
            Ok(truth_value(is))
        },
        Primitive::IsNil => {
            let first = safe_get(args, 0);
            let is: bool = match &*first {
                AtomType::Nil => true,
                _ => false,
            };
            Ok(truth_value(is))
        },
        Primitive::Count => count(args),
        Primitive::Nth => nth(args),
        Primitive::Rest => rest(args),
        Primitive::Equal => partialeq(args),
    }
}

/// The handle of the frame that a built session starts with.
pub const ROOT: Env = 0;

/// The library that is loaded into the root frame when a session is built:
/// list helpers, and the macros behind the reader's quasiquote forms.
pub const BOOTSTRAP: &'static str = "(do
  (def first (fn* (xs) (nth xs 0)))
  (def empty? (fn* (xs) (= 0 (count xs))))
  (def concat (fn* (a b) (if (empty? a) b (cons (first a) (concat (rest a) b)))))
  (def qq-form? (fn* (x name) (if (list? x) (if (empty? x) nil (= (first x) name)) nil)))
  (def qq-expand (fn* (x)
    (if (list? x)
      (if (qq-form? x 'unquote) (nth x 1) (qq-expand-list x))
      (list 'quote x))))
  (def qq-expand-list (fn* (xs)
    (if (empty? xs)
      (list 'quote xs)
      (if (qq-form? (first xs) 'unquote-splicing)
        (list 'concat (nth (first xs) 1) (qq-expand-list (rest xs)))
        (list 'cons (qq-expand (first xs)) (qq-expand-list (rest xs)))))))
  (defmacro backquote (fn* (x) (qq-expand x)))
  (defmacro unquote (fn* (x) x))
  (defmacro unquote-splicing (fn* (x) x)))";

/// The bounds that a built session runs under.
pub open spec fn standard_limits() -> Limits {
    Limits { depth: 512, expansions: 65536, iterations: 0xffff_ffff_ffff_ffff }
}

/// The state with a native operation bound in the root frame.
pub open spec fn installed(st: State, name: Seq<char>, op: Primitive) -> State {
    define(st, 0, name, Value::Func(op))
}

/// A root frame that holds the native operations and nothing else.
pub open spec fn root_state() -> State {
    let s = open_frame(State { frames: Seq::empty(), out: Seq::empty() }, None);
    let s = installed(s, "print"@, Primitive::Print);
    let s = installed(s, "println"@, Primitive::Println);
    let s = installed(s, "_print"@, Primitive::PrintTyped);
    let s = installed(s, "_println"@, Primitive::PrintlnTyped);
    let s = installed(s, "+"@, Primitive::Add);
    let s = installed(s, "-"@, Primitive::Sub);
    let s = installed(s, "*"@, Primitive::Mul);
    let s = installed(s, "/"@, Primitive::Div);
    let s = installed(s, "cons"@, Primitive::Cons);
    let s = installed(s, "list"@, Primitive::List);
    let s = installed(s, "list?"@, Primitive::IsList);
    let s = installed(s, "nil?"@, Primitive::IsNil);
    let s = installed(s, "nth"@, Primitive::Nth);
    let s = installed(s, "rest"@, Primitive::Rest);
    let s = installed(s, "count"@, Primitive::Count);
    installed(s, "="@, Primitive::Equal)
}

/// The state of a session that has just been built.
pub open spec fn built_state() -> State {
    evaluate_text(standard_limits(), BOOTSTRAP@, 0, root_state()).1
}

fn install(session: &mut Session, name: &str, op: Primitive)
    requires
        old(session)@.frames.len() > 0,
    ensures
        final(session).limits() == old(session).limits(),
        final(session)@ == installed(old(session)@, name@, op),
{
    let _ = env_set(&ROOT, &c_symbol(String::from_str(name)), c_func(op), session);
}

/// A session whose root frame holds the native operations and the
/// bootstrap library.
pub fn build() -> (session: Session)
    ensures
        session@ == built_state(),
        session.limits() == standard_limits(),
{
    let mut session = Session::new(
        Limits { depth: 512, expansions: 65536, iterations: 0xffff_ffff_ffff_ffff },
    );
    let env = c_env(None, &mut session);
    install(&mut session, "print", Primitive::Print);
    install(&mut session, "println", Primitive::Println);
    install(&mut session, "_print", Primitive::PrintTyped);
    install(&mut session, "_println", Primitive::PrintlnTyped);
    install(&mut session, "+", Primitive::Add);
    install(&mut session, "-", Primitive::Sub);
    install(&mut session, "*", Primitive::Mul);
    install(&mut session, "/", Primitive::Div);
    install(&mut session, "cons", Primitive::Cons);
    install(&mut session, "list", Primitive::List);
    install(&mut session, "list?", Primitive::IsList);
    install(&mut session, "nil?", Primitive::IsNil);
    install(&mut session, "nth", Primitive::Nth);
    install(&mut session, "rest", Primitive::Rest);
    install(&mut session, "count", Primitive::Count);
    install(&mut session, "=", Primitive::Equal);
    let _ = eval_str(BOOTSTRAP, &env, &mut session);
    session
}

} // verus!
