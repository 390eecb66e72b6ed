//! What evaluation means: each form's result and effect on the state, as
//! functions of the form, the frame it is evaluated in and the state before.
//!
//! Nesting is counted: evaluating a list form takes one level of `depth`, and
//! with none left the result is `LimitExceeded`. Repetition is counted too:
//! macro expansion of one form and the iterations of one `loop` each draw on
//! a budget.

use vstd::prelude::*;
use crate::env::Limits;
use crate::model::{Value, Failure, Outcome, State, item_or_nil, tail, render, lookup, resolve, define, set_binding, bind, open_frame};
use crate::builtins::prim_apply;

verus! {

/// A symbol or self-evaluating value: a symbol stands for what it is bound to,
/// anything else for itself.
pub open spec fn evaluate_atom(ast: Value, env: nat, st: State) -> (Outcome, State) {
    match ast {
        Value::Symbol(name) => match lookup(st, env, name) {
            Some(v) => (Ok(v), st),
            None => (Err(Failure::UndefinedSymbol(name)), st),
        },
        _ => (Ok(ast), st),
    }
}

/// Whether a form is a list whose head names a macro in frame `env`.
pub open spec fn names_macro(ast: Value, env: nat, st: State) -> bool {
    ast matches Value::List(args) && args.len() > 0 && (resolve(st, env, args[0]) matches Some(
        Value::AFunc { is_macro, .. },
    ) && is_macro)
}

/// Whether a value is a list headed by the symbol `recur`.
pub open spec fn is_recur(v: Value) -> bool {
    v matches Value::List(items) && item_or_nil(items, 0) == Value::Symbol("recur"@)
}

/// How many parameters come before the first `&`.
pub open spec fn fixed_count(params: Seq<Value>, from: nat) -> nat
    decreases params.len() - from,
{
    if from >= params.len() {
        params.len()
    } else if params[from as int] == Value::Symbol("&"@) {
        from
    } else {
        fixed_count(params, from + 1)
    }
}

/// What the name after `&` is bound to: the list of the arguments past the
/// first `fixed`, or `Nil`, not an empty list, where there are none.
pub open spec fn rest_value(args: Seq<Value>, fixed: nat) -> Value {
    if args.len() > fixed {
        Value::List(args.subrange(fixed as int, args.len() as int))
    } else {
        Value::Nil
    }
}

/// Binds the name that follows `&`, if there is one, to the arguments that
/// are left over.
pub open spec fn bind_rest(st: State, env: nat, params: Seq<Value>, fixed: nat, args: Seq<Value>) -> (
    Result<(), Failure>,
    State,
) {
    if fixed + 1 < params.len() {
        set_binding(st, env, params[fixed as int + 1], rest_value(args, fixed))
    } else {
        (Ok(()), st)
    }
}

/// The elements of a sequence at the even positions.
pub open spec fn evens(pairs: Seq<Value>) -> Seq<Value> {
    Seq::new(pairs.len() / 2, |i: int| pairs[2 * i])
}

/// The elements of a sequence at the odd positions.
pub open spec fn odds(pairs: Seq<Value>) -> Seq<Value> {
    Seq::new(pairs.len() / 2, |i: int| pairs[2 * i + 1])
}

/// The value of any form.
pub open spec fn evaluate(lim: Limits, depth: nat, ast: Value, env: nat, st: State) -> (
    Outcome,
    State,
)
    decreases depth, 0nat, 0nat,
{
    match ast {
        Value::List(_) => if depth == 0 {
            (Err(Failure::LimitExceeded("depth"@)), st)
        } else {
            let (r, st1) = expand(lim, (depth - 1) as nat, lim.expansions as nat, ast, env, st);
            match r {
                Err(e) => (Err(e), st1),
                Ok(form) => match form {
                    Value::List(_) => evaluate_form(lim, (depth - 1) as nat, form, env, st1),
                    _ => evaluate_atom(form, env, st1),
                },
            }
        },
        _ => evaluate_atom(ast, env, st),
    }
}

/// A function or macro applied to arguments that are taken as they are.
pub open spec fn apply_value(lim: Limits, depth: nat, f: Value, args: Seq<Value>, st: State) -> (
    Outcome,
    State,
)
    decreases depth, 1nat, 0nat,
{
    match f {
        Value::Func(op) => prim_apply(op, args, st),
        Value::AFunc { exp, env, params, is_macro } => {
            let frame = st.frames.len();
            let st1 = open_frame(st, Some(env));
            match *params {
                Value::List(names) => {
                    let fixed = fixed_count(names, 0);
                    let (b, st2) = bind(st1, frame, names.subrange(0, fixed as int), args, 0);
                    match b {
                        Err(e) => (Err(e), st2),
                        Ok(_) => {
                            let (b2, st3) = bind_rest(st2, frame, names, fixed, args);
                            match b2 {
                                Err(e) => (Err(e), st3),
                                Ok(_) => evaluate(lim, depth, *exp, frame, st3),
                            }
                        },
                    }
                },
                other => (Err(Failure::InvalidType("list"@, render(other, true))), st1),
            }
        },
        other => (Err(Failure::InvalidType("function"@, render(other, true))), st),
    }
}

/// The values of `items[from..]`, evaluated left to right and appended to
/// `done`. The first failure ends it.
pub open spec fn evaluate_each(
    lim: Limits,
    depth: nat,
    items: Seq<Value>,
    from: nat,
    done: Seq<Value>,
    env: nat,
    st: State,
) -> (Result<Seq<Value>, Failure>, State)
    decreases depth, 2nat, items.len() - from,
{
    if from >= items.len() {
        (Ok(done), st)
    } else {
        let (r, st1) = evaluate(lim, depth, items[from as int], env, st);
        match r {
            Err(e) => (Err(e), st1),
            Ok(v) => evaluate_each(lim, depth, items, from + 1, done.push(v), env, st1),
        }
    }
}

/// A list evaluated element by element; anything else as an atom.
pub open spec fn evaluate_ast(lim: Limits, depth: nat, ast: Value, env: nat, st: State) -> (
    Outcome,
    State,
)
    decreases depth, 3nat, 0nat,
{
    match ast {
        Value::List(items) => {
            let (r, st1) = evaluate_each(lim, depth, items, 0, Seq::empty(), env, st);
            match r {
                Err(e) => (Err(e), st1),
                Ok(values) => (Ok(Value::List(values)), st1),
            }
        },
        _ => evaluate_atom(ast, env, st),
    }
}

/// Macro expansion to a fixpoint: while the head of the form names a macro,
/// the macro is applied to the unevaluated rest and its result takes the
/// form's place. `budget` bounds how often that happens.
pub open spec fn expand(lim: Limits, depth: nat, budget: nat, ast: Value, env: nat, st: State) -> (
    Outcome,
    State,
)
    decreases depth, 3nat, budget,
{
    if !names_macro(ast, env, st) {
        (Ok(ast), st)
    } else if budget == 0 {
        (Err(Failure::LimitExceeded("macro expansion"@)), st)
    } else {
        let args = ast->List_0;
        let (r, st1) = apply_value(lim, depth, resolve(st, env, args[0])->Some_0, tail(args), st);
        match r {
            Err(e) => (Err(e), st1),
            Ok(next) => expand(lim, depth, (budget - 1) as nat, next, env, st1),
        }
    }
}

/// One round of a loop and all that follow: the names are bound to the
/// values in the loop's frame and the body is evaluated; a result headed by
/// `recur` gives the values of the next round, any other result ends the loop.
pub open spec fn iterate(
    lim: Limits,
    depth: nat,
    budget: nat,
    names: Seq<Value>,
    values: Seq<Value>,
    body: Value,
    frame: nat,
    st: State,
) -> (Outcome, State)
    decreases depth, 3nat, budget,
{
    let (b, st1) = bind(st, frame, names, values, 0);
    match b {
        Err(e) => (Err(e), st1),
        Ok(_) => {
            let (r, st2) = evaluate(lim, depth, body, frame, st1);
            match r {
                Err(e) => (Err(e), st2),
                Ok(v) => if is_recur(v) {
                    if budget == 0 {
                        (Err(Failure::LimitExceeded("loop"@)), st2)
                    } else {
                        let (r3, st3) = evaluate_each(
                            lim,
                            depth,
                            tail(v->List_0),
                            0,
                            Seq::empty(),
                            frame,
                            st2,
                        );
                        match r3 {
                            Err(e) => (Err(e), st3),
                            Ok(next) => iterate(
                                lim,
                                depth,
                                (budget - 1) as nat,
                                names,
                                next,
                                body,
                                frame,
                                st3,
                            ),
                        }
                    }
                } else {
                    (Ok(v), st2)
                },
            }
        },
    }
}

/// `(def name expr)`: binds the name in the current frame to the value of
/// the expression and returns the name.
pub open spec fn define_form(lim: Limits, depth: nat, args: Seq<Value>, env: nat, st: State) -> (
    Outcome,
    State,
)
    decreases depth, 4nat, 0nat,
{
    match item_or_nil(args, 1) {
        Value::Symbol(name) => {
            let (r, st1) = evaluate(lim, depth, item_or_nil(args, 2), env, st);
            match r {
                Err(e) => (Err(e), st1),
                Ok(v) => (Ok(Value::Symbol(name)), define(st1, env, name, v)),
            }
        },
        other => (Err(Failure::InvalidType("Symbol"@, render(other, true))), st),
    }
}

/// `(defmacro name expr)`: the expression must give a closure, which is bound
/// to the name as a macro.
pub open spec fn define_macro(lim: Limits, depth: nat, args: Seq<Value>, env: nat, st: State) -> (
    Outcome,
    State,
)
    decreases depth, 4nat, 0nat,
{
    let (r, st1) = evaluate(lim, depth, item_or_nil(args, 2), env, st);
    match r {
        Err(e) => (Err(e), st1),
        Ok(v) => match v {
            Value::AFunc { exp, env: captured, params, is_macro } => match item_or_nil(args, 1) {
                Value::Symbol(name) => (
                    Ok(Value::Symbol(name)),
                    define(
                        st1,
                        env,
                        name,
                        Value::AFunc { exp, env: captured, params, is_macro: true },
                    ),
                ),
                other => (Err(Failure::InvalidType("Symbol"@, render(other, true))), st1),
            },
            other => (Err(Failure::InvalidType("function"@, render(other, true))), st1),
        },
    }
}

/// `(if cond then else)`: only `Nil` is false.
pub open spec fn branch(lim: Limits, depth: nat, args: Seq<Value>, env: nat, st: State) -> (
    Outcome,
    State,
)
    decreases depth, 4nat, 0nat,
{
    let (r, st1) = evaluate(lim, depth, item_or_nil(args, 1), env, st);
    match r {
        Err(e) => (Err(e), st1),
        Ok(v) => match v {
            Value::Nil => evaluate(lim, depth, item_or_nil(args, 3), env, st1),
            _ => evaluate(lim, depth, item_or_nil(args, 2), env, st1),
        },
    }
}

/// `(loop (name init ...) body)`: the initial values are evaluated once, in
/// the current frame; the loop then runs in one frame of its own, opened in
/// the current one and bound again on every round.
pub open spec fn run_loop(lim: Limits, depth: nat, args: Seq<Value>, env: nat, st: State) -> (
    Outcome,
    State,
)
    decreases depth, 4nat, 0nat,
{
    match item_or_nil(args, 1) {
        Value::List(pairs) => if pairs.len() % 2 == 1 {
            (Err(Failure::InvalidArgument("Loop is missing value for one of the param"@)), st)
        } else {
            let (r, st1) = evaluate_each(lim, depth, odds(pairs), 0, Seq::empty(), env, st);
            match r {
                Err(e) => (Err(e), st1),
                Ok(values) => iterate(
                    lim,
                    depth,
                    lim.iterations as nat,
                    evens(pairs),
                    values,
                    item_or_nil(args, 2),
                    st1.frames.len(),
                    open_frame(st1, Some(env)),
                ),
            }
        },
        other => (Err(Failure::InvalidType("List"@, render(other, true))), st),
    }
}

/// The name by which a list form is dispatched: its head where that is a
/// symbol.
pub open spec fn head_name(args: Seq<Value>) -> Seq<char> {
    match item_or_nil(args, 0) {
        Value::Symbol(s) => s,
        _ => "__func__"@,
    }
}

/// The value of a list form whose macros have been expanded: a special form
/// where its head names one, else a call of the evaluated head on the
/// evaluated rest.
pub open spec fn evaluate_form(lim: Limits, depth: nat, ast: Value, env: nat, st: State) -> (
    Outcome,
    State,
)
    decreases depth, 5nat, 0nat,
{
    match ast {
        Value::List(args) => if args.len() == 0 {
            (Ok(ast), st)
        } else if head_name(args) == "quote"@ {
            (Ok(item_or_nil(args, 1)), st)
        } else if head_name(args) == "def"@ {
            define_form(lim, depth, args, env, st)
        } else if head_name(args) == "if"@ {
            branch(lim, depth, args, env, st)
        } else if head_name(args) == "fn*"@ {
            (
                Ok(
                    Value::AFunc {
                        exp: Box::new(item_or_nil(args, 2)),
                        env,
                        params: Box::new(item_or_nil(args, 1)),
                        is_macro: false,
                    },
                ),
                st,
            )
        } else if head_name(args) == "loop"@ {
            run_loop(lim, depth, args, env, st)
        } else if head_name(args) == "recur"@ {
            (Ok(ast), st)
        } else if head_name(args) == "defmacro"@ {
            define_macro(lim, depth, args, env, st)
        } else if head_name(args) == "eval"@ {
            let (r, st1) = evaluate(lim, depth, item_or_nil(args, 1), env, st);
            match r {
                Err(e) => (Err(e), st1),
                Ok(v) => evaluate(lim, depth, v, env, st1),
            }
        } else if head_name(args) == "do"@ {
            let (r, st1) = evaluate_ast(lim, depth, Value::List(tail(args)), env, st);
            match r {
                Err(e) => (Err(e), st1),
                Ok(v) => match v {
                    Value::List(values) => (Ok(item_or_nil(values, values.len() - 1)), st1),
                    _ => (Ok(Value::Nil), st1),
                },
            }
        } else if head_name(args) == "macroexpand"@ {
            if depth == 0 {
                (Err(Failure::LimitExceeded("depth"@)), st)
            } else {
                let (r, st1) = evaluate_form(
                    lim,
                    (depth - 1) as nat,
                    item_or_nil(args, 1),
                    env,
                    st,
                );
                match r {
                    Err(e) => (Err(e), st1),
                    Ok(form) => expand(
                        lim,
                        (depth - 1) as nat,
                        lim.expansions as nat,
                        form,
                        env,
                        st1,
                    ),
                }
            }
        } else {
            let (r, st1) = evaluate_ast(lim, depth, ast, env, st);
            match r {
                Err(e) => (Err(e), st1),
                Ok(v) => match v {
                    Value::List(values) => apply_value(
                        lim,
                        depth,
                        item_or_nil(values, 0),
                        tail(values),
                        st1,
                    ),
                    _ => (Err(Failure::InvalidOperation(head_name(args))), st1),
                },
            }
        },
        other => (Err(Failure::InvalidType("List"@, render(other, true))), st),
    }
}

} // verus!
