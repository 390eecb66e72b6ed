//! The evaluator: special forms, macro expansion, calls and the loop, each
//! proved to compute what the semantics says.

use vstd::prelude::*;
use vstd::slice::slice_subrange;
use vstd::string::StringExecFns;
use std::rc::Rc;
use crate::data::{AtomType, AtomFunc, AtomVal, AtomRet, AtomError, share, values_of, outcome_of, each_of, c_nil, c_list, c_symbol, c_afunc, c_macro, lemma_values_of_subrange, lemma_values_of_push};
use crate::env::{Env, Session, Limits, c_env, env_set, env_get, env_bind};
use crate::model::{Value, Failure, Outcome, State, item_or_nil, tail, bind, open_frame, failure_text};
use crate::lexer::{lex, lex_text, lex_failure_text, lexemes_of};
use crate::parser::{Parser, parse_tokens};
use crate::builtins::{safe_get, list_from, call_primitive};
use crate::semantics::{evaluate, evaluate_atom, evaluate_form, evaluate_ast, evaluate_each, expand, apply_value, iterate, names_macro, is_recur, fixed_count, evens, odds, define_form, define_macro, branch, run_loop, head_name};

verus! {

fn limit_error(what: &str) -> (e: AtomError)
    ensures
        e@ == Failure::LimitExceeded(what@),
{
    AtomError::LimitExceeded(String::from_str(what))
}

fn is_list(v: &AtomVal) -> (r: bool)
    ensures
        r == (v@ is List),
{
    match &**v {
        AtomType::List(_) => true,
        _ => false,
    }
}

/// A symbol is looked up; anything else stands for itself.
fn eval_atom(ast: &AtomVal, env: &Env, session: &Session) -> (r: AtomRet)
    ensures
        (outcome_of(r), session@) == evaluate_atom(ast@, *env as nat, session@),
{
    match &**ast {
        AtomType::Symbol(name) => {
            match env_get(env, ast, session) {
                Some(atom) => Ok(atom),
                None => Err(AtomError::UndefinedSymbol(name.clone())),
            }
        },
        _ => Ok(share(ast)),
    }
}

fn op_quote(args: &[AtomVal]) -> (r: AtomRet)
    ensures
        outcome_of(r) == Ok::<Value, Failure>(item_or_nil(values_of(args@), 1)),
{
    Ok(safe_get(args, 1))
}

fn op_lambda(args: &[AtomVal], env: &Env) -> (r: AtomRet)
    ensures
        outcome_of(r) == Ok::<Value, Failure>(
            Value::AFunc {
                exp: Box::new(item_or_nil(values_of(args@), 2)),
                env: *env as nat,
                params: Box::new(item_or_nil(values_of(args@), 1)),
                is_macro: false,
            },
        ),
{
    Ok(c_afunc(*env, safe_get(args, 1), safe_get(args, 2)))
}

/// Whether the form is a list whose head names a macro.
fn is_macro_call(ast: &AtomVal, env: &Env, session: &Session) -> (r: bool)
    ensures
        r == names_macro(ast@, *env as nat, session@),
{
    match &**ast {
        AtomType::List(args) => {
            assert(ast@ == Value::List(values_of(args@)));
            if args.len() == 0 {
                false
            } else {
                assert(values_of(args@)[0] == args[0]@);
                match env_get(env, &args[0], session) {
                    Some(value) => match &*value {
                        AtomType::AFunc(fd) => fd.is_macro,
                        _ => false,
                    },
                    None => false,
                }
            }
        },
        _ => {
            assert(!(ast@ is List));
            false
        },
    }
}

/// How many parameters come before the first `&`.
fn count_fixed(params: &Vec<AtomVal>) -> (n: usize)
    ensures
        n <= params.len(),
        n == fixed_count(values_of(params@), 0),
{
    let ampersand = AtomType::Symbol(String::from_str("&"));
    let mut k: usize = 0;
    while k < params.len()
        invariant
            k <= params.len(),
            ampersand@ == Value::Symbol("&"@),
            fixed_count(values_of(params@), 0) == fixed_count(values_of(params@), k as nat),
        decreases params.len() - k,
    {
        let item: &AtomType = &*params[k];
        if item.same(&ampersand) {
            return k;
        }
        k = k + 1;
    }
    k
}

/// Applies a function or macro to arguments that are taken as they are.
fn apply_bounded(f: &AtomType, args: &[AtomVal], session: &mut Session, depth: usize) -> (r:
    AtomRet)
    ensures
        final(session).limits() == old(session).limits(),
        (outcome_of(r), final(session)@) == apply_value(
            old(session).limits(),
            depth as nat,
            f@,
            values_of(args@),
            old(session)@,
        ),
    decreases depth, 1nat, 0nat,
{
    match f {
        AtomType::Func(AtomFunc(op)) => call_primitive(*op, args, session),
        AtomType::AFunc(fd) => {
            let func_env = c_env(Some(fd.env), session);
            match &*fd.params {
                AtomType::List(params) => {
                    assert(fd.params@ == Value::List(values_of(params@)));
                    let fixed = count_fixed(params);
                    let positional = slice_subrange(params.as_slice(), 0, fixed);
                    proof {
                        lemma_values_of_subrange(params@, 0, fixed as int);
                    }
                    match env_bind(&func_env, positional, args, session) {
                        Ok(()) => {},
                        Err(e) => {
                            return Err(e);
                        },
                    }
                    if fixed < params.len() && params.len() - fixed > 1 {
                        let rest = if args.len() > fixed {
                            let items = list_from(args, fixed);
                            proof {
                                lemma_values_of_subrange(args@, fixed as int, args@.len() as int);
                            }
                            Rc::new(AtomType::List(items))
                        } else {
                            c_nil()
                        };
                        match env_set(&func_env, &params[fixed + 1], rest, session) {
                            Ok(()) => {},
                            Err(e) => {
                                return Err(e);
                            },
                        }
                    }
                },
                v => {
                    assert(fd.params@ == v@);
                    return Err(v.mismatch("list"));
                },
            }
            eval_bounded(share(&fd.exp), &func_env, session, depth)
        },
        _ => Err(f.mismatch("function")),
    }
}

/// Evaluates the items left to right; the first failure ends it.
fn eval_list_elements(list: &[AtomVal], env: &Env, session: &mut Session, depth: usize) -> (r:
    Result<Vec<AtomVal>, AtomError>)
    ensures
        final(session).limits() == old(session).limits(),
        (each_of(r), final(session)@) == evaluate_each(
            old(session).limits(),
            depth as nat,
            values_of(list@),
            0,
            Seq::empty(),
            *env as nat,
            old(session)@,
        ),
        r matches Ok(v) ==> v.len() == list.len(),
    decreases depth, 2nat, 0nat,
{
    let mut evaled_elements: Vec<AtomVal> = Vec::new();
    let mut k: usize = 0;
    assert(values_of(evaled_elements@) =~= Seq::empty());
    while k < list.len()
        invariant
            k <= list.len(),
            evaled_elements.len() == k,
            session.limits() == old(session).limits(),
            evaluate_each(
                old(session).limits(),
                depth as nat,
                values_of(list@),
                0,
                Seq::empty(),
                *env as nat,
                old(session)@,
            ) == evaluate_each(
                old(session).limits(),
                depth as nat,
                values_of(list@),
                k as nat,
                values_of(evaled_elements@),
                *env as nat,
                session@,
            ),
        decreases list.len() - k,
    {
        match eval_bounded(share(&list[k]), env, session, depth) {
            Ok(v) => {
                proof {
                    lemma_values_of_push(evaled_elements@, v);
                }
                evaled_elements.push(v);
            },
            Err(e) => {
                return Err(e);
            },
        }
        k = k + 1;
    }
    Ok(evaled_elements)
}

/// A list is evaluated element by element; anything else as an atom.
fn eval_ast(ast: AtomVal, env: &Env, session: &mut Session, depth: usize) -> (r: AtomRet)
    ensures
        final(session).limits() == old(session).limits(),
        (outcome_of(r), final(session)@) == evaluate_ast(
            old(session).limits(),
            depth as nat,
            ast@,
            *env as nat,
            old(session)@,
        ),
        ast@ matches Value::List(items) ==> (r matches Ok(v) ==> (v@ matches Value::List(values)
            && values.len() == items.len())),
    decreases depth, 3nat, 0nat,
{
    match &*ast {
        AtomType::List(args) => {
            let values = eval_list_elements(args.as_slice(), env, session, depth)?;
            Ok(Rc::new(AtomType::List(values)))
        },
        _ => eval_atom(&ast, env, session),
    }
}

/// Macro expansion to a fixpoint, within the session's bound on expansions.
fn op_macroexpand(ast: AtomVal, env: &Env, session: &mut Session, depth: usize) -> (r: AtomRet)
    ensures
        final(session).limits() == old(session).limits(),
        (outcome_of(r), final(session)@) == expand(
            old(session).limits(),
            depth as nat,
            old(session).limits().expansions as nat,
            ast@,
            *env as nat,
            old(session)@,
        ),
    decreases depth, 3nat, 0nat,
{
    let mut form = share(&ast);
    let mut budget: u64 = session.get_limits().expansions;
    loop
        invariant
            session.limits() == old(session).limits(),
            expand(
                old(session).limits(),
                depth as nat,
                old(session).limits().expansions as nat,
                ast@,
                *env as nat,
                old(session)@,
            ) == expand(
                old(session).limits(),
                depth as nat,
                budget as nat,
                form@,
                *env as nat,
                session@,
            ),
        decreases budget,
    {
        if !is_macro_call(&form, env, session) {
            return Ok(form);
        }
        if budget == 0 {
            return Err(limit_error("macro expansion"));
        }
        let current = share(&form);
        let args = match &*current {
            AtomType::List(args) => args,
            _ => {
                return Ok(form);
            },
        };
        assert(current@ == Value::List(values_of(args@)));
        assert(values_of(args@)[0] == args[0]@);
        match env_get(env, &args[0], session) {
            Some(f) => {
                let rest = slice_subrange(args.as_slice(), 1, args.len());
                proof {
                    lemma_values_of_subrange(args@, 1, args@.len() as int);
                }
                match apply_bounded(&*f, rest, session, depth) {
                    Ok(next) => {
                        form = next;
                    },
                    Err(e) => {
                        return Err(e);
                    },
                }
            },
            None => {
                return Ok(form);
            },
        }
        budget = budget - 1;
    }
}

fn op_def(args: &[AtomVal], env: &Env, session: &mut Session, depth: usize) -> (r: AtomRet)
    ensures
        final(session).limits() == old(session).limits(),
        (outcome_of(r), final(session)@) == define_form(
            old(session).limits(),
            depth as nat,
            values_of(args@),
            *env as nat,
            old(session)@,
        ),
    decreases depth, 4nat, 0nat,
{
    let name_atom = safe_get(args, 1);
    let name = match name_atom.get_symbol() {
        Ok(name) => String::from_str(name),
        Err(e) => {
            return Err(e);
        },
    };
    let value = eval_bounded(safe_get(args, 2), env, session, depth)?;
    let _ = env_set(env, &name_atom, value, session);
    Ok(c_symbol(name))
}

fn op_macro(args: &[AtomVal], env: &Env, session: &mut Session, depth: usize) -> (r: AtomRet)
    ensures
        final(session).limits() == old(session).limits(),
        (outcome_of(r), final(session)@) == define_macro(
            old(session).limits(),
            depth as nat,
            values_of(args@),
            *env as nat,
            old(session)@,
        ),
    decreases depth, 4nat, 0nat,
{
    let result = eval_bounded(safe_get(args, 2), env, session, depth)?;
    match &*result {
        AtomType::AFunc(fd) => {
            let name_atom = safe_get(args, 1);
            let name = match name_atom.get_symbol() {
                Ok(name) => String::from_str(name),
                Err(e) => {
                    return Err(e);
                },
            };
            let _ = env_set(env, &name_atom, c_macro(fd), session);
            Ok(c_symbol(name))
        },
        other => Err(other.mismatch("function")),
    }
}

fn op_if(args: &[AtomVal], env: &Env, session: &mut Session, depth: usize) -> (r: AtomRet)
    ensures
        final(session).limits() == old(session).limits(),
        (outcome_of(r), final(session)@) == branch(
            old(session).limits(),
            depth as nat,
            values_of(args@),
            *env as nat,
            old(session)@,
        ),
    decreases depth, 4nat, 0nat,
{
    let result = eval_bounded(safe_get(args, 1), env, session, depth)?;
    match &*result {
        AtomType::Nil => eval_bounded(safe_get(args, 3), env, session, depth),
        _ => eval_bounded(safe_get(args, 2), env, session, depth),
    }
}

/// Whether a value is a list headed by the symbol `recur`.
fn is_recur_form(v: &AtomVal) -> (r: bool)
    ensures
        r == is_recur(v@),
{
    match &**v {
        AtomType::List(list) => {
            let recur_symbol = AtomType::Symbol(String::from_str("recur"));
            let head = safe_get(list.as_slice(), 0);
            (&*head).same(&recur_symbol)
        },
        _ => false,
    }
}

fn op_loop(args: &[AtomVal], env: &Env, session: &mut Session, depth: usize) -> (r: AtomRet)
    ensures
        final(session).limits() == old(session).limits(),
        (outcome_of(r), final(session)@) == run_loop(
            old(session).limits(),
            depth as nat,
            values_of(args@),
            *env as nat,
            old(session)@,
        ),
    decreases depth, 4nat, 0nat,
{
    let body = safe_get(args, 2);
    let pairs_atom = safe_get(args, 1);
    let loop_args = pairs_atom.get_list()?;
    if loop_args.len() % 2 == 1 {
        return Err(
            AtomError::InvalidArgument(
                String::from_str("Loop is missing value for one of the param"),
            ),
        );
    }
    let mut arguments_names: Vec<AtomVal> = Vec::new();
    let mut values_for_eval: Vec<AtomVal> = Vec::new();
    let mut k: usize = 0;
    while k < loop_args.len()
        invariant
            k <= loop_args.len(),
            k % 2 == 0,
            loop_args.len() % 2 == 0,
            arguments_names@.len() == k / 2,
            values_for_eval@.len() == k / 2,
            forall|i: int| 0 <= i < k / 2 ==> arguments_names@[i] == loop_args@[2 * i],
            forall|i: int| 0 <= i < k / 2 ==> values_for_eval@[i] == loop_args@[2 * i + 1],
        decreases loop_args.len() - k,
    {
        arguments_names.push(share(&loop_args[k]));
        values_for_eval.push(share(&loop_args[k + 1]));
        k = k + 2;
    }
    assert(values_of(arguments_names@) =~= evens(values_of(loop_args@)));
    assert(values_of(values_for_eval@) =~= odds(values_of(loop_args@)));
    let mut arguments_values = eval_list_elements(values_for_eval.as_slice(), env, session, depth)?;
    let frame = c_env(Some(*env), session);
    let mut budget: u64 = session.get_limits().iterations;
    loop
        invariant
            session.limits() == old(session).limits(),
            run_loop(
                old(session).limits(),
                depth as nat,
                values_of(args@),
                *env as nat,
                old(session)@,
            ) == iterate(
                old(session).limits(),
                depth as nat,
                budget as nat,
                values_of(arguments_names@),
                values_of(arguments_values@),
                body@,
                frame as nat,
                session@,
            ),
        decreases budget,
    {
        match env_bind(&frame, arguments_names.as_slice(), arguments_values.as_slice(), session) {
            Ok(()) => {},
            Err(e) => {
                return Err(e);
            },
        }
        let result = eval_bounded(share(&body), &frame, session, depth)?;
        if !is_recur_form(&result) {
            return Ok(result);
        }
        if budget == 0 {
            return Err(limit_error("loop"));
        }
        let list = match &*result {
            AtomType::List(list) => list,
            _ => {
                return Ok(share(&result));
            },
        };
        let from: usize = if list.len() > 0 {
            1
        } else {
            0
        };
        let rest = slice_subrange(list.as_slice(), from, list.len());
        proof {
            lemma_values_of_subrange(list@, from as int, list@.len() as int);
            assert(values_of(rest@) =~= tail(values_of(list@)));
        }
        arguments_values = eval_list_elements(rest, &frame, session, depth)?;
        budget = budget - 1;
    }
}

/// Evaluates a list form whose macros have been expanded.
fn eval_exp_bounded(ast: AtomVal, env: &Env, session: &mut Session, depth: usize) -> (r: AtomRet)
    ensures
        final(session).limits() == old(session).limits(),
        (outcome_of(r), final(session)@) == evaluate_form(
            old(session).limits(),
            depth as nat,
            ast@,
            *env as nat,
            old(session)@,
        ),
    decreases depth, 5nat, 0nat,
{
    let list = ast.get_list()?;
    let args = list.as_slice();
    if args.len() == 0 {
        return Ok(share(&ast));
    }
    let op_name: &str = match &*args[0] {
        AtomType::Symbol(v) => v.as_str(),
        _ => "__func__",
    };
    assert(op_name@ == head_name(values_of(args@)));
    if op_name.eq("quote") {
        op_quote(args)
    } else if op_name.eq("def") {
        op_def(args, env, session, depth)
    } else if op_name.eq("if") {
        op_if(args, env, session, depth)
    } else if op_name.eq("fn*") {
        op_lambda(args, env)
    } else if op_name.eq("loop") {
        op_loop(args, env, session, depth)
    } else if op_name.eq("recur") {
        Ok(share(&ast))
    } else if op_name.eq("defmacro") {
        op_macro(args, env, session, depth)
    } else if op_name.eq("eval") {
        let form = eval_bounded(safe_get(args, 1), env, session, depth)?;
        eval_bounded(form, env, session, depth)
    } else if op_name.eq("do") {
        let rest = slice_subrange(args, 1, args.len());
        proof {
            lemma_values_of_subrange(args@, 1, args@.len() as int);
        }
        let evaled_args = eval_ast(c_list(rest), env, session, depth)?;
        match evaled_args.get_list() {
            Ok(values) => {
                if values.len() > 0 {
                    Ok(share(&values[values.len() - 1]))
                } else {
                    Ok(c_nil())
                }
            },
            _ => Ok(c_nil()),
        }
    } else if op_name.eq("macroexpand") {
        if depth == 0 {
            return Err(limit_error("depth"));
        }
        let form = eval_exp_bounded(safe_get(args, 1), env, session, depth - 1)?;
        op_macroexpand(form, env, session, depth - 1)
    } else {
        let evaled_args = eval_ast(share(&ast), env, session, depth)?;
        match evaled_args.get_list() {
            Ok(values) => {
                let rest = slice_subrange(values.as_slice(), 1, values.len());
                proof {
                    lemma_values_of_subrange(values@, 1, values@.len() as int);
                }
                let subject_func = share(&values[0]);
                apply_bounded(&*subject_func, rest, session, depth)
            },
            _ => Err(AtomError::InvalidOperation(String::from_str(op_name))),
        }
    }
}

/// Evaluates any form, with `depth` levels of nesting left.
fn eval_bounded(ast: AtomVal, env: &Env, session: &mut Session, depth: usize) -> (r: AtomRet)
    ensures
        final(session).limits() == old(session).limits(),
        (outcome_of(r), final(session)@) == evaluate(
            old(session).limits(),
            depth as nat,
            ast@,
            *env as nat,
            old(session)@,
        ),
    decreases depth, 0nat, 0nat,
{
    if is_list(&ast) {
        if depth == 0 {
            return Err(limit_error("depth"));
        }
        let form = op_macroexpand(share(&ast), env, session, depth - 1)?;
        if is_list(&form) {
            eval_exp_bounded(form, env, session, depth - 1)
        } else {
            eval_atom(&form, env, session)
        }
    } else {
        eval_atom(&ast, env, session)
    }
}

/// Evaluates a form in frame `env`, within the session's limits.
pub fn eval(ast: AtomVal, env: &Env, session: &mut Session) -> (r: AtomRet)
    ensures
        final(session).limits() == old(session).limits(),
        (outcome_of(r), final(session)@) == evaluate(
            old(session).limits(),
            old(session).limits().depth as nat,
            ast@,
            *env as nat,
            old(session)@,
        ),
{
    let depth: usize = session.get_limits().depth;
    eval_bounded(ast, env, session, depth)
}

/// Evaluates a list form as it stands, without expanding macros at its head:
/// a special form where its head names one, else a call.
pub fn eval_exp(ast: AtomVal, env: &Env, session: &mut Session) -> (r: AtomRet)
    ensures
        final(session).limits() == old(session).limits(),
        (outcome_of(r), final(session)@) == evaluate_form(
            old(session).limits(),
            old(session).limits().depth as nat,
            ast@,
            *env as nat,
            old(session)@,
        ),
{
    let depth: usize = session.get_limits().depth;
    eval_exp_bounded(ast, env, session, depth)
}

impl AtomType {
    /// Applies the value to arguments that are taken as they are. A native
    /// function is called. A closure gets a new frame, opened in the frame
    /// it captured; there its parameters are bound to the arguments, the
    /// name after `&` to the list of those left over, and its body is
    /// evaluated. Anything else is no function.
    pub fn apply(&self, args: &[AtomVal], session: &mut Session) -> (r: AtomRet)
        ensures
            final(session).limits() == old(session).limits(),
            (outcome_of(r), final(session)@) == apply_value(
                old(session).limits(),
                old(session).limits().depth as nat,
                self@,
                values_of(args@),
                old(session)@,
            ),
    {
        let depth: usize = session.get_limits().depth;
        apply_bounded(self, args, session, depth)
    }
}

/// The state after a line of text has been printed.
pub open spec fn say(st: State, line: Seq<char>) -> State {
    State { out: st.out + line + "\n"@, ..st }
}

/// What reading and evaluating a text gives. Text that cannot be cut into
/// tokens or read as a value is reported in the output and gives `Nil`; a
/// failed evaluation is reported in the output too.
pub open spec fn evaluate_text(lim: Limits, text: Seq<char>, env: nat, st: State) -> (
    Outcome,
    State,
) {
    match lex_text(text) {
        Err(f) => (Ok(Value::Nil), say(st, "lex: "@ + text + " "@ + lex_failure_text(f))),
        Ok(tokens) => match parse_tokens(tokens) {
            None => (Ok(Value::Nil), say(st, text + " -> ast: "@ + "Syntax error"@)),
            Some(ast) => {
                let (r, st1) = evaluate(lim, lim.depth as nat, ast, env, st);
                match r {
                    Ok(v) => (Ok(v), st1),
                    Err(e) => (Err(e), say(st1, "=> "@ + failure_text(e))),
                }
            },
        },
    }
}

/// Reads the first form of a text and evaluates it in frame `env`.
pub fn eval_str(str: &str, env: &Env, session: &mut Session) -> (r: AtomRet)
    ensures
        final(session).limits() == old(session).limits(),
        (outcome_of(r), final(session)@) == evaluate_text(
            old(session).limits(),
            str@,
            *env as nat,
            old(session)@,
        ),
{
    match lex(str) {
        Ok(tokens) => {
            let parser = Parser::new(&tokens);
            match parser.start() {
                Ok(ast) => {
                    match eval(ast, env, session) {
                        Ok(result) => Ok(result),
                        Err(err) => {
                            let mut line = String::from_str("=> ");
                            line.append(err.message().as_str());
                            line.append("\n");
                            session.emit(line.as_str());
                            assert(session@.out =~= say(
                                evaluate(
                                    old(session).limits(),
                                    old(session).limits().depth as nat,
                                    parse_tokens(lexemes_of(tokens@))->Some_0,
                                    *env as nat,
                                    old(session)@,
                                ).1,
                                "=> "@ + failure_text(err@),
                            ).out);
                            Err(err)
                        },
                    }
                },
                Err(err) => {
                    let mut line = String::from_str(str);
                    line.append(" -> ast: ");
                    line.append(err.message().as_str());
                    line.append("\n");
                    session.emit(line.as_str());
                    assert(session@.out =~= say(
                        old(session)@,
                        str@ + " -> ast: "@ + "Syntax error"@,
                    ).out);
                    Ok(c_nil())
                },
            }
        },
        Err(err) => {
            let mut line = String::from_str("lex: ");
            line.append(str);
            line.append(" ");
            line.append(err.message().as_str());
            line.append("\n");
            session.emit(line.as_str());
            assert(session@.out =~= say(
                old(session)@,
                "lex: "@ + str@ + " "@ + lex_failure_text(err@),
            ).out);
            Ok(c_nil())
        },
    }
}

} // verus!
