//! The bounds on nesting and on repetition end an evaluation early; they
//! never change what an evaluation gives. Proved here: what an evaluation
//! gives within its bounds, it gives within all wider bounds too.

use vstd::prelude::*;
use crate::env::Limits;
use crate::model::{Value, Failure, Outcome, State, item_or_nil, tail, resolve, bind, open_frame};
use crate::semantics::{evaluate, evaluate_form, evaluate_ast, evaluate_each, expand, apply_value, iterate, names_macro, is_recur, fixed_count, bind_rest, evens, odds, define_form, define_macro, branch, run_loop, head_name};

verus! {

/// Whether an evaluation was ended by a bound.
pub open spec fn cut_short(r: Outcome) -> bool {
    r matches Err(Failure::LimitExceeded(_))
}

/// Whether the evaluation of a sequence was ended by a bound.
pub open spec fn each_cut_short(r: Result<Seq<Value>, Failure>) -> bool {
    r matches Err(Failure::LimitExceeded(_))
}

/// Whether the bounds on repetition of `wide` are at least those of `lim`.
pub open spec fn wider(lim: Limits, wide: Limits) -> bool {
    lim.expansions <= wide.expansions && lim.iterations <= wide.iterations
}

proof fn lemma_evaluate_wider(
    lim: Limits,
    wide: Limits,
    depth: nat,
    deeper: nat,
    ast: Value,
    env: nat,
    st: State,
)
    requires
        wider(lim, wide),
        depth <= deeper,
        !cut_short(evaluate(lim, depth, ast, env, st).0),
    ensures
        evaluate(wide, deeper, ast, env, st) == evaluate(lim, depth, ast, env, st),
    decreases depth, 0nat, 0nat,
{
    if ast is List && depth > 0 {
        let d = (depth - 1) as nat;
        let e = (deeper - 1) as nat;
        let (r, st1) = expand(lim, d, lim.expansions as nat, ast, env, st);
        lemma_expand_wider(
            lim,
            wide,
            d,
            e,
            lim.expansions as nat,
            wide.expansions as nat,
            ast,
            env,
            st,
        );
        if r is Ok && r->Ok_0 is List {
            lemma_form_wider(lim, wide, d, e, r->Ok_0, env, st1);
        }
    }
}

proof fn lemma_apply_wider(
    lim: Limits,
    wide: Limits,
    depth: nat,
    deeper: nat,
    f: Value,
    args: Seq<Value>,
    st: State,
)
    requires
        wider(lim, wide),
        depth <= deeper,
        !cut_short(apply_value(lim, depth, f, args, st).0),
    ensures
        apply_value(wide, deeper, f, args, st) == apply_value(lim, depth, f, args, st),
    decreases depth, 1nat, 0nat,
{
    match f {
        Value::AFunc { exp, env, params, is_macro } => {
            let frame = st.frames.len();
            let st1 = open_frame(st, Some(env));
            match *params {
                Value::List(names) => {
                    let fixed = fixed_count(names, 0);
                    let (b, st2) = bind(st1, frame, names.subrange(0, fixed as int), args, 0);
                    if b is Ok {
                        let (b2, st3) = bind_rest(st2, frame, names, fixed, args);
                        if b2 is Ok {
                            lemma_evaluate_wider(lim, wide, depth, deeper, *exp, frame, st3);
                        }
                    }
                },
                _ => {},
            }
        },
        _ => {},
    }
}

proof fn lemma_each_wider(
    lim: Limits,
    wide: Limits,
    depth: nat,
    deeper: nat,
    items: Seq<Value>,
    from: nat,
    done: Seq<Value>,
    env: nat,
    st: State,
)
    requires
        wider(lim, wide),
        depth <= deeper,
        !each_cut_short(evaluate_each(lim, depth, items, from, done, env, st).0),
    ensures
        evaluate_each(wide, deeper, items, from, done, env, st) == evaluate_each(
            lim,
            depth,
            items,
            from,
            done,
            env,
            st,
        ),
    decreases depth, 2nat, items.len() - from,
{
    if from < items.len() {
        lemma_evaluate_wider(lim, wide, depth, deeper, items[from as int], env, st);
        let (r, st1) = evaluate(lim, depth, items[from as int], env, st);
        if r is Ok {
            lemma_each_wider(
                lim,
                wide,
                depth,
                deeper,
                items,
                from + 1,
                done.push(r->Ok_0),
                env,
                st1,
            );
        }
    }
}

proof fn lemma_ast_wider(
    lim: Limits,
    wide: Limits,
    depth: nat,
    deeper: nat,
    ast: Value,
    env: nat,
    st: State,
)
    requires
        wider(lim, wide),
        depth <= deeper,
        !cut_short(evaluate_ast(lim, depth, ast, env, st).0),
    ensures
        evaluate_ast(wide, deeper, ast, env, st) == evaluate_ast(lim, depth, ast, env, st),
    decreases depth, 3nat, 0nat,
{
    if ast is List {
        lemma_each_wider(lim, wide, depth, deeper, ast->List_0, 0, Seq::empty(), env, st);
    }
}

proof fn lemma_expand_wider(
    lim: Limits,
    wide: Limits,
    depth: nat,
    deeper: nat,
    budget: nat,
    larger: nat,
    ast: Value,
    env: nat,
    st: State,
)
    requires
        wider(lim, wide),
        depth <= deeper,
        budget <= larger,
        !cut_short(expand(lim, depth, budget, ast, env, st).0),
    ensures
        expand(wide, deeper, larger, ast, env, st) == expand(lim, depth, budget, ast, env, st),
    decreases depth, 3nat, budget,
{
    if names_macro(ast, env, st) && budget > 0 {
        let args = ast->List_0;
        let f = resolve(st, env, args[0])->Some_0;
        lemma_apply_wider(lim, wide, depth, deeper, f, tail(args), st);
        let (r, st1) = apply_value(lim, depth, f, tail(args), st);
        if r is Ok {
            lemma_expand_wider(
                lim,
                wide,
                depth,
                deeper,
                (budget - 1) as nat,
                (larger - 1) as nat,
                r->Ok_0,
                env,
                st1,
            );
        }
    }
}

proof fn lemma_iterate_wider(
    lim: Limits,
    wide: Limits,
    depth: nat,
    deeper: nat,
    budget: nat,
    larger: nat,
    names: Seq<Value>,
    values: Seq<Value>,
    body: Value,
    frame: nat,
    st: State,
)
    requires
        wider(lim, wide),
        depth <= deeper,
        budget <= larger,
        !cut_short(iterate(lim, depth, budget, names, values, body, frame, st).0),
    ensures
        iterate(wide, deeper, larger, names, values, body, frame, st) == iterate(
            lim,
            depth,
            budget,
            names,
            values,
            body,
            frame,
            st,
        ),
    decreases depth, 3nat, budget,
{
    let (b, st1) = bind(st, frame, names, values, 0);
    if b is Ok {
        lemma_evaluate_wider(lim, wide, depth, deeper, body, frame, st1);
        let (r, st2) = evaluate(lim, depth, body, frame, st1);
        if r is Ok && is_recur(r->Ok_0) && budget > 0 {
            let rest = tail(r->Ok_0->List_0);
            lemma_each_wider(lim, wide, depth, deeper, rest, 0, Seq::empty(), frame, st2);
            let (r3, st3) = evaluate_each(lim, depth, rest, 0, Seq::empty(), frame, st2);
            if r3 is Ok {
                lemma_iterate_wider(
                    lim,
                    wide,
                    depth,
                    deeper,
                    (budget - 1) as nat,
                    (larger - 1) as nat,
                    names,
                    r3->Ok_0,
                    body,
                    frame,
                    st3,
                );
            }
        }
    }
}

proof fn lemma_define_form_wider(
    lim: Limits,
    wide: Limits,
    depth: nat,
    deeper: nat,
    args: Seq<Value>,
    env: nat,
    st: State,
)
    requires
        wider(lim, wide),
        depth <= deeper,
        !cut_short(define_form(lim, depth, args, env, st).0),
    ensures
        define_form(wide, deeper, args, env, st) == define_form(lim, depth, args, env, st),
    decreases depth, 4nat, 0nat,
{
    if item_or_nil(args, 1) is Symbol {
        lemma_evaluate_wider(lim, wide, depth, deeper, item_or_nil(args, 2), env, st);
    }
}

proof fn lemma_define_macro_wider(
    lim: Limits,
    wide: Limits,
    depth: nat,
    deeper: nat,
    args: Seq<Value>,
    env: nat,
    st: State,
)
    requires
        wider(lim, wide),
        depth <= deeper,
        !cut_short(define_macro(lim, depth, args, env, st).0),
    ensures
        define_macro(wide, deeper, args, env, st) == define_macro(lim, depth, args, env, st),
    decreases depth, 4nat, 0nat,
{
    lemma_evaluate_wider(lim, wide, depth, deeper, item_or_nil(args, 2), env, st);
}

proof fn lemma_branch_wider(
    lim: Limits,
    wide: Limits,
    depth: nat,
    deeper: nat,
    args: Seq<Value>,
    env: nat,
    st: State,
)
    requires
        wider(lim, wide),
        depth <= deeper,
        !cut_short(branch(lim, depth, args, env, st).0),
    ensures
        branch(wide, deeper, args, env, st) == branch(lim, depth, args, env, st),
    decreases depth, 4nat, 0nat,
{
    lemma_evaluate_wider(lim, wide, depth, deeper, item_or_nil(args, 1), env, st);
    let (r, st1) = evaluate(lim, depth, item_or_nil(args, 1), env, st);
    if r is Ok {
        if r->Ok_0 is Nil {
            lemma_evaluate_wider(lim, wide, depth, deeper, item_or_nil(args, 3), env, st1);
        } else {
            lemma_evaluate_wider(lim, wide, depth, deeper, item_or_nil(args, 2), env, st1);
        }
    }
}

proof fn lemma_run_loop_wider(
    lim: Limits,
    wide: Limits,
    depth: nat,
    deeper: nat,
    args: Seq<Value>,
    env: nat,
    st: State,
)
    requires
        wider(lim, wide),
        depth <= deeper,
        !cut_short(run_loop(lim, depth, args, env, st).0),
    ensures
        run_loop(wide, deeper, args, env, st) == run_loop(lim, depth, args, env, st),
    decreases depth, 4nat, 0nat,
{
    match item_or_nil(args, 1) {
        Value::List(pairs) => {
            if pairs.len() % 2 != 1 {
                lemma_each_wider(lim, wide, depth, deeper, odds(pairs), 0, Seq::empty(), env, st);
                let (r, st1) = evaluate_each(lim, depth, odds(pairs), 0, Seq::empty(), env, st);
                if r is Ok {
                    lemma_iterate_wider(
                        lim,
                        wide,
                        depth,
                        deeper,
                        lim.iterations as nat,
                        wide.iterations as nat,
                        evens(pairs),
                        r->Ok_0,
                        item_or_nil(args, 2),
                        st1.frames.len(),
                        open_frame(st1, Some(env)),
                    );
                }
            }
        },
        _ => {},
    }
}

proof fn lemma_form_wider(
    lim: Limits,
    wide: Limits,
    depth: nat,
    deeper: nat,
    ast: Value,
    env: nat,
    st: State,
)
    requires
        wider(lim, wide),
        depth <= deeper,
        !cut_short(evaluate_form(lim, depth, ast, env, st).0),
    ensures
        evaluate_form(wide, deeper, ast, env, st) == evaluate_form(lim, depth, ast, env, st),
    decreases depth, 5nat, 0nat,
{
    match ast {
        Value::List(args) => {
            if args.len() == 0 {
            } else if head_name(args) == "quote"@ {
            } else if head_name(args) == "def"@ {
                lemma_define_form_wider(lim, wide, depth, deeper, args, env, st);
            } else if head_name(args) == "if"@ {
                lemma_branch_wider(lim, wide, depth, deeper, args, env, st);
            } else if head_name(args) == "fn*"@ {
            } else if head_name(args) == "loop"@ {
                lemma_run_loop_wider(lim, wide, depth, deeper, args, env, st);
            } else if head_name(args) == "recur"@ {
            } else if head_name(args) == "defmacro"@ {
                lemma_define_macro_wider(lim, wide, depth, deeper, args, env, st);
            } else if head_name(args) == "eval"@ {
                lemma_evaluate_wider(lim, wide, depth, deeper, item_or_nil(args, 1), env, st);
                let (r, st1) = evaluate(lim, depth, item_or_nil(args, 1), env, st);
                if r is Ok {
                    lemma_evaluate_wider(lim, wide, depth, deeper, r->Ok_0, env, st1);
                }
            } else if head_name(args) == "do"@ {
                lemma_ast_wider(lim, wide, depth, deeper, Value::List(tail(args)), env, st);
            } else if head_name(args) == "macroexpand"@ {
                if depth > 0 {
                    let d = (depth - 1) as nat;
                    let e = (deeper - 1) as nat;
                    lemma_form_wider(lim, wide, d, e, item_or_nil(args, 1), env, st);
                    let (r, st1) = evaluate_form(lim, d, item_or_nil(args, 1), env, st);
                    if r is Ok {
                        lemma_expand_wider(
                            lim,
                            wide,
                            d,
                            e,
                            lim.expansions as nat,
                            wide.expansions as nat,
                            r->Ok_0,
                            env,
                            st1,
                        );
                    }
                }
            } else {
                lemma_ast_wider(lim, wide, depth, deeper, ast, env, st);
                let (r, st1) = evaluate_ast(lim, depth, ast, env, st);
                if r is Ok && r->Ok_0 is List {
                    let values = r->Ok_0->List_0;
                    lemma_apply_wider(
                        lim,
                        wide,
                        depth,
                        deeper,
                        item_or_nil(values, 0),
                        tail(values),
                        st1,
                    );
                }
            }
        },
        _ => {},
    }
}

/// Bounds are only cutoffs: an evaluation that was not ended by a bound gives
/// the same value or failure, and leaves the same state, under all bounds
/// that are at least as wide, on nesting, on macro expansion and on the
/// rounds of loops.
pub proof fn law_bounds_are_only_cutoffs(
    lim: Limits,
    wide: Limits,
    ast: Value,
    env: nat,
    st: State,
)
    requires
        lim.depth <= wide.depth,
        lim.expansions <= wide.expansions,
        lim.iterations <= wide.iterations,
        !cut_short(evaluate(lim, lim.depth as nat, ast, env, st).0),
    ensures
        evaluate(wide, wide.depth as nat, ast, env, st) == evaluate(
            lim,
            lim.depth as nat,
            ast,
            env,
            st,
        ),
{
    lemma_evaluate_wider(lim, wide, lim.depth as nat, wide.depth as nat, ast, env, st);
}

/// The same of a call: a call that was not ended by a bound gives the same
/// under all bounds that are at least as wide.
pub proof fn law_bounds_are_only_cutoffs_for_calls(
    lim: Limits,
    wide: Limits,
    f: Value,
    args: Seq<Value>,
    st: State,
)
    requires
        lim.depth <= wide.depth,
        lim.expansions <= wide.expansions,
        lim.iterations <= wide.iterations,
        !cut_short(apply_value(lim, lim.depth as nat, f, args, st).0),
    ensures
        apply_value(wide, wide.depth as nat, f, args, st) == apply_value(
            lim,
            lim.depth as nat,
            f,
            args,
            st,
        ),
{
    lemma_apply_wider(lim, wide, lim.depth as nat, wide.depth as nat, f, args, st);
}

} // verus!
