//! What holds of every evaluation, proved from the semantics.

use vstd::prelude::*;
use crate::env::Limits;
use crate::model::{Value, Failure, State, item_or_nil, tail, lookup, resolve, define, set_binding, bind, open_frame};
use crate::semantics::{evaluate, evaluate_form, evaluate_ast, evaluate_each, expand, apply_value, iterate, names_macro, is_recur, fixed_count, bind_rest, rest_value, evens, odds, define_form, define_macro, branch, run_loop, head_name};

verus! {

/// Whether a name is bound, as seen from frame `env`, to a macro.
pub open spec fn bound_to_macro(st: State, env: nat, name: Seq<char>) -> bool {
    lookup(st, env, name) matches Some(Value::AFunc { is_macro, .. }) && is_macro
}

/// Whether `after` holds every frame of `before` as it was, but for the frame
/// `except`, which may hold anything.
pub open spec fn keeps_frames(before: State, after: State, except: Option<nat>) -> bool {
    &&& before.frames.len() <= after.frames.len()
    &&& forall|i: int|
        0 <= i < before.frames.len() && Some(i as nat) != except ==> #[trigger] after.frames[i]
            == before.frames[i]
}

/// Quoting: `(quote X)` gives `X` back as it stands and changes nothing,
/// wherever `quote` has not been made the name of a macro and one level of
/// nesting is left.
pub proof fn law_quote_returns_form(lim: Limits, depth: nat, x: Value, env: nat, st: State)
    requires
        depth > 0,
        !bound_to_macro(st, env, "quote"@),
    ensures
        evaluate(lim, depth, Value::List(seq![Value::Symbol("quote"@), x]), env, st) == (
            Ok::<Value, Failure>(x),
            st,
        ),
{
    let form = Value::List(seq![Value::Symbol("quote"@), x]);
    assert(!names_macro(form, env, st));
    assert(expand(lim, (depth - 1) as nat, lim.expansions as nat, form, env, st) == (
        Ok::<Value, Failure>(form),
        st,
    ));
    assert(head_name(form->List_0) == "quote"@);
    assert(evaluate_form(lim, (depth - 1) as nat, form, env, st) == (Ok::<Value, Failure>(x), st));
}

/// Truthiness: `(if c a b)` evaluates `c` and then `b` where `c` gave `Nil`,
/// and `a` where it gave anything else, zero and the empty list included;
/// wherever `if` has not been made the name of a macro and one level of
/// nesting is left.
pub proof fn law_only_nil_is_false(
    lim: Limits,
    depth: nat,
    c: Value,
    a: Value,
    b: Value,
    env: nat,
    st: State,
)
    requires
        depth > 0,
        !bound_to_macro(st, env, "if"@),
    ensures
        evaluate(lim, depth, Value::List(seq![Value::Symbol("if"@), c, a, b]), env, st) == ({
            let (r, st1) = evaluate(lim, (depth - 1) as nat, c, env, st);
            match r {
                Err(e) => (Err::<Value, Failure>(e), st1),
                Ok(v) => if v == Value::Nil {
                    evaluate(lim, (depth - 1) as nat, b, env, st1)
                } else {
                    evaluate(lim, (depth - 1) as nat, a, env, st1)
                },
            }
        }),
{
    reveal_strlit("if");
    reveal_strlit("quote");
    reveal_strlit("def");
    let form = Value::List(seq![Value::Symbol("if"@), c, a, b]);
    let args = form->List_0;
    assert(!names_macro(form, env, st));
    assert(expand(lim, (depth - 1) as nat, lim.expansions as nat, form, env, st) == (
        Ok::<Value, Failure>(form),
        st,
    ));
    assert(head_name(args) == "if"@);
    assert("if"@.len() == 2);
    assert("quote"@.len() == 5);
    assert("def"@.len() == 3);
    assert(evaluate_form(lim, (depth - 1) as nat, form, env, st) == branch(
        lim,
        (depth - 1) as nat,
        args,
        env,
        st,
    ));
    assert(item_or_nil(args, 1) == c);
    assert(item_or_nil(args, 2) == a);
    assert(item_or_nil(args, 3) == b);
}

/// Binding writes the one frame it is told to write.
proof fn lemma_bind_keeps(st: State, env: nat, params: Seq<Value>, args: Seq<Value>, from: nat)
    ensures
        keeps_frames(st, bind(st, env, params, args, from).1, Some(env)),
        bind(st, env, params, args, from).1.frames.len() == st.frames.len(),
    decreases params.len() - from,
{
    if from < params.len() {
        let (r, st1) = set_binding(st, env, params[from as int], item_or_nil(args, from as int));
        if r is Ok {
            lemma_bind_keeps(st1, env, params, args, from + 1);
        }
    }
}

proof fn lemma_evaluate_keeps(lim: Limits, depth: nat, ast: Value, env: nat, st: State)
    ensures
        keeps_frames(st, evaluate(lim, depth, ast, env, st).1, Some(env)),
    decreases depth, 0nat, 0nat,
{
    if ast is List && depth > 0 {
        lemma_expand_keeps(lim, (depth - 1) as nat, lim.expansions as nat, ast, env, st);
        let (r, st1) = expand(lim, (depth - 1) as nat, lim.expansions as nat, ast, env, st);
        if r is Ok && r->Ok_0 is List {
            lemma_form_keeps(lim, (depth - 1) as nat, r->Ok_0, env, st1);
        }
    }
}

proof fn lemma_apply_keeps(lim: Limits, depth: nat, f: Value, args: Seq<Value>, st: State)
    ensures
        keeps_frames(st, apply_value(lim, depth, f, args, st).1, None),
    decreases depth, 1nat, 0nat,
{
    match f {
        Value::AFunc { exp, env, params, is_macro } => {
            let frame = st.frames.len();
            let st1 = open_frame(st, Some(env));
            match *params {
                Value::List(names) => {
                    let fixed = fixed_count(names, 0);
                    let (b, st2) = bind(st1, frame, names.subrange(0, fixed as int), args, 0);
                    lemma_bind_keeps(st1, frame, names.subrange(0, fixed as int), args, 0);
                    if b is Ok {
                        let (b2, st3) = bind_rest(st2, frame, names, fixed, args);
                        if b2 is Ok {
                            lemma_evaluate_keeps(lim, depth, *exp, frame, st3);
                        }
                    }
                },
                _ => {},
            }
        },
        _ => {},
    }
}

proof fn lemma_each_keeps(
    lim: Limits,
    depth: nat,
    items: Seq<Value>,
    from: nat,
    done: Seq<Value>,
    env: nat,
    st: State,
)
    ensures
        keeps_frames(st, evaluate_each(lim, depth, items, from, done, env, st).1, Some(env)),
    decreases depth, 2nat, items.len() - from,
{
    if from < items.len() {
        lemma_evaluate_keeps(lim, depth, items[from as int], env, st);
        let (r, st1) = evaluate(lim, depth, items[from as int], env, st);
        if r is Ok {
            lemma_each_keeps(lim, depth, items, from + 1, done.push(r->Ok_0), env, st1);
        }
    }
}

proof fn lemma_ast_keeps(lim: Limits, depth: nat, ast: Value, env: nat, st: State)
    ensures
        keeps_frames(st, evaluate_ast(lim, depth, ast, env, st).1, Some(env)),
    decreases depth, 3nat, 0nat,
{
    if ast is List {
        lemma_each_keeps(lim, depth, ast->List_0, 0, Seq::empty(), env, st);
    }
}

proof fn lemma_expand_keeps(lim: Limits, depth: nat, budget: nat, ast: Value, env: nat, st: State)
    ensures
        keeps_frames(st, expand(lim, depth, budget, ast, env, st).1, None),
    decreases depth, 3nat, budget,
{
    if names_macro(ast, env, st) && budget > 0 {
        let args = ast->List_0;
        let f = resolve(st, env, args[0])->Some_0;
        lemma_apply_keeps(lim, depth, f, tail(args), st);
        let (r, st1) = apply_value(lim, depth, f, tail(args), st);
        if r is Ok {
            lemma_expand_keeps(lim, depth, (budget - 1) as nat, r->Ok_0, env, st1);
        }
    }
}

proof fn lemma_iterate_keeps(
    lim: Limits,
    depth: nat,
    budget: nat,
    names: Seq<Value>,
    values: Seq<Value>,
    body: Value,
    frame: nat,
    st: State,
)
    ensures
        keeps_frames(st, iterate(lim, depth, budget, names, values, body, frame, st).1, Some(frame)),
    decreases depth, 3nat, budget,
{
    lemma_bind_keeps(st, frame, names, values, 0);
    let (b, st1) = bind(st, frame, names, values, 0);
    if b is Ok {
        lemma_evaluate_keeps(lim, depth, body, frame, st1);
        let (r, st2) = evaluate(lim, depth, body, frame, st1);
        if r is Ok && is_recur(r->Ok_0) && budget > 0 {
            let rest = tail(r->Ok_0->List_0);
            lemma_each_keeps(lim, depth, rest, 0, Seq::empty(), frame, st2);
            let (r3, st3) = evaluate_each(lim, depth, rest, 0, Seq::empty(), frame, st2);
            if r3 is Ok {
                lemma_iterate_keeps(
                    lim,
                    depth,
                    (budget - 1) as nat,
                    names,
                    r3->Ok_0,
                    body,
                    frame,
                    st3,
                );
            }
        }
    }
}

proof fn lemma_define_form_keeps(lim: Limits, depth: nat, args: Seq<Value>, env: nat, st: State)
    ensures
        keeps_frames(st, define_form(lim, depth, args, env, st).1, Some(env)),
    decreases depth, 4nat, 0nat,
{
    if item_or_nil(args, 1) is Symbol {
        lemma_evaluate_keeps(lim, depth, item_or_nil(args, 2), env, st);
    }
}

proof fn lemma_define_macro_keeps(lim: Limits, depth: nat, args: Seq<Value>, env: nat, st: State)
    ensures
        keeps_frames(st, define_macro(lim, depth, args, env, st).1, Some(env)),
    decreases depth, 4nat, 0nat,
{
    lemma_evaluate_keeps(lim, depth, item_or_nil(args, 2), env, st);
}

proof fn lemma_branch_keeps(lim: Limits, depth: nat, args: Seq<Value>, env: nat, st: State)
    ensures
        keeps_frames(st, branch(lim, depth, args, env, st).1, Some(env)),
    decreases depth, 4nat, 0nat,
{
    lemma_evaluate_keeps(lim, depth, item_or_nil(args, 1), env, st);
    let (r, st1) = evaluate(lim, depth, item_or_nil(args, 1), env, st);
    if r is Ok {
        if r->Ok_0 is Nil {
            lemma_evaluate_keeps(lim, depth, item_or_nil(args, 3), env, st1);
        } else {
            lemma_evaluate_keeps(lim, depth, item_or_nil(args, 2), env, st1);
        }
    }
}

proof fn lemma_run_loop_keeps(lim: Limits, depth: nat, args: Seq<Value>, env: nat, st: State)
    ensures
        keeps_frames(st, run_loop(lim, depth, args, env, st).1, Some(env)),
    decreases depth, 4nat, 0nat,
{
    match item_or_nil(args, 1) {
        Value::List(pairs) => {
            if pairs.len() % 2 != 1 {
                lemma_each_keeps(lim, depth, odds(pairs), 0, Seq::empty(), env, st);
                let (r, st1) = evaluate_each(lim, depth, odds(pairs), 0, Seq::empty(), env, st);
                if r is Ok {
                    lemma_iterate_keeps(
                        lim,
                        depth,
                        lim.iterations as nat,
                        evens(pairs),
                        r->Ok_0,
                        item_or_nil(args, 2),
                        st1.frames.len(),
                        open_frame(st1, Some(env)),
                    );
                }
            }
        },
        _ => {},
    }
}

proof fn lemma_form_keeps(lim: Limits, depth: nat, ast: Value, env: nat, st: State)
    ensures
        keeps_frames(st, evaluate_form(lim, depth, ast, env, st).1, Some(env)),
    decreases depth, 5nat, 0nat,
{
    match ast {
        Value::List(args) => {
            if args.len() == 0 {
            } else if head_name(args) == "quote"@ {
            } else if head_name(args) == "def"@ {
                lemma_define_form_keeps(lim, depth, args, env, st);
            } else if head_name(args) == "if"@ {
                lemma_branch_keeps(lim, depth, args, env, st);
            } else if head_name(args) == "fn*"@ {
            } else if head_name(args) == "loop"@ {
                lemma_run_loop_keeps(lim, depth, args, env, st);
            } else if head_name(args) == "recur"@ {
            } else if head_name(args) == "defmacro"@ {
                lemma_define_macro_keeps(lim, depth, args, env, st);
            } else if head_name(args) == "eval"@ {
                lemma_evaluate_keeps(lim, depth, item_or_nil(args, 1), env, st);
                let (r, st1) = evaluate(lim, depth, item_or_nil(args, 1), env, st);
                if r is Ok {
                    lemma_evaluate_keeps(lim, depth, r->Ok_0, env, st1);
                }
            } else if head_name(args) == "do"@ {
                lemma_ast_keeps(lim, depth, Value::List(tail(args)), env, st);
            } else if head_name(args) == "macroexpand"@ {
                if depth > 0 {
                    lemma_form_keeps(lim, (depth - 1) as nat, item_or_nil(args, 1), env, st);
                    let (r, st1) = evaluate_form(
                        lim,
                        (depth - 1) as nat,
                        item_or_nil(args, 1),
                        env,
                        st,
                    );
                    if r is Ok {
                        lemma_expand_keeps(
                            lim,
                            (depth - 1) as nat,
                            lim.expansions as nat,
                            r->Ok_0,
                            env,
                            st1,
                        );
                    }
                }
            } else {
                lemma_ast_keeps(lim, depth, ast, env, st);
                let (r, st1) = evaluate_ast(lim, depth, ast, env, st);
                if r is Ok && r->Ok_0 is List {
                    let values = r->Ok_0->List_0;
                    lemma_apply_keeps(lim, depth, item_or_nil(values, 0), tail(values), st1);
                }
            }
        },
        _ => {},
    }
}

/// What a name is bound to, as seen from a frame, depends on that frame and
/// on the frames it was opened in, and on no other.
proof fn lemma_lookup_kept(before: State, after: State, env: nat, name: Seq<char>)
    requires
        keeps_frames(before, after, None),
        env < before.frames.len(),
    ensures
        lookup(after, env, name) == lookup(before, env, name),
    decreases env,
{
    assert(after.frames[env as int] == before.frames[env as int]);
    if !before.frames[env as int].data.contains_key(name) {
        match before.frames[env as int].parent {
            Some(p) => {
                if p < env {
                    lemma_lookup_kept(before, after, p, name);
                }
            },
            None => {},
        }
    }
}

/// Scoping: a call, of a closure or of a native function, leaves every frame
/// that existed before it as it was. What its body defines, its parameters
/// included, lands in the frame that the call opened.
pub proof fn law_call_keeps_frames(lim: Limits, depth: nat, f: Value, args: Seq<Value>, st: State)
    ensures
        keeps_frames(st, apply_value(lim, depth, f, args, st).1, None),
{
    lemma_apply_keeps(lim, depth, f, args, st);
}

/// Scoping: after a call, every name is bound, as seen from any frame that
/// existed before the call, to what it was bound to before.
pub proof fn law_call_keeps_bindings(
    lim: Limits,
    depth: nat,
    f: Value,
    args: Seq<Value>,
    st: State,
    env: nat,
    name: Seq<char>,
)
    requires
        env < st.frames.len(),
    ensures
        lookup(apply_value(lim, depth, f, args, st).1, env, name) == lookup(st, env, name),
{
    lemma_apply_keeps(lim, depth, f, args, st);
    lemma_lookup_kept(st, apply_value(lim, depth, f, args, st).1, env, name);
}

/// Scoping: evaluating a form in a frame writes that frame and the frames
/// that the evaluation opens, and no other.
pub proof fn law_evaluation_writes_own_frame(
    lim: Limits,
    depth: nat,
    ast: Value,
    env: nat,
    st: State,
)
    ensures
        keeps_frames(st, evaluate(lim, depth, ast, env, st).1, Some(env)),
{
    lemma_evaluate_keeps(lim, depth, ast, env, st);
}

/// Opening a frame changes no binding that could be looked up before.
proof fn lemma_lookup_after_open(st: State, parent: Option<nat>, env: nat, name: Seq<char>)
    requires
        env < st.frames.len(),
    ensures
        lookup(open_frame(st, parent), env, name) == lookup(st, env, name),
{
    lemma_lookup_kept(st, open_frame(st, parent), env, name);
}

/// Closures capture their frame itself, not a copy of it: a closure whose
/// body is a name gives, when called, what the name is bound to in the
/// captured frame at the time of the call, whenever the closure was made.
pub proof fn law_closure_sees_its_frame_as_it_is(
    lim: Limits,
    depth: nat,
    name: Seq<char>,
    env: nat,
    args: Seq<Value>,
    st: State,
)
    requires
        env < st.frames.len(),
    ensures
        apply_value(
            lim,
            depth,
            Value::AFunc {
                exp: Box::new(Value::Symbol(name)),
                env,
                params: Box::new(Value::List(Seq::empty())),
                is_macro: false,
            },
            args,
            st,
        ) == (
            match lookup(st, env, name) {
                Some(v) => Ok::<Value, Failure>(v),
                None => Err::<Value, Failure>(Failure::UndefinedSymbol(name)),
            },
            open_frame(st, Some(env)),
        ),
{
    let names = Seq::<Value>::empty();
    let frame = st.frames.len();
    let st1 = open_frame(st, Some(env));
    assert(fixed_count(names, 0) == 0);
    assert(names.subrange(0, 0) =~= names);
    assert(bind(st1, frame, names, args, 0) == (Ok::<(), Failure>(()), st1));
    assert(bind_rest(st1, frame, names, 0, args) == (Ok::<(), Failure>(()), st1));
    lemma_lookup_after_open(st, Some(env), env, name);
    assert(lookup(st1, frame, name) == lookup(st1, env, name));
}

/// The symbols of the given names.
pub open spec fn symbols(names: Seq<Seq<char>>) -> Seq<Value> {
    Seq::new(names.len(), |i: int| Value::Symbol(names[i]))
}

/// Binding names in a frame that exists succeeds and leaves every frame in
/// place.
proof fn lemma_bind_names(
    st: State,
    env: nat,
    names: Seq<Value>,
    args: Seq<Value>,
    from: nat,
)
    requires
        env < st.frames.len(),
        forall|i: int| 0 <= i < names.len() ==> (#[trigger] names[i]) is Symbol,
    ensures
        bind(st, env, names, args, from).0 is Ok,
        bind(st, env, names, args, from).1.frames.len() == st.frames.len(),
    decreases names.len() - from,
{
    if from < names.len() {
        assert(names[from as int] is Symbol);
        let (r, st1) = set_binding(st, env, names[from as int], item_or_nil(args, from as int));
        lemma_bind_names(st1, env, names, args, from + 1);
    }
}

/// Where no name before position `upto` is `&`, the count of the fixed
/// parameters is found from `upto` on.
proof fn lemma_fixed_count_skips(params: Seq<Value>, from: nat, upto: nat)
    requires
        from <= upto <= params.len(),
        forall|i: int| from <= i < upto ==> #[trigger] params[i] != Value::Symbol("&"@),
    ensures
        fixed_count(params, from) == fixed_count(params, upto),
    decreases upto - from,
{
    if from < upto {
        assert(params[from as int] != Value::Symbol("&"@));
        lemma_fixed_count_skips(params, from + 1, upto);
    }
}

/// Variadic binding: in a closure whose parameters are some names, then `&`,
/// then one more name, that last name is bound to the list of the arguments
/// beyond the first names, and to `Nil`, not to an empty list, where there
/// are none.
pub proof fn law_rest_parameter_takes_what_is_left(
    lim: Limits,
    depth: nat,
    fixed: Seq<Seq<char>>,
    rest: Seq<char>,
    env: nat,
    args: Seq<Value>,
    st: State,
)
    requires
        forall|i: int| 0 <= i < fixed.len() ==> #[trigger] fixed[i] != "&"@,
    ensures
        apply_value(
            lim,
            depth,
            Value::AFunc {
                exp: Box::new(Value::Symbol(rest)),
                env,
                params: Box::new(
                    Value::List(symbols(fixed) + seq![Value::Symbol("&"@), Value::Symbol(rest)]),
                ),
                is_macro: false,
            },
            args,
            st,
        ).0 == Ok::<Value, Failure>(
            if args.len() > fixed.len() {
                Value::List(args.subrange(fixed.len() as int, args.len() as int))
            } else {
                Value::Nil
            },
        ),
{
    let names = symbols(fixed) + seq![Value::Symbol("&"@), Value::Symbol(rest)];
    let count = fixed.len();
    let frame = st.frames.len();
    let st1 = open_frame(st, Some(env));
    assert forall|i: int| 0 <= i < count implies #[trigger] names[i] != Value::Symbol("&"@) by {
        assert(names[i] == Value::Symbol(fixed[i]));
    }
    lemma_fixed_count_skips(names, 0, count);
    assert(names[count as int] == Value::Symbol("&"@));
    assert(fixed_count(names, count) == count);
    assert(names.subrange(0, count as int) =~= symbols(fixed));
    lemma_bind_names(st1, frame, symbols(fixed), args, 0);
    let (b, st2) = bind(st1, frame, symbols(fixed), args, 0);
    assert(names[count as int + 1] == Value::Symbol(rest));
    let (b2, st3) = bind_rest(st2, frame, names, count, args);
    assert(b2 is Ok);
    assert(st3.frames[frame as int].data.contains_key(rest));
    assert(st3.frames[frame as int].data[rest] == rest_value(args, count));
}

/// Defining writes the current frame: the name is bound there to the value.
pub proof fn law_define_binds_in_its_frame(st: State, env: nat, name: Seq<char>, v: Value)
    requires
        env < st.frames.len(),
    ensures
        lookup(define(st, env, name, v), env, name) == Some(v),
{
}

/// Defining writes the current frame only, never a frame up the chain: what
/// a name is bound to as seen from a frame that was opened before the
/// defining one (its parent, and every frame further up, are among them)
/// stays as it was.
pub proof fn law_define_shadows(
    st: State,
    env: nat,
    name: Seq<char>,
    v: Value,
    other: nat,
    key: Seq<char>,
)
    requires
        other < env,
    ensures
        lookup(define(st, env, name, v), other, key) == lookup(st, other, key),
    decreases other,
{
    if env < st.frames.len() {
        let after = define(st, env, name, v);
        assert(after.frames[other as int] == st.frames[other as int]);
        if !st.frames[other as int].data.contains_key(key) {
            match st.frames[other as int].parent {
                Some(p) => {
                    if p < other {
                        law_define_shadows(st, env, name, v, p, key);
                    }
                },
                None => {},
            }
        }
    }
}

/// Iteration without nesting: where the body of a loop gives a form headed
/// by `recur`, the next round runs with the values of that form's arguments,
/// in the same frame and at the same depth of nesting as the round before;
/// only the budget of rounds is one less.
pub proof fn law_recur_repeats_at_the_same_depth(
    lim: Limits,
    depth: nat,
    budget: nat,
    names: Seq<Value>,
    values: Seq<Value>,
    body: Value,
    frame: nat,
    st: State,
    again: Seq<Value>,
    next: Seq<Value>,
)
    requires
        budget > 0,
        bind(st, frame, names, values, 0).0 is Ok,
        evaluate(lim, depth, body, frame, bind(st, frame, names, values, 0).1).0 == Ok::<
            Value,
            Failure,
        >(Value::List(seq![Value::Symbol("recur"@)] + again)),
        evaluate_each(
            lim,
            depth,
            again,
            0,
            Seq::empty(),
            frame,
            evaluate(lim, depth, body, frame, bind(st, frame, names, values, 0).1).1,
        ).0 == Ok::<Seq<Value>, Failure>(next),
    ensures
        iterate(lim, depth, budget, names, values, body, frame, st) == iterate(
            lim,
            depth,
            (budget - 1) as nat,
            names,
            next,
            body,
            frame,
            evaluate_each(
                lim,
                depth,
                again,
                0,
                Seq::empty(),
                frame,
                evaluate(lim, depth, body, frame, bind(st, frame, names, values, 0).1).1,
            ).1,
        ),
{
    let form = seq![Value::Symbol("recur"@)] + again;
    assert(item_or_nil(form, 0) == Value::Symbol("recur"@));
    assert(tail(form) =~= again);
}

/// The end of a loop: where the body gives anything but a form headed by
/// `recur`, that is what the loop gives, and no further round is run.
pub proof fn law_loop_ends_with_the_first_other_value(
    lim: Limits,
    depth: nat,
    budget: nat,
    names: Seq<Value>,
    values: Seq<Value>,
    body: Value,
    frame: nat,
    st: State,
)
    requires
        bind(st, frame, names, values, 0).0 is Ok,
        evaluate(lim, depth, body, frame, bind(st, frame, names, values, 0).1).0 is Ok,
        !is_recur(evaluate(lim, depth, body, frame, bind(st, frame, names, values, 0).1).0->Ok_0),
    ensures
        iterate(lim, depth, budget, names, values, body, frame, st) == evaluate(
            lim,
            depth,
            body,
            frame,
            bind(st, frame, names, values, 0).1,
        ),
{
}

/// Failure ends a sequence: where one element fails, the sequence fails with
/// that element's failure and in the state that it left, and no later
/// element is evaluated.
pub proof fn law_first_failure_ends_a_sequence(
    lim: Limits,
    depth: nat,
    items: Seq<Value>,
    from: nat,
    done: Seq<Value>,
    env: nat,
    st: State,
)
    requires
        from < items.len(),
        evaluate(lim, depth, items[from as int], env, st).0 is Err,
    ensures
        evaluate_each(lim, depth, items, from, done, env, st) == (
            Err::<Seq<Value>, Failure>(evaluate(lim, depth, items[from as int], env, st).0->Err_0),
            evaluate(lim, depth, items[from as int], env, st).1,
        ),
{
}

/// Macros get forms, not values: where the head of a list names a macro,
/// one step of expansion applies the macro to the rest of the list as it
/// stands, and goes on with what the macro gave.
pub proof fn law_macro_gets_forms_unevaluated(
    lim: Limits,
    depth: nat,
    budget: nat,
    name: Seq<char>,
    forms: Seq<Value>,
    env: nat,
    st: State,
)
    requires
        budget > 0,
        bound_to_macro(st, env, name),
    ensures
        expand(lim, depth, budget, Value::List(seq![Value::Symbol(name)] + forms), env, st) == ({
            let (r, st1) = apply_value(lim, depth, lookup(st, env, name)->Some_0, forms, st);
            match r {
                Err(e) => (Err::<Value, Failure>(e), st1),
                Ok(form) => expand(lim, depth, (budget - 1) as nat, form, env, st1),
            }
        }),
{
    let args = seq![Value::Symbol(name)] + forms;
    assert(args[0] == Value::Symbol(name));
    assert(tail(args) =~= forms);
    assert(names_macro(Value::List(args), env, st));
}

} // verus!
