use atom_lisp::builtins::{build, ROOT};
use atom_lisp::data::{c_int, c_list, c_nil, c_symbol, AtomError};
use atom_lisp::env::env_get;
use atom_lisp::eval::eval_str;

#[test]
fn build_prints_nothing() {
    let mut session = build();
    assert_eq!(session.take_output(), "");
}

#[test]
fn eval_ast_define() {
    let mut session = build();
    let _ = eval_str("(def foo 1)", &ROOT, &mut session);

    assert_eq!(
        env_get(&ROOT, &c_symbol("foo".to_string()), &session).unwrap(),
        c_int(1)
    );
}

#[test]
fn eval_ast_lambda() {
    let mut session = build();
    assert_eq!(
        eval_str("((fn* (x) (- x 2)) 7)", &ROOT, &mut session).unwrap(),
        c_int(5)
    );
}

#[test]
fn eval_str_lambda_nested() {
    let mut session = build();
    let _ = eval_str(
        "(def make-adder (fn* (x) (fn* (y) (+ x y))))",
        &ROOT,
        &mut session,
    );
    let _ = eval_str("(def add-two (make-adder 2))", &ROOT, &mut session);

    assert_eq!(
        eval_str("(add-two 5)", &ROOT, &mut session).unwrap(),
        c_int(7)
    );
}

#[test]
fn eval_str_simple_if() {
    let mut session = build();

    assert_eq!(
        eval_str("(if nil (+ 2 2) (+ 1 1))", &ROOT, &mut session).unwrap(),
        c_int(2)
    );
    assert_eq!(
        eval_str("(if 1 (+ 2 2) (+ 1 1))", &ROOT, &mut session).unwrap(),
        c_int(4)
    );
}

#[test]
fn eval_str_predicated() {
    assert_eq!(
        eval_str("(= 2 2)", &ROOT, &mut build()).unwrap(),
        c_int(1)
    );

    let mut session = build();
    let _ = eval_str("(def foo 2)", &ROOT, &mut session);
    assert_eq!(
        eval_str("(= 2 foo)", &ROOT, &mut session).unwrap(),
        c_int(1)
    );
}

#[test]
fn eval_str_variadic_func() {
    assert_eq!(
        eval_str("((fn* (x y) y) 2 3)", &ROOT, &mut build()).unwrap(),
        c_int(3)
    );

    assert_eq!(
        eval_str("((fn* (x & y) y) 1)", &ROOT, &mut build()).unwrap(),
        c_nil()
    );
    assert_eq!(
        eval_str("((fn* (x & y) y) 1 2 3)", &ROOT, &mut build()).unwrap(),
        c_list(&[c_int(2), c_int(3)])
    );
    assert_eq!(
        eval_str("((fn* (x & y) x) 2)", &ROOT, &mut build()).unwrap(),
        c_int(2)
    );

    let mut session = build();
    let _ = eval_str(
        "(def sum-list (fn* (xs) (if (= 0 (count xs)) 0 (+ (nth xs 0) (sum-list (rest xs))))))",
        &ROOT,
        &mut session,
    );
    let _ = eval_str("(def add (fn* (& xs) (sum-list xs)))", &ROOT, &mut session);

    assert_eq!(
        eval_str("(add 3 4 5)", &ROOT, &mut session).unwrap(),
        c_int(12)
    );
}

#[test]
fn eval_str_macro() {
    let mut session = build();
    let _ = eval_str(
        "(defmacro ignore (fn* (x) (list 'quote x))))",
        &ROOT,
        &mut session,
    );

    assert_eq!(
        eval_str("(ignore foo)", &ROOT, &mut session)
            .expect("This shouldn't fail because foo is ignored"),
        c_symbol("foo".to_string())
    );

    assert_eq!(
        eval_str("foo", &ROOT, &mut session).unwrap_err(),
        AtomError::UndefinedSymbol("foo".to_string())
    );
}

#[test]
fn eval_str_eval_str_backquote_splicing() {
    let mut session = build();

    assert_eq!(
        eval_str("(eval `(+ ~@(list 1 2 3)))", &ROOT, &mut session).unwrap(),
        c_int(6)
    );
}

#[test]
fn eval_loop_recur() {
    let mut session = build();

    assert_eq!(
        eval_str(
            "(loop (x 2 acc 0) (if (= x 1) acc (recur (- x 1) (+ acc x))))",
            &ROOT,
            &mut session
        )
        .unwrap(),
        c_int(2)
    );
}
