use atom_lisp::builtins::{build, ROOT};
use atom_lisp::data::{
    c_afunc, c_func, c_int, c_list, c_macro, c_nil, c_symbol, AtomError, AtomType,
};
use atom_lisp::env::{c_env, env_bind, env_get, env_set, Limits, Session};
use atom_lisp::eval::{eval, eval_exp};
use atom_lisp::model::Primitive;
use atom_lisp::text::{push_decimal, text_at_most};

fn session() -> Session {
    Session::new(Limits {
        depth: 64,
        expansions: 64,
        iterations: 64,
    })
}

#[test]
fn typed_format() {
    assert_eq!(c_nil().format(true), "Nil()");
    assert_eq!(c_int(-12).format(true), "Int(-12)");
    assert_eq!(c_symbol("a".to_string()).format(true), "Symbol(a)");
    assert_eq!(
        c_list(&[c_int(1), c_symbol("a".to_string()), c_list(&[])]).format(true),
        "List(Int(1) Symbol(a) List())"
    );
    assert_eq!(c_func(Primitive::Add).format(true), "#func()");
    let f = c_afunc(0, c_list(&[c_symbol("x".to_string())]), c_list(&[c_symbol("+".to_string()), c_symbol("x".to_string()), c_int(1)]));
    assert_eq!(
        f.format(true),
        "#builtin_func(exp=(+ x 1) params=List(Symbol(x)))"
    );
    match &*f {
        AtomType::AFunc(fd) => {
            assert_eq!(
                c_macro(fd).format(true),
                "#macro(exp=(+ x 1) params=List(Symbol(x)))"
            );
            assert_eq!(c_macro(fd).format(false), "#macro()");
        }
        _ => unreachable!(),
    }
}

#[test]
fn plain_format() {
    assert_eq!(c_int(0).format(false), "0");
    assert_eq!(c_int(7).format(false), "7");
    assert_eq!(c_int(10).format(false), "10");
    assert_eq!(c_int(-1).format(false), "-1");
    assert_eq!(c_int(1234567890).format(false), "1234567890");
    assert_eq!(c_int(i64::MAX).format(false), "9223372036854775807");
    assert_eq!(c_int(i64::MIN).format(false), "-9223372036854775808");
    assert_eq!(c_list(&[]).format(false), "()");
    assert_eq!(c_list(&[c_nil()]).format(false), "(nil)");
    assert_eq!(c_func(Primitive::Add).format(false), "#func()");
    assert_eq!(
        c_afunc(0, c_list(&[]), c_nil()).format(false),
        "#builtin_func()"
    );
}

#[test]
fn typed_accessors() {
    assert_eq!(c_int(5).get_int().unwrap(), 5);
    assert_eq!(
        c_nil().get_int().unwrap_err(),
        AtomError::InvalidType("Int".to_string(), "Nil()".to_string())
    );
    assert_eq!(
        c_list(&[c_int(1)]).get_list().unwrap(),
        &vec![c_int(1)]
    );
    assert_eq!(
        c_int(5).get_list().unwrap_err(),
        AtomError::InvalidType("List".to_string(), "Int(5)".to_string())
    );
    assert_eq!(c_symbol("s".to_string()).get_symbol().unwrap(), "s");
    assert_eq!(
        c_list(&[]).get_symbol().unwrap_err(),
        AtomError::InvalidType("Symbol".to_string(), "List()".to_string())
    );
}

#[test]
fn error_messages() {
    assert_eq!(
        AtomError::InvalidType("Int".to_string(), "Nil()".to_string()).message(),
        "expected: Int, received: Nil()"
    );
    assert_eq!(
        AtomError::InvalidOperation("op".to_string()).message(),
        "invalid operation: op"
    );
    assert_eq!(
        AtomError::InvalidArgument("x".to_string()).message(),
        "invalid argument: x"
    );
    assert_eq!(
        AtomError::UndefinedSymbol("y".to_string()).message(),
        "undefined symbol: y"
    );
    assert_eq!(
        AtomError::LimitExceeded("depth".to_string()).message(),
        "limit exceeded: depth"
    );
}

#[test]
fn values_compare_by_structure() {
    assert_eq!(c_int(1), c_int(1));
    assert_ne!(c_int(1), c_int(2));
    assert_ne!(c_int(1), c_nil());
    assert_ne!(c_nil(), c_list(&[]));
    assert_eq!(c_list(&[c_int(1), c_nil()]), c_list(&[c_int(1), c_nil()]));
    assert_ne!(c_list(&[c_int(1)]), c_list(&[c_int(1), c_nil()]));
    assert_eq!(c_symbol("a".to_string()), c_symbol("a".to_string()));
    assert_ne!(c_symbol("a".to_string()), c_symbol("b".to_string()));
    assert!(c_int(1).same(&c_int(1)));
    assert!(!c_int(1).same(&c_symbol("1".to_string())));
    assert_eq!(
        c_afunc(1, c_list(&[]), c_nil()),
        c_afunc(1, c_list(&[]), c_nil())
    );
    assert_ne!(
        c_afunc(1, c_list(&[]), c_nil()),
        c_afunc(2, c_list(&[]), c_nil())
    );
}

#[test]
fn define_overwrites_in_the_same_frame() {
    let mut s = session();
    let env = c_env(None, &mut s);
    let key = c_symbol("k".to_string());
    env_set(&env, &key, c_int(1), &mut s).unwrap();
    env_set(&env, &key, c_int(2), &mut s).unwrap();
    assert_eq!(env_get(&env, &key, &s).unwrap(), c_int(2));
    assert_eq!(s.frame(&env).unwrap().format(), "{k 2}");
}

#[test]
fn define_in_a_child_shadows_the_parent() {
    let mut s = session();
    let root = c_env(None, &mut s);
    let child = c_env(Some(root), &mut s);
    let key = c_symbol("k".to_string());
    env_set(&root, &key, c_int(1), &mut s).unwrap();
    env_set(&child, &key, c_int(2), &mut s).unwrap();
    assert_eq!(env_get(&child, &key, &s).unwrap(), c_int(2));
    assert_eq!(env_get(&root, &key, &s).unwrap(), c_int(1));
}

#[test]
fn define_needs_a_symbol_and_a_frame() {
    let mut s = session();
    let env = c_env(None, &mut s);
    assert_eq!(
        env_set(&env, &c_int(1), c_int(2), &mut s).unwrap_err(),
        AtomError::InvalidType("Symbol".to_string(), "Int(1)".to_string())
    );
    assert_eq!(
        env_set(&7, &c_symbol("k".to_string()), c_int(2), &mut s).unwrap_err(),
        AtomError::InvalidArgument("unknown environment".to_string())
    );
    assert!(env_get(&env, &c_int(1), &s).is_none());
    assert!(env_get(&7, &c_symbol("k".to_string()), &s).is_none());
    assert_eq!(s.frame_count(), 1);
}

#[test]
fn bind_defaults_to_nil() {
    let mut s = session();
    let env = c_env(None, &mut s);
    let params = [
        c_symbol("a".to_string()),
        c_symbol("b".to_string()),
        c_symbol("c".to_string()),
    ];
    env_bind(&env, &params, &[c_int(1), c_int(2)], &mut s).unwrap();
    assert_eq!(s.frame(&env).unwrap().format(), "{a 1 b 2 c nil}");
    env_bind(&env, &params[0..1], &[c_int(9), c_int(8)], &mut s).unwrap();
    assert_eq!(s.frame(&env).unwrap().format(), "{a 9 b 2 c nil}");
}

#[test]
fn bind_stops_at_what_is_no_symbol() {
    let mut s = session();
    let env = c_env(None, &mut s);
    let params = [c_symbol("a".to_string()), c_int(5), c_symbol("c".to_string())];
    assert_eq!(
        env_bind(&env, &params, &[c_int(1), c_int(2), c_int(3)], &mut s).unwrap_err(),
        AtomError::InvalidType("Symbol".to_string(), "Int(5)".to_string())
    );
    assert_eq!(s.frame(&env).unwrap().format(), "{a 1}");
}

#[test]
fn frame_lines_are_sorted() {
    let mut s = session();
    let env = c_env(None, &mut s);
    for name in ["b", "a", "ab", "B", "c"] {
        env_set(&env, &c_symbol(name.to_string()), c_symbol(name.to_string()), &mut s).unwrap();
    }
    assert_eq!(s.frame(&env).unwrap().format(), "{B B a a ab ab b b c c}");
}

#[test]
fn new_session_is_empty() {
    let mut s = session();
    assert_eq!(s.frame_count(), 0);
    assert_eq!(s.take_output(), "");
    assert_eq!(c_env(None, &mut s), 0);
    assert_eq!(c_env(Some(0), &mut s), 1);
    assert_eq!(s.frame_count(), 2);
}

#[test]
fn eval_exp_takes_the_form_as_it_stands() {
    let mut s = build();
    assert_eq!(
        eval_exp(
            c_list(&[c_symbol("quote".to_string()), c_symbol("a".to_string())]),
            &ROOT,
            &mut s
        )
        .unwrap(),
        c_symbol("a".to_string())
    );
    assert_eq!(
        eval_exp(c_int(1), &ROOT, &mut s).unwrap_err(),
        AtomError::InvalidType("List".to_string(), "Int(1)".to_string())
    );
    assert_eq!(eval_exp(c_list(&[]), &ROOT, &mut s).unwrap(), c_list(&[]));
}

#[test]
fn self_evaluating_values() {
    let mut s = build();
    assert_eq!(eval(c_nil(), &ROOT, &mut s).unwrap(), c_nil());
    assert_eq!(eval(c_int(3), &ROOT, &mut s).unwrap(), c_int(3));
    let f = c_afunc(ROOT, c_list(&[]), c_int(1));
    assert_eq!(eval(f.clone(), &ROOT, &mut s).unwrap(), f);
    assert_eq!(
        eval(c_func(Primitive::Add), &ROOT, &mut s)
            .unwrap()
            .format(false),
        "#func()"
    );
}

#[test]
fn closure_applied_directly() {
    let mut s = build();
    let f = c_afunc(
        ROOT,
        c_list(&[c_symbol("x".to_string())]),
        c_list(&[c_symbol("+".to_string()), c_symbol("x".to_string()), c_int(1)]),
    );
    assert_eq!(f.apply(&[c_int(4)], &mut s).unwrap(), c_int(5));
}

#[test]
fn texts_in_dictionary_order() {
    assert!(text_at_most("", ""));
    assert!(text_at_most("", "a"));
    assert!(!text_at_most("a", ""));
    assert!(text_at_most("a", "a"));
    assert!(text_at_most("a", "ab"));
    assert!(!text_at_most("ab", "a"));
    assert!(text_at_most("ab", "b"));
    assert!(!text_at_most("b", "ab"));
    assert!(text_at_most("B", "a"));
    assert!(text_at_most("z", "é"));
    assert!(!text_at_most("é", "z"));
}

#[test]
fn decimal_is_appended() {
    let mut s = String::from("n=");
    push_decimal(&mut s, -40);
    push_decimal(&mut s, 2);
    assert_eq!(s, "n=-402");
}
