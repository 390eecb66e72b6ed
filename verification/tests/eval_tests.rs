use atom_lisp::builtins::{build, ROOT};
use atom_lisp::data::{c_int, c_list, c_symbol, AtomError, AtomRet};
use atom_lisp::eval::eval;

fn print(v: AtomRet) -> String {
    match v {
        Ok(ref atom) => atom.format(false),
        Err(err) => err.message(),
    }
}

#[test]
fn eval_symbol() {
    let mut session = build();
    eval(c_symbol("Test".to_string()), &ROOT, &mut session).unwrap_err();
}

#[test]
fn eval_int() {
    let mut session = build();
    assert_eq!("2", print(eval(c_int(2), &ROOT, &mut session)));
}

#[test]
fn eval_list_invalid_type_because_operation_is_int() {
    let mut session = build();
    match eval(c_list(&[c_int(1), c_int(2)]), &ROOT, &mut session) {
        Err(AtomError::InvalidType(_, _)) => {}
        Err(_) => unreachable!(),
        Ok(_) => unreachable!(),
    }
}

#[test]
fn eval_list_invalid_operation() {
    let mut session = build();
    match eval(
        c_list(&[c_symbol("undefined".to_string()), c_int(2)]),
        &ROOT,
        &mut session,
    ) {
        Err(AtomError::UndefinedSymbol(_)) => {}
        Err(_) => unreachable!(),
        Ok(_) => unreachable!(),
    }
}

#[test]
fn eval_list_add() {
    let mut session = build();
    assert_eq!(
        "3",
        print(eval(
            c_list(&[c_symbol("+".to_string()), c_int(1), c_int(2)]),
            &ROOT,
            &mut session
        ))
    );
}

#[test]
fn eval_list_div() {
    let mut session = build();
    assert_eq!(
        "2",
        print(eval(
            c_list(&[c_symbol("/".to_string()), c_int(4), c_int(2)]),
            &ROOT,
            &mut session
        ))
    );
}
