use atom_lisp::builtins::{build, call_primitive, safe_get, list_from, ROOT};
use atom_lisp::data::{c_func, c_int, c_list, c_nil, c_symbol, AtomError, AtomRet};
use atom_lisp::env::Session;
use atom_lisp::eval::eval_str;
use atom_lisp::model::Primitive;

fn run(session: &mut Session, text: &str) -> AtomRet {
    eval_str(text, &ROOT, session)
}

#[test]
fn arithmetic_folds_from_the_first_argument() {
    let mut s = build();
    assert_eq!(run(&mut s, "(+ 1 2 3 4)").unwrap(), c_int(10));
    assert_eq!(run(&mut s, "(- 10 1 2)").unwrap(), c_int(7));
    assert_eq!(run(&mut s, "(* 2 3 4)").unwrap(), c_int(24));
    assert_eq!(run(&mut s, "(/ 100 5 2)").unwrap(), c_int(10));
}

#[test]
fn arithmetic_on_one_and_on_no_argument() {
    let mut s = build();
    assert_eq!(run(&mut s, "(+ 5)").unwrap(), c_int(5));
    assert_eq!(run(&mut s, "(- 5)").unwrap(), c_int(5));
    assert_eq!(run(&mut s, "(/ 5)").unwrap(), c_int(5));
    assert_eq!(run(&mut s, "(+)").unwrap(), c_nil());
    assert_eq!(
        run(&mut s, "(+ (quote a))").unwrap_err(),
        AtomError::InvalidType("Int".to_string(), "Symbol(a)".to_string())
    );
}

#[test]
fn division_rounds_toward_zero() {
    let mut s = build();
    assert_eq!(run(&mut s, "(/ 7 2)").unwrap(), c_int(3));
    assert_eq!(run(&mut s, "(/ (- 0 7) 2)").unwrap(), c_int(-3));
    assert_eq!(run(&mut s, "(/ 7 (- 0 2))").unwrap(), c_int(-3));
    assert_eq!(run(&mut s, "(/ (- 0 7) (- 0 2))").unwrap(), c_int(3));
    assert_eq!(run(&mut s, "(/ 0 5)").unwrap(), c_int(0));
}

#[test]
fn division_by_zero_is_a_failure() {
    let mut s = build();
    assert_eq!(
        run(&mut s, "(/ 1 0)").unwrap_err(),
        AtomError::InvalidArgument("division by zero".to_string())
    );
}

#[test]
fn overflow_is_a_failure() {
    let mut s = build();
    assert_eq!(
        run(&mut s, "(+ 9223372036854775807 1)").unwrap_err(),
        AtomError::InvalidArgument("integer overflow".to_string())
    );
    assert_eq!(
        run(&mut s, "(* 4611686018427387904 2)").unwrap_err(),
        AtomError::InvalidArgument("integer overflow".to_string())
    );
    assert_eq!(
        run(&mut s, "(- (- 0 9223372036854775807) 2)").unwrap_err(),
        AtomError::InvalidArgument("integer overflow".to_string())
    );
    assert_eq!(
        run(&mut s, "(/ (- (- 0 9223372036854775807) 1) (- 0 1))").unwrap_err(),
        AtomError::InvalidArgument("integer overflow".to_string())
    );
    assert_eq!(
        run(&mut s, "(- (- 0 9223372036854775807) 1)")
            .unwrap()
            .format(false),
        "-9223372036854775808"
    );
    assert_eq!(
        run(&mut s, "(+ 9223372036854775806 1)").unwrap(),
        c_int(9223372036854775807)
    );
}

#[test]
fn arithmetic_names_what_is_no_integer() {
    let mut s = build();
    assert_eq!(
        run(&mut s, "(+ 1 (list 2))").unwrap_err(),
        AtomError::InvalidType("Int".to_string(), "List(Int(2))".to_string())
    );
    assert_eq!(
        run(&mut s, "(+ nil 1)").unwrap_err(),
        AtomError::InvalidType("Int".to_string(), "Nil()".to_string())
    );
}

#[test]
fn list_operations() {
    let mut s = build();
    assert_eq!(
        run(&mut s, "(list 1 2)").unwrap(),
        c_list(&[c_int(1), c_int(2)])
    );
    assert_eq!(run(&mut s, "(list)").unwrap(), c_list(&[]));
    assert_eq!(
        run(&mut s, "(cons 1 (list 2 3))").unwrap(),
        c_list(&[c_int(1), c_int(2), c_int(3)])
    );
    assert_eq!(
        run(&mut s, "(cons 1 2)").unwrap_err(),
        AtomError::InvalidType("List".to_string(), "Int(2)".to_string())
    );
    assert_eq!(run(&mut s, "(count (list 1 2 3))").unwrap(), c_int(3));
    assert_eq!(run(&mut s, "(count (list))").unwrap(), c_int(0));
    assert_eq!(
        run(&mut s, "(count 5)").unwrap_err(),
        AtomError::InvalidType("List".to_string(), "Int(5)".to_string())
    );
    assert_eq!(run(&mut s, "(nth (list 5 6 7) 1)").unwrap(), c_int(6));
    assert_eq!(run(&mut s, "(nth (list 5 6 7) 3)").unwrap(), c_nil());
    assert_eq!(run(&mut s, "(nth (list 5 6 7) (- 0 1))").unwrap(), c_nil());
    assert_eq!(run(&mut s, "(nth (list 5 6 7))").unwrap(), c_int(5));
    assert_eq!(run(&mut s, "(nth (list 5 6 7) (quote a))").unwrap(), c_int(5));
    assert_eq!(
        run(&mut s, "(nth 5 0)").unwrap_err(),
        AtomError::InvalidType("List".to_string(), "Int(5)".to_string())
    );
    assert_eq!(
        run(&mut s, "(rest (list 1 2 3))").unwrap(),
        c_list(&[c_int(2), c_int(3)])
    );
    assert_eq!(run(&mut s, "(rest (list))").unwrap(), c_list(&[]));
    assert_eq!(run(&mut s, "(rest 5)").unwrap(), c_nil());
}

#[test]
fn predicates() {
    let mut s = build();
    assert_eq!(run(&mut s, "(list? (list))").unwrap(), c_int(1));
    assert_eq!(run(&mut s, "(list? nil)").unwrap(), c_nil());
    assert_eq!(run(&mut s, "(list? 1)").unwrap(), c_nil());
    assert_eq!(run(&mut s, "(nil? nil)").unwrap(), c_int(1));
    assert_eq!(run(&mut s, "(nil? (list))").unwrap(), c_nil());
    assert_eq!(run(&mut s, "(nil?)").unwrap(), c_int(1));
}

#[test]
fn equality() {
    let mut s = build();
    assert_eq!(run(&mut s, "(= 1 1 1)").unwrap(), c_int(1));
    assert_eq!(run(&mut s, "(= 1 1 2)").unwrap(), c_nil());
    assert_eq!(run(&mut s, "(= 1)").unwrap(), c_int(1));
    assert_eq!(run(&mut s, "(=)").unwrap(), c_int(1));
    assert_eq!(run(&mut s, "(= (list 1 (list 2)) (list 1 (list 2)))").unwrap(), c_int(1));
    assert_eq!(run(&mut s, "(= (list 1 2) (list 1 3))").unwrap(), c_nil());
    assert_eq!(run(&mut s, "(= (list 1 2) (list 1))").unwrap(), c_nil());
    assert_eq!(run(&mut s, "(= 'a 'a)").unwrap(), c_int(1));
    assert_eq!(run(&mut s, "(= 'a 'b)").unwrap(), c_nil());
    assert_eq!(run(&mut s, "(= nil nil)").unwrap(), c_int(1));
    assert_eq!(run(&mut s, "(= nil (list))").unwrap(), c_nil());
    assert_eq!(run(&mut s, "(= 1 'a)").unwrap(), c_nil());
}

#[test]
fn native_function_equals_nothing() {
    let mut s = build();
    assert_eq!(run(&mut s, "(= + +)").unwrap(), c_nil());
    assert_ne!(c_func(Primitive::Add), c_func(Primitive::Add));
}

#[test]
fn closures_are_equal_when_made_alike_in_one_frame() {
    let mut s = build();
    assert_eq!(run(&mut s, "(= (fn* (x) x) (fn* (x) x))").unwrap(), c_int(1));
    assert_eq!(run(&mut s, "(= (fn* (x) x) (fn* (y) y))").unwrap(), c_nil());
    let _ = run(&mut s, "(def mk (fn* () (fn* (x) x)))");
    assert_eq!(run(&mut s, "(= (mk) (mk))").unwrap(), c_nil());
}

#[test]
fn printing_goes_to_the_session() {
    let mut s = build();
    assert_eq!(run(&mut s, "(println 1 (list 2 'a) nil)").unwrap(), c_int(1));
    assert_eq!(s.take_output(), "1 (2 a) nil\n");
    assert_eq!(run(&mut s, "(print 1 2)").unwrap(), c_int(1));
    assert_eq!(run(&mut s, "(print)").unwrap(), c_nil());
    assert_eq!(s.take_output(), "1 2");
    assert_eq!(run(&mut s, "(_println 1 (list 2 'a) nil)").unwrap(), c_int(1));
    assert_eq!(s.take_output(), "Int(1) List(Int(2) Symbol(a)) Nil()\n");
    assert_eq!(run(&mut s, "(_print 'x)").unwrap(), c_symbol("x".to_string()));
    assert_eq!(s.take_output(), "Symbol(x)");
    assert_eq!(s.take_output(), "");
}

#[test]
fn emit_appends_to_the_output() {
    let mut s = build();
    s.emit("a");
    s.emit("b\n");
    assert_eq!(s.take_output(), "ab\n");
}

#[test]
fn primitives_called_directly() {
    let mut s = build();
    assert_eq!(
        call_primitive(Primitive::Add, &[c_int(2), c_int(3)], &mut s).unwrap(),
        c_int(5)
    );
    assert_eq!(
        call_primitive(Primitive::Sub, &[c_int(2), c_int(3)], &mut s).unwrap(),
        c_int(-1)
    );
    assert_eq!(
        call_primitive(Primitive::Rest, &[c_list(&[c_int(2), c_int(3)])], &mut s).unwrap(),
        c_list(&[c_int(3)])
    );
    assert_eq!(
        c_func(Primitive::Mul)
            .apply(&[c_int(2), c_int(3)], &mut s)
            .unwrap(),
        c_int(6)
    );
    assert_eq!(
        c_int(2).apply(&[c_int(3)], &mut s).unwrap_err(),
        AtomError::InvalidType("function".to_string(), "Int(2)".to_string())
    );
}

#[test]
fn safe_get_and_list_from() {
    let items = [c_int(1), c_int(2), c_int(3)];
    assert_eq!(safe_get(&items, 0), c_int(1));
    assert_eq!(safe_get(&items, 2), c_int(3));
    assert_eq!(safe_get(&items, 3), c_nil());
    assert_eq!(list_from(&items, 1), vec![c_int(2), c_int(3)]);
    assert_eq!(list_from(&items, 3), vec![]);
    assert_eq!(list_from(&items, 9), vec![]);
}

#[test]
fn bootstrap_helpers() {
    let mut s = build();
    assert_eq!(run(&mut s, "(first (list 4 5))").unwrap(), c_int(4));
    assert_eq!(run(&mut s, "(empty? (list))").unwrap(), c_int(1));
    assert_eq!(run(&mut s, "(empty? (list 1))").unwrap(), c_nil());
    assert_eq!(
        run(&mut s, "(concat (list 1 2) (list 3))").unwrap(),
        c_list(&[c_int(1), c_int(2), c_int(3)])
    );
}
