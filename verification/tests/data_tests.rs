use atom_lisp::data::{c_int, c_list, c_nil, c_symbol};

#[test]
fn test_nil() {
    assert_eq!(c_nil().format(false), "nil");
}

#[test]
fn test_int() {
    assert_eq!(c_int(0).format(false), "0");
}

#[test]
fn test_symbol() {
    assert_eq!(c_symbol(String::from("test")).format(false), "test");
}

#[test]
fn test_list() {
    let foo = c_int(0);
    let bar = c_int(1);
    let list = c_list(&[foo, bar]);

    assert_eq!(list.format(false), "(0 1)");
}

#[test]
fn test_nested_seq() {
    let foo = c_int(0);
    let bar = c_int(1);
    let baz = c_int(2);
    let list = c_list(&[foo, bar]);
    let list2 = c_list(&[list, baz]);

    assert_eq!(list2.format(false), "((0 1) 2)");
}
