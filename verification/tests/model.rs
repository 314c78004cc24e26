//! Tests of the list primitives and the environment store.

use rlisp::builtins::value_equal;
use rlisp::data::{List, Value};
use rlisp::scope::Scope;

fn num_list(ns: &[i64]) -> List {
    List::from_de_iter(ns.iter().map(|n| Value::Number(*n)).collect())
}

#[test]
fn from_sequence_of_iter_is_the_same_list() {
    let xs = num_list(&[1, 2, 3]);
    let rebuilt = List::from_de_iter(xs.iter());
    assert!(value_equal(&Value::List(xs), &Value::List(rebuilt)));
}

#[test]
fn iter_preserves_order() {
    let xs = num_list(&[5, 6, 7]);
    let items = xs.iter();
    assert_eq!(items.len(), 3);
    assert_eq!(items[0].display_text(), "5");
    assert_eq!(items[1].display_text(), "6");
    assert_eq!(items[2].display_text(), "7");
}

#[test]
fn cons_prepends() {
    let xs = List::cons(Value::Number(1), num_list(&[2, 3]));
    assert_eq!(Value::List(xs).display_text(), "(1 2 3)");
}

#[test]
fn wrap_and_quote_build_lists() {
    assert_eq!(Value::List(Value::Number(9).wrap()).display_text(), "(9)");
    assert_eq!(Value::Number(9).quote().display_text(), "(quote 9)");
}

#[test]
fn scope_get_walks_the_chain() {
    let mut sc = Scope::global();
    let key: Vec<char> = "k".chars().collect();
    sc.decl(0, &key, Value::Number(1));
    let h = sc.local(0);
    let h2 = sc.local(h);
    match sc.get(h2, &key) {
        Some(v) => assert_eq!(v.display_text(), "1"),
        None => panic!("expected the binding to be visible from the child frame"),
    }
}

#[test]
fn decl_shadows_and_set_mutates_the_defining_frame() {
    let mut sc = Scope::global();
    let key: Vec<char> = "k".chars().collect();
    sc.decl(0, &key, Value::Number(1));
    let h = sc.local(0);
    sc.decl(h, &key, Value::Number(2));
    assert_eq!(sc.get(h, &key).unwrap().display_text(), "2");
    assert_eq!(sc.get(0, &key).unwrap().display_text(), "1");
    // set from the child updates the child's own binding
    sc.set(h, &key, Value::Number(3));
    assert_eq!(sc.get(h, &key).unwrap().display_text(), "3");
    assert_eq!(sc.get(0, &key).unwrap().display_text(), "1");
}

#[test]
fn set_on_unbound_name_declares_in_the_root() {
    let mut sc = Scope::global();
    let key: Vec<char> = "fresh".chars().collect();
    let h = sc.local(0);
    sc.set(h, &key, Value::Number(4));
    assert_eq!(sc.get(0, &key).unwrap().display_text(), "4");
}

#[test]
fn get_of_missing_name_is_none() {
    let sc = Scope::global();
    let key: Vec<char> = "nothing".chars().collect();
    assert!(sc.get(0, &key).is_none());
}

#[test]
fn stdlib_binds_constants_and_builtins() {
    let mut sc = Scope::global();
    sc.load_stdlib();
    for (name, shown) in [
        ("nil", "nil"),
        ("#t", "#t"),
        ("true", "#t"),
        ("#f", "#f"),
        ("false", "#f"),
        ("car", "#<builtin:car>"),
        ("+", "#<builtin:+>"),
    ] {
        let key: Vec<char> = name.chars().collect();
        match sc.get(0, &key) {
            Some(v) => assert_eq!(v.display_text(), shown),
            None => panic!("{} should be bound by the standard library", name),
        }
    }
}

#[test]
fn value_equal_distinguishes_symbols_and_strings() {
    let sym = Value::Symbol("a".chars().collect());
    let txt = Value::Str("a".chars().collect());
    assert!(!value_equal(&sym, &txt));
    assert!(value_equal(&sym, &Value::Symbol("a".chars().collect())));
}

#[test]
fn value_equal_on_lists_is_elementwise() {
    assert!(value_equal(
        &Value::List(num_list(&[1, 2])),
        &Value::List(num_list(&[1, 2]))
    ));
    assert!(!value_equal(
        &Value::List(num_list(&[1, 2])),
        &Value::List(num_list(&[1, 2, 3]))
    ));
}
