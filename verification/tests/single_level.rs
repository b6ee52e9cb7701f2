//! Single-level operations: get, assoc, dissoc, update.

use std::rc::Rc;

use bundle::bundle::{Bundle, BundleValue, Value};

#[test]
fn no_value_when_empty() {
    let bundle = Bundle::empty();
    assert_eq!(bundle.len(), 0);
    assert_eq!(bundle.get("hello"), None)
}

#[test]
fn stores_different_types() {
    let bundle = Bundle::empty()
        .assoc("hello", Value::text("Bob".to_string()))
        .assoc("world", Value::integer(32));
    assert_eq!(bundle.len(), 2);
    assert_eq!(bundle.get("hello").unwrap().as_text().as_str(), "Bob");
    assert_eq!(bundle.get("world").unwrap().as_int(), 32);
}

#[test]
fn some_value_after_assoc_and_no_value_after_dissoc() {
    let first = Bundle::empty().assoc("hello", Value::text("Bob".to_string()));
    assert_eq!(first.len(), 1);
    assert_eq!(first.get("hello").unwrap().as_text().as_str(), "Bob");

    let second = first.dissoc("hello");
    assert_eq!(first.len(), 1);
    assert_eq!(first.get("hello").unwrap().as_text().as_str(), "Bob");
    assert_eq!(second.len(), 0);
    assert_eq!(second.get("hello"), None);
}

#[test]
fn same_key_with_second_value_replaces_value_only_in_second_bundle() {
    let first = Bundle::empty().assoc("hello", Value::text("Bob".to_string()));
    let second = first.assoc("hello", Value::text("Marley".to_string()));
    assert_eq!(first.len(), 1);
    assert_eq!(first.get("hello").unwrap().as_text().as_str(), "Bob");
    assert_eq!(second.len(), 1);
    assert_eq!(second.get("hello").unwrap().as_text().as_str(), "Marley");
}

#[test]
fn second_key_adds_second_value_only_in_second_bundle() {
    let first = Bundle::empty().assoc("hello", Value::text("Jack".to_string()));
    let second = first.assoc("world", Value::text("Jill".to_string()));
    assert_eq!(first.len(), 1);
    assert_eq!(first.get("hello").unwrap().as_text().as_str(), "Jack");
    assert_eq!(first.get("world"), None);
    assert_eq!(second.len(), 2);
    assert_eq!(second.get("hello").unwrap().as_text().as_str(), "Jack");
    assert_eq!(second.get("world").unwrap().as_text().as_str(), "Jill");
}

#[test]
fn update() {
    let bundle = Bundle::empty().assoc("hello", Value::integer(33)).update("hello", |old| {
        assert_eq!(old, Some(Rc::new(Value::integer(33))));
        Value::integer(34)
    });
    assert_eq!(bundle.get("hello"), Some(Rc::new(Value::integer(34))));
}

#[test]
fn update_of_missing_key_sees_absence() {
    let bundle = Bundle::empty().update("hello", |old| {
        assert_eq!(old, None);
        Value::integer(1)
    });
    assert_eq!(bundle.get("hello"), Some(Rc::new(Value::integer(1))));
}

#[test]
fn dissoc_of_missing_key_keeps_content() {
    let bundle = Bundle::empty().assoc("hello", Value::integer(7)).dissoc("world");
    assert_eq!(bundle.len(), 1);
    assert_eq!(bundle.get("hello").unwrap().as_int(), 7);
}

#[test]
fn cell_hands_back_what_it_wraps() {
    let cell = BundleValue::new(Value::text("shared".to_string()));
    let handle = cell.get_rc();
    assert_eq!(*handle, Value::text("shared".to_string()));
    assert_eq!(cell.get_rc(), handle);
}

#[test]
fn value_kind_predicates() {
    let text = Value::text("a".to_string());
    let number = Value::integer(5);
    let sub = Value::sub(Bundle::empty());
    assert!(text.is_text() && !text.is_int() && !text.is_sub());
    assert!(number.is_int() && !number.is_text() && !number.is_sub());
    assert!(sub.is_sub() && !sub.is_text() && !sub.is_int());
    assert_eq!(number.as_int(), 5);
    assert_eq!(sub.as_sub().len(), 0);
}
