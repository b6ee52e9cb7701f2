//! Path operations: get_in, assoc_in, update_in, and the free functions.

use std::rc::Rc;

use bundle::bundle::{Bundle, Value};
use bundle::{assoc, assoc_in, dissoc, empty, try_get, try_get_in};

#[test]
fn assoc_in_creates_sub_bundles() {
    let hello_and_world =
        Bundle::empty().assoc_in(&["hello", "world"], Value::text("Bob".to_string()));
    assert_eq!(hello_and_world.len(), 1);
    let binding = hello_and_world.get("hello").unwrap();
    let just_world = binding.as_sub();
    assert_eq!(just_world.len(), 1);

    let bob_from_just_world = just_world.get("world");
    let bob_from_hello_world = hello_and_world.get_in(&["hello", "world"]);
    assert_eq!(bob_from_just_world, bob_from_hello_world);
    assert_eq!(bob_from_just_world, Some(Rc::new(Value::text("Bob".to_string()))));
}

#[test]
fn update_in() {
    let bundle = Bundle::empty()
        .assoc_in(&["hello", "hello", "world"], Value::text("world".to_string()))
        .assoc_in(&["hello", "hello", "universe"], Value::text("universe".to_string()))
        .update_in(&["hello", "hello"], |from: Option<Rc<Value>>| {
            Value::sub(from.unwrap().as_sub().dissoc("world"))
        });
    assert_eq!(
        bundle.get_in(&["hello", "hello", "universe"]),
        Some(Rc::new(Value::text("universe".to_string())))
    );
    assert_eq!(bundle.get_in(&["hello", "hello", "world"]), None);
}

#[test]
fn empty_path_reads_as_absence() {
    let bundle = Bundle::empty().assoc("hello", Value::integer(3));
    assert_eq!(bundle.get_in(&[]), None);
}

#[test]
fn empty_path_assoc_keeps_content() {
    let bundle = Bundle::empty().assoc("hello", Value::integer(3));
    let copy = bundle.assoc_in(&[], Value::integer(9));
    assert_eq!(copy.len(), 1);
    assert_eq!(copy.get("hello").unwrap().as_int(), 3);
    assert_eq!(copy.get_in(&["hello"]), bundle.get_in(&["hello"]));
}

#[test]
fn one_key_path_reads_like_get() {
    let bundle = Bundle::empty().assoc("hello", Value::integer(3));
    assert_eq!(bundle.get_in(&["hello"]), bundle.get("hello"));
}

#[test]
fn missing_intermediate_level_reads_as_absence() {
    let bundle = Bundle::empty().assoc("hello", Value::integer(3));
    assert_eq!(bundle.get_in(&["world", "deep"]), None);
}

#[test]
fn non_bundle_intermediate_reads_as_absence() {
    let bundle = Bundle::empty().assoc("hello", Value::text("flat".to_string()));
    assert_eq!(bundle.get_in(&["hello", "deep"]), None);
}

#[test]
fn assoc_in_overwrites_non_bundle_intermediate() {
    let bundle = Bundle::empty()
        .assoc("hello", Value::text("flat".to_string()))
        .assoc_in(&["hello", "deep"], Value::integer(4));
    assert_eq!(bundle.get_in(&["hello", "deep"]), Some(Rc::new(Value::integer(4))));
}

#[test]
fn deep_path_round_trip() {
    let bundle = Bundle::empty().assoc_in(&["a", "b", "c", "d"], Value::integer(11));
    assert_eq!(bundle.get_in(&["a", "b", "c", "d"]), Some(Rc::new(Value::integer(11))));
    assert_eq!(bundle.len(), 1);
}

#[test]
fn sibling_leaves_survive_a_deep_assoc() {
    let bundle = Bundle::empty()
        .assoc_in(&["a", "left"], Value::integer(1))
        .assoc_in(&["a", "right"], Value::integer(2));
    assert_eq!(bundle.len(), 1);
    assert_eq!(bundle.get_in(&["a", "left"]), Some(Rc::new(Value::integer(1))));
    assert_eq!(bundle.get_in(&["a", "right"]), Some(Rc::new(Value::integer(2))));
}

#[test]
fn free_functions_mirror_the_methods() {
    let b = assoc(&empty(), "hello", Value::text("Bob".to_string()));
    assert_eq!(try_get(&b, "hello"), Some(Rc::new(Value::text("Bob".to_string()))));
    assert_eq!(try_get(&b, "world"), None);

    let b2 = dissoc(&b, "hello");
    assert_eq!(try_get(&b2, "hello"), None);
    assert_eq!(try_get(&b, "hello"), Some(Rc::new(Value::text("Bob".to_string()))));

    let nested = assoc_in(&empty(), &["hello", "world"], Value::text("Bob".to_string()));
    assert_eq!(
        try_get_in(&nested, &["hello", "world"]),
        Some(Rc::new(Value::text("Bob".to_string())))
    );
    assert_eq!(try_get_in(&nested, &[]), None);
    assert_eq!(try_get_in(&nested, &["hello", "missing"]), None);
    assert_eq!(try_get_in(&nested, &["world"]), None);
}
