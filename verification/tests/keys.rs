//! Reading a bundle through key objects.

use bundle::bundle::{Bundle, Value};
use bundle::fixtures::{Hello, World};
use bundle::key::{Key, TryGetBundleValue};

#[test]
fn retrieves_value_from_bundle() {
    let bundle = Bundle::empty().assoc("hello", Value::text("yo".to_string()));
    assert_eq!(bundle.get("hello").unwrap().as_text().as_str(), "yo");
    assert_eq!(Hello.get(&bundle).unwrap().as_text().as_str(), "yo");
}

#[test]
fn key_names_are_stable() {
    assert_eq!(Hello.name().as_str(), "hello");
    assert_eq!(World.name().as_str(), "world");
}

#[test]
fn missing_slot_reads_as_absence_through_a_key() {
    let bundle = Bundle::empty().assoc("hello", Value::integer(1));
    assert_eq!(World.get(&bundle), None);
    assert_eq!(World.try_get(&bundle), None);
}

#[test]
fn try_get_reads_like_get() {
    let bundle = Bundle::empty().assoc("world", Value::text("Bob".to_string()));
    assert_eq!(World.try_get(&bundle), World.get(&bundle));
    assert_eq!(World.try_get(&bundle).unwrap().as_text().as_str(), "Bob");
}
