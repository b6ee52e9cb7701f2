//! Keys as values: a key names one storage slot, so a bundle can be read
//! through a key object instead of a bare string.

use std::rc::Rc;
use vstd::prelude::*;

use crate::bundle::{opt_view, spec_get, Bundle, Value};

verus! {

/// A pure descriptor of one storage slot. Its name is immutable and maps
/// deterministically to the slot; two keys denote the same slot exactly
/// when their names are equal. Comparing keys has no side effects.
pub trait Key: Copy + Clone + PartialEq + 'static {
    /// The slot this key denotes.
    spec fn name_spec(&self) -> Seq<char>;

    /// The slot's name as a string.
    fn name(&self) -> (r: String)
        ensures
            r@ == self.name_spec(),
    ;

    /// Looks this key's slot up in `bundle`.
    fn get(&self, bundle: &Bundle) -> (r: Option<Rc<Value>>)
        ensures
            opt_view(r) == spec_get(bundle@, self.name_spec()),
    {
        let n = self.name();
        bundle.get(n.as_str())
    }
}

/// Key-first lookup: the same reading as [`Key::get`], offered on every
/// key so call sites may start from the key rather than the bundle.
pub trait TryGetBundleValue: Key {
    /// Looks this key's slot up in `b`.
    fn try_get(&self, b: &Bundle) -> (r: Option<Rc<Value>>)
        ensures
            opt_view(r) == spec_get(b@, self.name_spec()),
    ;
}

impl<A: Key> TryGetBundleValue for A {
    fn try_get(&self, b: &Bundle) -> (r: Option<Rc<Value>>) {
        self.get(b)
    }
}

} // verus!
