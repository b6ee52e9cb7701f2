//! An immutable, heterogeneous associative container.
//!
//! A [`bundle::Bundle`] maps string keys to tagged values; a value may itself
//! be a bundle, so paths of keys reach through nested sub-bundles. Every
//! operation that looks like a mutation returns a new bundle and leaves the
//! source untouched, so any number of readers may share one bundle freely.
//!
//! The operations live on [`bundle::Bundle`]; this root offers the same
//! readings and derivations as free functions, for call sites that prefer
//! `assoc(&b, ..)` over `b.assoc(..)`.

pub mod bundle;
pub mod fixtures;
pub mod key;
pub mod laws;

use std::rc::Rc;
use vstd::prelude::*;
use vstd::slice::slice_subrange;

use crate::bundle::{
    opt_view, path_view, spec_assoc_in, spec_get, spec_get_in, Bundle, Val, Value,
};

verus! {

/// The bundle with no entries.
pub fn empty() -> (r: Bundle)
    ensures
        r@ == Map::<Seq<char>, Val>::empty(),
{
    Bundle::empty()
}

/// Looks `key` up in `b`: a shared handle to the stored value, or absence.
pub fn try_get(b: &Bundle, key: &str) -> (r: Option<Rc<Value>>)
    ensures
        opt_view(r) == spec_get(b@, key@),
{
    b.get(key)
}

/// Looks a value up through a path of keys by walking down the chain of
/// sub-bundles one level at a time. The empty path is absence; so is a
/// missing intermediate key or one holding anything but a sub-bundle.
pub fn try_get_in(b: &Bundle, keys: &[&str]) -> (r: Option<Rc<Value>>)
    ensures
        opt_view(r) == spec_get_in(b@, path_view(keys@)),
{
    let ghost path = path_view(keys@);
    let n = keys.len();
    if n == 0 {
        return None;
    }
    let mut cur: Bundle = b.clone();
    proof {
        assert(path.skip(0) =~= path);
    }
    let mut i: usize = 0;
    while i < n - 1
        invariant
            i < n,
            n == keys@.len(),
            path == path_view(keys@),
            spec_get_in(cur@, path.skip(i as int)) == spec_get_in(b@, path),
        decreases n - 1 - i,
    {
        proof {
            assert(path.skip(i as int).drop_first() =~= path.skip(i + 1));
            assert(path.skip(i as int)[0] == path[i as int]);
        }
        match try_get(&cur, keys[i]) {
            None => {
                return None;
            },
            Some(v) => {
                if v.is_sub() {
                    cur = v.as_sub().clone();
                } else {
                    return None;
                }
            },
        }
        i = i + 1;
    }
    proof {
        assert(path.skip(n - 1)[0] == path[n - 1]);
    }
    try_get(&cur, keys[n - 1])
}

/// A new bundle identical to `b` except that `key` now maps to `value`;
/// `b` itself is unaffected.
pub fn assoc(b: &Bundle, key: &str, value: Value) -> (r: Bundle)
    ensures
        r@ == b@.insert(key@, value@),
{
    b.assoc(key, value)
}

/// A new bundle in which the value at the end of the path is `value`, with
/// fresh sub-bundles created on demand for missing intermediate levels — a
/// present intermediate value that is not a sub-bundle is overwritten by a
/// fresh one. The empty path yields a fresh bundle with the same content.
pub fn assoc_in(b: &Bundle, keys: &[&str], value: Value) -> (r: Bundle)
    ensures
        r@ == spec_assoc_in(b@, path_view(keys@), value@),
    decreases keys@.len(),
{
    if keys.len() == 0 {
        b.clone()
    } else if keys.len() == 1 {
        assoc(b, keys[0], value)
    } else {
        let rest = slice_subrange(keys, 1, keys.len());
        proof {
            assert(path_view(rest@) =~= path_view(keys@).drop_first());
        }
        let new_child = match try_get(b, keys[0]) {
            None => assoc_in(&empty(), rest, value),
            Some(v) => {
                if v.is_sub() {
                    assoc_in(v.as_sub(), rest, value)
                } else {
                    assoc_in(&empty(), rest, value)
                }
            },
        };
        assoc(b, keys[0], Value::sub(new_child))
    }
}

/// A new bundle identical to `b` but with `key` removed; when the key was
/// absent the result has the same content. `b` itself is unaffected.
pub fn dissoc(b: &Bundle, key: &str) -> (r: Bundle)
    ensures
        r@ == b@.remove(key@),
{
    b.dissoc(key)
}

} // verus!
