//! The laws the bundle obeys, stated over the models that the operations'
//! own contracts use and proved once for all inputs.
//!
//! Every operation takes its bundle by shared reference and returns a new
//! one, so the source of a derivation is untouched by construction; the
//! lemmas here state what the derived model holds.

use vstd::prelude::*;

use crate::bundle::{spec_assoc_in, spec_get, spec_get_in, Val};

verus! {

/// Persistence: deriving a bundle by associating or removing one key
/// leaves every other key reading exactly as before, and the source bundle
/// itself is never changed (its operations take it by shared reference).
pub proof fn lemma_persistence(
    m: Map<Seq<char>, Val>,
    k: Seq<char>,
    v: Val,
    k2: Seq<char>,
)
    requires
        k2 != k,
    ensures
        spec_get(m.insert(k, v), k2) == spec_get(m, k2),
        spec_get(m.remove(k), k2) == spec_get(m, k2),
{
}

/// Shadowing: associating twice under one key leaves the second value, and
/// the intermediate bundle still reads the first.
pub proof fn lemma_shadowing(m: Map<Seq<char>, Val>, k: Seq<char>, v1: Val, v2: Val)
    ensures
        spec_get(m.insert(k, v1).insert(k, v2), k) == Some(v2),
        spec_get(m.insert(k, v1), k) == Some(v1),
{
}

/// Round trip: a value read back right after it was associated is the
/// value that was stored.
pub proof fn lemma_round_trip(m: Map<Seq<char>, Val>, k: Seq<char>, v: Val)
    ensures
        spec_get(m.insert(k, v), k) == Some(v),
{
}

/// Removal: a key read after associating and then removing it is absent.
pub proof fn lemma_removal(m: Map<Seq<char>, Val>, k: Seq<char>, v: Val)
    ensures
        spec_get(m.insert(k, v).remove(k), k) == None::<Val>,
{
}

/// Path equivalence: a two-key path reads the same as looking the first
/// key up and then the second inside the sub-bundle found there, whenever
/// that intermediate value exists and is a sub-bundle.
pub proof fn lemma_path_equivalence(
    m: Map<Seq<char>, Val>,
    k1: Seq<char>,
    k2: Seq<char>,
    sub: Map<Seq<char>, Val>,
)
    requires
        spec_get(m, k1) == Some(Val::Sub(sub)),
    ensures
        spec_get_in(m, seq![k1, k2]) == spec_get(sub, k2),
{
    let path = seq![k1, k2];
    assert(path[0] == k1);
    assert(path.drop_first() =~= seq![k2]);
    assert(path.drop_first()[0] == k2);
    assert(spec_get_in(sub, path.drop_first()) == spec_get(sub, k2));
}

/// Lazy sub-bundle creation: associating through a two-key path into the
/// empty bundle yields a bundle of one entry, whose value is itself a
/// bundle of one entry holding the stored value.
pub proof fn lemma_lazy_creation(k1: Seq<char>, k2: Seq<char>, v: Val)
    ensures
        ({
            let child = Map::<Seq<char>, Val>::empty().insert(k2, v);
            let r = spec_assoc_in(Map::<Seq<char>, Val>::empty(), seq![k1, k2], v);
            &&& r == Map::<Seq<char>, Val>::empty().insert(k1, Val::Sub(child))
            &&& r.dom().len() == 1
            &&& spec_get(r, k1) == Some(Val::Sub(child))
            &&& child.dom().len() == 1
            &&& spec_get(child, k2) == Some(v)
        }),
{
    let e = Map::<Seq<char>, Val>::empty();
    let path = seq![k1, k2];
    assert(path[0] == k1);
    assert(path.drop_first() =~= seq![k2]);
    assert(path.drop_first()[0] == k2);
    assert(spec_get(e, k1) is None);
    assert(spec_assoc_in(e, path.drop_first(), v) == e.insert(k2, v));
    assert(e.insert(k2, v).dom() =~= Set::<Seq<char>>::empty().insert(k2));
    assert(e.insert(k1, Val::Sub(e.insert(k2, v))).dom() =~= Set::<Seq<char>>::empty().insert(k1));
}

/// Path round trip: a value read back through the very path it was just
/// associated through is the value that was stored, for every non-empty
/// path.
pub proof fn lemma_path_round_trip(m: Map<Seq<char>, Val>, path: Seq<Seq<char>>, v: Val)
    requires
        path.len() > 0,
    ensures
        spec_get_in(spec_assoc_in(m, path, v), path) == Some(v),
    decreases path.len(),
{
    if path.len() > 1 {
        let child = match spec_get(m, path[0]) {
            Some(Val::Sub(sub)) => sub,
            _ => Map::<Seq<char>, Val>::empty(),
        };
        lemma_path_round_trip(child, path.drop_first(), v);
    }
}

/// Associating through a path touches nothing outside its first key: any
/// other key still reads exactly as before. Together with the removal and
/// persistence laws this is why deriving one leaf deep inside a tree
/// leaves every sibling readable.
pub proof fn lemma_assoc_in_preserves_siblings(
    m: Map<Seq<char>, Val>,
    path: Seq<Seq<char>>,
    v: Val,
    k: Seq<char>,
)
    requires
        path.len() > 0,
        k != path[0],
    ensures
        spec_get(spec_assoc_in(m, path, v), k) == spec_get(m, k),
{
}

/// Empty-path identities: reading through the empty path is always
/// absence, and associating through it leaves the content as it was.
pub proof fn lemma_empty_path(m: Map<Seq<char>, Val>, v: Val)
    ensures
        spec_get_in(m, Seq::<Seq<char>>::empty()) is None,
        spec_assoc_in(m, Seq::<Seq<char>>::empty(), v) == m,
{
}

} // verus!
