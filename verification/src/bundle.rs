//! The bundle itself: a persistent map from string keys to tagged values.

use std::rc::Rc;
use vstd::prelude::*;
use vstd::slice::slice_subrange;
use vstd::string::StringExecFns;

verus! {

/// The mathematical content of one stored value: text, an integer, or a
/// nested map. Contracts speak of bundles through this model.
pub enum Val {
    Text(Seq<char>),
    Int(int),
    Sub(Map<Seq<char>, Val>),
}

/// One stored value. The universe of storable types is closed: a piece of
/// text, a signed integer, or a nested [`Bundle`].
#[derive(Debug, PartialEq)]
pub enum Value {
    Text(String),
    Int(i64),
    Sub(Bundle),
}

/// A type-erased cell holding one shared value. Cloning the cell shares the
/// stored value; nothing ever mutates it in place.
#[derive(Debug, PartialEq)]
pub struct BundleValue {
    cell: Rc<Value>,
}

/// An immutable mapping from string keys to value cells. Every mutating
/// operation returns a new bundle; the source is never changed.
#[derive(Debug, PartialEq)]
pub struct Bundle {
    entries: Vec<(String, BundleValue)>,
}

/// The model of one exec value.
pub closed spec fn val_of(v: Value) -> Val
    decreases v,
{
    match v {
        Value::Text(s) => Val::Text(s@),
        Value::Int(i) => Val::Int(i as int),
        Value::Sub(b) => Val::Sub(map_of(b.entries@)),
    }
}

/// The model of an entry list: later entries shadow earlier ones, though a
/// well-formed bundle never holds two entries under one key.
pub closed spec fn map_of(s: Seq<(String, BundleValue)>) -> Map<Seq<char>, Val>
    decreases s,
{
    if s.len() == 0 {
        Map::empty()
    } else {
        map_of(s.drop_last()).insert(s.last().0@, val_of(*s.last().1.cell))
    }
}

impl View for Value {
    type V = Val;

    closed spec fn view(&self) -> Val {
        val_of(*self)
    }
}

impl View for BundleValue {
    type V = Val;

    closed spec fn view(&self) -> Val {
        val_of(*self.cell)
    }
}

impl View for Bundle {
    type V = Map<Seq<char>, Val>;

    closed spec fn view(&self) -> Map<Seq<char>, Val> {
        map_of(self.entries@)
    }
}

/// What a lookup yields on a model: the value under `k`, or absence.
pub open spec fn spec_get(m: Map<Seq<char>, Val>, k: Seq<char>) -> Option<Val> {
    if m.contains_key(k) {
        Some(m[k])
    } else {
        None
    }
}

/// What a lookup through a path of keys yields on a model. The empty path
/// is defined as absence; a missing intermediate key, or one holding
/// anything but a sub-bundle, is absence as well.
pub open spec fn spec_get_in(m: Map<Seq<char>, Val>, path: Seq<Seq<char>>) -> Option<Val>
    decreases path.len(),
{
    if path.len() == 0 {
        None
    } else if path.len() == 1 {
        spec_get(m, path[0])
    } else {
        match spec_get(m, path[0]) {
            Some(Val::Sub(sub)) => spec_get_in(sub, path.drop_first()),
            _ => None,
        }
    }
}

/// What associating through a path of keys yields on a model. The empty
/// path leaves the model as it is; a missing intermediate level, or one
/// holding anything but a sub-bundle, is replaced by a fresh sub-bundle.
pub open spec fn spec_assoc_in(m: Map<Seq<char>, Val>, path: Seq<Seq<char>>, v: Val) -> Map<
    Seq<char>,
    Val,
>
    decreases path.len(),
{
    if path.len() == 0 {
        m
    } else if path.len() == 1 {
        m.insert(path[0], v)
    } else {
        let child = match spec_get(m, path[0]) {
            Some(Val::Sub(sub)) => sub,
            _ => Map::<Seq<char>, Val>::empty(),
        };
        m.insert(path[0], Val::Sub(spec_assoc_in(child, path.drop_first(), v)))
    }
}

/// The model of an optional shared value.
pub open spec fn opt_view(r: Option<Rc<Value>>) -> Option<Val> {
    match r {
        Some(v) => Some(v@),
        None => None,
    }
}

/// The models of the keys along a path.
pub open spec fn path_view(keys: Seq<&str>) -> Seq<Seq<char>> {
    keys.map_values(|k: &str| k@)
}

/// No two entries carry the same key.
spec fn keys_unique(s: Seq<(String, BundleValue)>) -> bool {
    forall|i: int, j: int| 0 <= i < j < s.len() ==> s[i].0@ != s[j].0@
}

/// The facts that relate an entry list to its model: which keys the model
/// holds, and, once keys are unique, what it maps each of them to.
proof fn lemma_map_of_props(s: Seq<(String, BundleValue)>)
    ensures
        map_of(s).dom().finite(),
        forall|k: Seq<char>| #[trigger] map_of(s).contains_key(k) <==> (exists|i: int|
            0 <= i < s.len() && s[i].0@ == k),
        keys_unique(s) ==> map_of(s).dom().len() == s.len(),
        keys_unique(s) ==> forall|i: int|
            0 <= i < s.len() ==> map_of(s)[s[i].0@] == val_of(*s[i].1.cell),
    decreases s.len(),
{
    if s.len() > 0 {
        let t = s.drop_last();
        lemma_map_of_props(t);
        assert forall|k: Seq<char>| #[trigger] map_of(s).contains_key(k) implies (exists|i: int|
            0 <= i < s.len() && s[i].0@ == k) by {
            if k == s.last().0@ {
                assert(s[s.len() - 1].0@ == k);
            } else {
                let i = choose|i: int| 0 <= i < t.len() && t[i].0@ == k;
                assert(s[i].0@ == k);
            }
        }
        assert forall|k: Seq<char>| (exists|i: int| 0 <= i < s.len() && s[i].0@ == k)
            implies #[trigger] map_of(s).contains_key(k) by {
            let i = choose|i: int| 0 <= i < s.len() && s[i].0@ == k;
            if i < s.len() - 1 {
                assert(t[i].0@ == k);
            }
        }
        if keys_unique(s) {
            assert(keys_unique(t)) by {
                assert forall|i: int, j: int| 0 <= i < j < t.len() implies t[i].0@ != t[j].0@ by {
                    assert(s[i].0@ != s[j].0@);
                }
            }
            assert(!map_of(t).contains_key(s.last().0@)) by {
                if map_of(t).contains_key(s.last().0@) {
                    let i = choose|i: int| 0 <= i < t.len() && t[i].0@ == s.last().0@;
                    assert(s[i].0@ != s[s.len() - 1].0@);
                }
            }
            assert forall|i: int| 0 <= i < s.len() implies map_of(s)[s[i].0@] == val_of(
                *s[i].1.cell,
            ) by {
                if i < s.len() - 1 {
                    assert(t[i].0@ == s[i].0@);
                    assert(s[i].0@ != s[s.len() - 1].0@);
                }
            }
        }
    }
}

impl BundleValue {
    /// Wraps one value in a shared cell.
    pub fn new(value: Value) -> (r: Self)
        ensures
            r@ == value@,
    {
        BundleValue { cell: Rc::new(value) }
    }

    /// Hands out a shared handle to the stored value without copying it.
    pub fn get_rc(&self) -> (r: Rc<Value>)
        ensures
            r@ == self@,
    {
        Rc::clone(&self.cell)
    }
}

impl Clone for BundleValue {
    /// Shares the stored value: both cells are handles to the same value.
    fn clone(&self) -> (r: Self)
        ensures
            r == *self,
    {
        BundleValue { cell: Rc::clone(&self.cell) }
    }
}

/// One definitional step of `map_of` along a prefix of an entry list.
proof fn lemma_map_of_take_step(s: Seq<(String, BundleValue)>, i: int)
    requires
        0 <= i < s.len(),
    ensures
        map_of(s.take(i + 1)) == map_of(s.take(i)).insert(s[i].0@, val_of(*s[i].1.cell)),
{
    assert(s.take(i + 1).drop_last() =~= s.take(i));
    assert(s.take(i + 1).last() == s[i]);
}

impl Clone for Bundle {
    /// A fresh bundle with the same content; the copied cells share their
    /// stored values with this bundle.
    fn clone(&self) -> (r: Self)
        ensures
            r@ == self@,
    {
        proof {
            use_type_invariant(self);
        }
        let ghost s = self.entries@;
        let n = self.entries.len();
        let mut entries: Vec<(String, BundleValue)> = Vec::new();
        let mut i: usize = 0;
        while i < n
            invariant
                i <= n,
                n == s.len(),
                s == self.entries@,
                entries@ == s.take(i as int),
            decreases n - i,
        {
            let e = &self.entries[i];
            entries.push((e.0.clone(), e.1.clone()));
            proof {
                assert(entries@ =~= s.take(i + 1));
            }
            i = i + 1;
        }
        proof {
            assert(s.take(n as int) =~= s);
        }
        Bundle { entries }
    }
}

impl Bundle {
    /// Every bundle keeps at most one entry per key.
    #[verifier::type_invariant]
    spec fn wf(&self) -> bool {
        keys_unique(self.entries@)
    }

    /// The bundle with no entries.
    pub fn empty() -> (r: Self)
        ensures
            r@ == Map::<Seq<char>, Val>::empty(),
    {
        Bundle { entries: Vec::new() }
    }

    /// The number of distinct keys stored.
    pub fn len(&self) -> (r: usize)
        ensures
            r == self@.dom().len(),
    {
        proof {
            use_type_invariant(self);
            lemma_map_of_props(self.entries@);
        }
        self.entries.len()
    }

    /// The position of the entry holding `key`, if any.
    fn find(&self, key: &String) -> (r: Option<usize>)
        ensures
            match r {
                Some(i) => i < self.entries@.len() && self.entries@[i as int].0@ == key@,
                None => forall|j: int| 0 <= j < self.entries@.len() ==> self.entries@[j].0@ != key@,
            },
    {
        let n = self.entries.len();
        let mut i: usize = 0;
        while i < n
            invariant
                i <= n,
                n == self.entries@.len(),
                forall|j: int| 0 <= j < i ==> self.entries@[j].0@ != key@,
            decreases n - i,
        {
            if self.entries[i].0 == *key {
                return Some(i);
            }
            i = i + 1;
        }
        None
    }

    /// A copy of the entry list without `key`; the copied cells share their
    /// stored values with this bundle.
    fn entries_without(&self, key: &String) -> (out: Vec<(String, BundleValue)>)
        ensures
            map_of(out@) == self@.remove(key@),
            keys_unique(out@),
            forall|j: int| 0 <= j < out@.len() ==> out@[j].0@ != key@,
    {
        proof {
            use_type_invariant(self);
        }
        let ghost s = self.entries@;
        let n = self.entries.len();
        let mut out: Vec<(String, BundleValue)> = Vec::new();
        let mut i: usize = 0;
        while i < n
            invariant
                i <= n,
                n == s.len(),
                s == self.entries@,
                keys_unique(s),
                map_of(out@) == map_of(s.take(i as int)).remove(key@),
                keys_unique(out@),
                forall|j: int| 0 <= j < out@.len() ==> out@[j].0@ != key@,
                forall|j: int| #![trigger out@[j]]
                    0 <= j < out@.len() ==> exists|l: int| #![auto] 0 <= l < i && out@[j] == s[l],
            decreases n - i,
        {
            proof {
                lemma_map_of_take_step(s, i as int);
            }
            let e = &self.entries[i];
            if e.0 == *key {
                proof {
                    assert(map_of(s.take(i + 1)).remove(key@) =~= map_of(s.take(i as int)).remove(
                        key@,
                    ));
                }
            } else {
                let ghost pre = out@;
                out.push((e.0.clone(), e.1.clone()));
                proof {
                    assert(out@.drop_last() =~= pre);
                    assert(out@.last() == s[i as int]);
                    assert(map_of(out@) =~= map_of(s.take(i + 1)).remove(key@));
                    assert forall|j: int| #![trigger out@[j]] 0 <= j < out@.len() implies exists|
                        l: int,
                    |
                        #![auto]
                        0 <= l < i + 1 && out@[j] == s[l] by {
                        if j == out@.len() - 1 {
                            assert(out@[j] == s[i as int]);
                        }
                    }
                }
            }
            i = i + 1;
        }
        proof {
            assert(s.take(n as int) =~= s);
        }
        out
    }

    /// A new bundle identical to this one except that `key` now maps to
    /// `value`; an existing entry under `key` is replaced only in the new
    /// bundle. The source bundle is unaffected.
    pub fn assoc(&self, key: &str, value: Value) -> (r: Self)
        ensures
            r@ == self@.insert(key@, value@),
    {
        let k = String::from_str(key);
        let mut entries = self.entries_without(&k);
        let ghost pre = entries@;
        entries.push((k, BundleValue::new(value)));
        proof {
            assert(entries@.drop_last() =~= pre);
            assert(map_of(entries@) =~= self@.insert(key@, value@));
            assert forall|i: int, j: int| 0 <= i < j < entries@.len() implies entries@[i].0@
                != entries@[j].0@ by {
                if j < entries@.len() - 1 {
                    assert(pre[i].0@ != pre[j].0@);
                }
            }
        }
        Bundle { entries }
    }

    /// A new bundle identical to this one but with `key` removed; when the
    /// key was absent the result has the same content. The source bundle is
    /// unaffected.
    pub fn dissoc(&self, key: &str) -> (r: Self)
        ensures
            r@ == self@.remove(key@),
    {
        let k = String::from_str(key);
        let entries = self.entries_without(&k);
        Bundle { entries }
    }

    /// Looks `key` up, returning a shared handle to the stored value, or
    /// absence when the key is not present. Absence is not an error.
    pub fn get(&self, key: &str) -> (r: Option<Rc<Value>>)
        ensures
            match r {
                Some(v) => self@.contains_key(key@) && v@ == self@[key@],
                None => !self@.contains_key(key@),
            },
    {
        proof {
            use_type_invariant(self);
            lemma_map_of_props(self.entries@);
        }
        let k = String::from_str(key);
        match self.find(&k) {
            Some(i) => Some(self.entries[i].1.get_rc()),
            None => None,
        }
    }

    /// Looks a value up through a path of keys, descending through
    /// sub-bundles. The empty path is absence; so is a missing intermediate
    /// key or one holding anything but a sub-bundle.
    pub fn get_in(&self, keys: &[&str]) -> (r: Option<Rc<Value>>)
        ensures
            opt_view(r) == spec_get_in(self@, path_view(keys@)),
        decreases keys@.len(),
    {
        if keys.len() == 0 {
            None
        } else if keys.len() == 1 {
            self.get(keys[0])
        } else {
            let rest = slice_subrange(keys, 1, keys.len());
            proof {
                assert(path_view(rest@) =~= path_view(keys@).drop_first());
            }
            match self.get(keys[0]) {
                Some(v) => match &*v {
                    Value::Sub(b) => b.get_in(rest),
                    _ => None,
                },
                None => None,
            }
        }
    }

    /// A new bundle in which the value at the end of the path is `value`,
    /// with fresh sub-bundles created on demand for missing intermediate
    /// levels — a present intermediate value that is not a sub-bundle is
    /// overwritten by a fresh one. The empty path yields a fresh bundle
    /// with the same content. The source bundle is unaffected.
    pub fn assoc_in(&self, keys: &[&str], value: Value) -> (r: Self)
        ensures
            r@ == spec_assoc_in(self@, path_view(keys@), value@),
        decreases keys@.len(),
    {
        if keys.len() == 0 {
            self.clone()
        } else if keys.len() == 1 {
            self.assoc(keys[0], value)
        } else {
            let rest = slice_subrange(keys, 1, keys.len());
            proof {
                assert(path_view(rest@) =~= path_view(keys@).drop_first());
            }
            let new_child = match self.get(keys[0]) {
                Some(v) => match &*v {
                    Value::Sub(b) => b.assoc_in(rest, value),
                    _ => Bundle::empty().assoc_in(rest, value),
                },
                None => Bundle::empty().assoc_in(rest, value),
            };
            self.assoc(keys[0], Value::Sub(new_child))
        }
    }

    /// Reads the current value at `key` (absence when not present), applies
    /// `transform` to it exactly once, and associates the result back under
    /// `key` in a new bundle. The source bundle is unaffected, so the
    /// transform observes a stable snapshot.
    pub fn update<F: Fn(Option<Rc<Value>>) -> Value>(&self, key: &str, transform: F) -> (r: Self)
        requires
            forall|v: Option<Rc<Value>>|
                opt_view(v) == spec_get(self@, key@) ==> call_requires(transform, (v,)),
        ensures
            exists|v: Option<Rc<Value>>, w: Value|
                #![auto]
                opt_view(v) == spec_get(self@, key@) && call_ensures(transform, (v,), w) && r@
                    == self@.insert(key@, w@),
    {
        let old_value = self.get(key);
        proof {
            assert(opt_view(old_value) == spec_get(self@, key@));
        }
        let new_value = transform(old_value);
        self.assoc(key, new_value)
    }

    /// Reads the current value at the end of the path (absence when the
    /// path does not lead to one), applies `transform` to it exactly once,
    /// and associates the result back through the path as `assoc_in` does.
    /// The empty path yields a fresh bundle with the same content, and the
    /// transform is not applied. The source bundle is unaffected.
    pub fn update_in<F: Fn(Option<Rc<Value>>) -> Value>(&self, keys: &[&str], transform: F) -> (r:
        Self)
        requires
            keys@.len() > 0 ==> forall|v: Option<Rc<Value>>|
                opt_view(v) == spec_get_in(self@, path_view(keys@)) ==> call_requires(
                    transform,
                    (v,),
                ),
        ensures
            keys@.len() == 0 ==> r@ == self@,
            keys@.len() > 0 ==> exists|v: Option<Rc<Value>>, w: Value|
                #![auto]
                opt_view(v) == spec_get_in(self@, path_view(keys@)) && call_ensures(
                    transform,
                    (v,),
                    w,
                ) && r@ == spec_assoc_in(self@, path_view(keys@), w@),
        decreases keys@.len(),
    {
        if keys.len() == 0 {
            self.clone()
        } else if keys.len() == 1 {
            self.update(keys[0], transform)
        } else {
            let rest = slice_subrange(keys, 1, keys.len());
            proof {
                assert(path_view(rest@) =~= path_view(keys@).drop_first());
            }
            let new_child = match self.get(keys[0]) {
                Some(v) => match &*v {
                    Value::Sub(b) => b.update_in(rest, transform),
                    _ => Bundle::empty().update_in(rest, transform),
                },
                None => Bundle::empty().update_in(rest, transform),
            };
            self.assoc(keys[0], Value::Sub(new_child))
        }
    }
}

impl Value {
    /// A text value with the given content.
    pub fn text(s: String) -> (r: Value)
        ensures
            r@ == Val::Text(s@),
    {
        Value::Text(s)
    }

    /// An integer value with the given content.
    pub fn integer(i: i64) -> (r: Value)
        ensures
            r@ == Val::Int(i as int),
    {
        Value::Int(i)
    }

    /// A sub-bundle value with the given content.
    pub fn sub(b: Bundle) -> (r: Value)
        ensures
            r@ == Val::Sub(b@),
    {
        Value::Sub(b)
    }

    /// Whether the stored value is text.
    pub fn is_text(&self) -> (r: bool)
        ensures
            r == (self@ is Text),
    {
        match self {
            Value::Text(_) => true,
            _ => false,
        }
    }

    /// Whether the stored value is an integer.
    pub fn is_int(&self) -> (r: bool)
        ensures
            r == (self@ is Int),
    {
        match self {
            Value::Int(_) => true,
            _ => false,
        }
    }

    /// Whether the stored value is a sub-bundle.
    pub fn is_sub(&self) -> (r: bool)
        ensures
            r == (self@ is Sub),
    {
        match self {
            Value::Sub(_) => true,
            _ => false,
        }
    }

    /// The stored text. Requesting the wrong kind is a contract violation
    /// by the caller, ruled out before the program runs; an unverified
    /// caller that breaks it fails fatally.
    pub fn as_text(&self) -> (r: &String)
        requires
            self@ is Text,
        ensures
            Val::Text(r@) == self@,
    {
        match self {
            Value::Text(s) => s,
            _ => unreached(),
        }
    }

    /// The stored integer, under the same contract as `as_text`.
    pub fn as_int(&self) -> (r: i64)
        requires
            self@ is Int,
        ensures
            Val::Int(r as int) == self@,
    {
        match self {
            Value::Int(i) => *i,
            _ => unreached(),
        }
    }

    /// The stored sub-bundle, under the same contract as `as_text`.
    pub fn as_sub(&self) -> (r: &Bundle)
        requires
            self@ is Sub,
        ensures
            Val::Sub(r@) == self@,
    {
        match self {
            Value::Sub(b) => b,
            _ => unreached(),
        }
    }
}

} // verus!
