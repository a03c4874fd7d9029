//! The configuration map and its path-addressed operations.
//!
//! A key given to an operation is a single key or a path of keys separated
//! by `/`. Every segment of a path is a key, an empty one too: `a//b` names
//! the key `b` in the map under the empty key of the map under `a`.

use crate::model::{
    join, lemma_get_before_insert, lemma_set_same, MapModel, ValueModel, SEPARATOR,
};
use crate::path::{lemma_first_position, rsplit_once, split_once};
use crate::value::CfgValue;
use vstd::prelude::*;
use vstd::std_specs::cmp::PartialEqSpecImpl;

verus! {

/// A configuration map: values by key, and a place for default options.
///
/// The key at an index belongs to the value at that index. No key occurs
/// twice; the order of the entries carries no meaning. A lookup compares the
/// key it is given with the keys of the map one after the other.
#[derive(Debug)]
pub struct CfgMap {
    pub(crate) keys: Vec<String>,
    pub(crate) values: Vec<CfgValue>,
    pub(crate) default: String,
}

/// An index of `keys` at which `key` stands, if there is one.
pub(crate) open spec fn index_of_key(keys: Seq<String>, key: Seq<char>) -> Option<int> {
    if exists|i: int| 0 <= i < keys.len() && #[trigger] keys[i]@ == key {
        Some(choose|i: int| 0 <= i < keys.len() && #[trigger] keys[i]@ == key)
    } else {
        None
    }
}

impl View for CfgMap {
    type V = MapModel;

    closed spec fn view(&self) -> MapModel
        decreases self,
    {
        MapModel {
            entries: Map::new(
                |k: Seq<char>| index_of_key(self.keys@, k) is Some,
                |k: Seq<char>|
                    {
                        let i = index_of_key(self.keys@, k).unwrap();
                        if 0 <= i < self.values@.len() {
                            self.values@[i].view()
                        } else {
                            ValueModel::Bool(false)
                        }
                    },
            ),
            default_prefix: self.default@,
        }
    }
}

impl CfgMap {
    /// Each key has its value, and no key occurs twice.
    #[verifier::type_invariant]
    pub(crate) closed spec fn well_formed(&self) -> bool {
        &&& self.keys@.len() == self.values@.len()
        &&& forall|i: int, j: int|
            0 <= i < j < self.keys@.len() ==> #[trigger] self.keys@[i]@ != #[trigger] self.keys@[j]@
    }

    /// The value at a valid index is what the model holds under the key there.
    proof fn lemma_entry(&self, i: int)
        requires
            self.well_formed(),
            0 <= i < self.keys@.len(),
        ensures
            self@.direct(self.keys@[i]@) == Some(self.values@[i]@),
    {
        assert(index_of_key(self.keys@, self.keys@[i]@) is Some);
    }

    /// A key of the model stands at some index, with its value.
    proof fn lemma_key(&self, key: Seq<char>) -> (i: int)
        requires
            self.well_formed(),
            self@.entries.contains_key(key),
        ensures
            0 <= i < self.keys@.len(),
            self.keys@[i]@ == key,
            self@.entries[key] == self.values@[i]@,
    {
        index_of_key(self.keys@, key).unwrap()
    }

    /// A key that stands at no index is none of the model.
    proof fn lemma_absent(&self, key: Seq<char>)
        requires
            forall|i: int| 0 <= i < self.keys@.len() ==> self.keys@[i]@ != key,
        ensures
            self@.direct(key) is None,
    {
    }

    /// A map with the same keys and the same values, index by index, is the
    /// same in the model.
    proof fn lemma_same(&self, other: &CfgMap)
        requires
            self.well_formed(),
            other.default@ == self.default@,
            other.keys@.len() == self.keys@.len(),
            other.values@.len() == self.values@.len(),
            forall|i: int|
                0 <= i < self.keys@.len() ==> (#[trigger] other.keys@[i])@ == self.keys@[i]@,
            forall|i: int|
                0 <= i < self.values@.len() ==> (#[trigger] other.values@[i])@ == self.values@[i]@,
        ensures
            other.well_formed(),
            other@ == self@,
    {
        assert forall|k: Seq<char>|
            (index_of_key(other.keys@, k) is Some) == (index_of_key(self.keys@, k) is Some) by {
            if index_of_key(self.keys@, k) is Some {
                let j = index_of_key(self.keys@, k).unwrap();
                assert(other.keys@[j]@ == k);
            }
            if index_of_key(other.keys@, k) is Some {
                let j = index_of_key(other.keys@, k).unwrap();
                assert(self.keys@[j]@ == k);
            }
        }
        assert forall|k: Seq<char>| #[trigger]
            other@.entries.contains_key(k) implies other@.entries[k] == self@.entries[k] by {
            let a = index_of_key(other.keys@, k).unwrap();
            let b = index_of_key(self.keys@, k).unwrap();
            assert(other.keys@[b]@ == k);
            assert(a == b);
        }
        assert(other@.entries =~= self@.entries);
    }

    /// Whatever value takes the place of the one at an index, the map then
    /// holds it under the key at that index, and all else as before.
    proof fn lemma_replaced(&self, i: int)
        requires
            self.well_formed(),
            0 <= i < self.keys@.len(),
        ensures
            forall|after: CfgMap|
                #![trigger after.values@]
                after.default == self.default && after.keys == self.keys && after.values@
                    == self.values@.update(i, after.values@[i]) ==> after.well_formed() && after@
                    == self@.put(self.keys@[i]@, after.values@[i]@),
    {
        let key = self.keys@[i]@;
        assert(index_of_key(self.keys@, key) is Some);
        assert forall|after: CfgMap|
            #![trigger after.values@]
            after.default == self.default && after.keys == self.keys && after.values@
                == self.values@.update(i, after.values@[i]) implies after.well_formed() && after@
            == self@.put(key, after.values@[i]@) by {
            assert(after@.entries =~= self@.put(key, after.values@[i]@).entries);
        }
    }

    /// Appending a new key with its value puts the value under that key.
    proof fn lemma_pushed(&self, after: &CfgMap, key: String, value: CfgValue)
        requires
            self.well_formed(),
            after.default == self.default,
            after.keys@ == self.keys@.push(key),
            after.values@ == self.values@.push(value),
            forall|j: int| 0 <= j < self.keys@.len() ==> self.keys@[j]@ != key@,
        ensures
            after.well_formed(),
            after@ == self@.put(key@, value@),
    {
        let n = self.keys@.len() as int;
        assert forall|k: Seq<char>|
            (index_of_key(after.keys@, k) is Some) == (k == key@ || index_of_key(self.keys@, k)
                is Some) by {
            if index_of_key(self.keys@, k) is Some {
                let j = index_of_key(self.keys@, k).unwrap();
                assert(after.keys@[j]@ == k);
            }
            if k == key@ {
                assert(after.keys@[n]@ == k);
            }
            if index_of_key(after.keys@, k) is Some {
                let j = index_of_key(after.keys@, k).unwrap();
                if j < n {
                    assert(self.keys@[j]@ == k);
                }
            }
        }
        assert forall|k: Seq<char>| #[trigger]
            after@.entries.contains_key(k) implies after@.entries[k] == self@.put(
            key@,
            value@,
        ).entries[k] by {
            let a = index_of_key(after.keys@, k).unwrap();
            if k != key@ {
                let b = index_of_key(self.keys@, k).unwrap();
                assert(after.keys@[b]@ == k);
                assert(a == b);
            }
        }
        assert(after@.entries =~= self@.put(key@, value@).entries);
    }

    /// Creates an empty map whose default options stand at its root.
    pub fn new() -> (r: CfgMap)
        ensures
            r@ == MapModel::empty(Seq::empty()),
    {
        let r = CfgMap { keys: Vec::new(), values: Vec::new(), default: String::new() };
        assert(r@.entries =~= Map::empty());
        r
    }

    /// Creates an empty map whose default options stand under `path`.
    pub fn with_default(path: String) -> (r: CfgMap)
        ensures
            r@ == MapModel::empty(path@.push(SEPARATOR)),
    {
        let mut default = path;
        default.append("/");
        proof {
            reveal_strlit("/");
            assert(default@ =~= path@.push(SEPARATOR));
        }
        let r = CfgMap { keys: Vec::new(), values: Vec::new(), default };
        assert(r@.entries =~= Map::empty());
        r
    }

    /// The index at which `key` stands.
    fn position(&self, key: &String) -> (r: Option<usize>)
        ensures
            match r {
                Some(i) => i < self.keys@.len() && self.keys@[i as int]@ == key@,
                None => forall|i: int| 0 <= i < self.keys@.len() ==> self.keys@[i]@ != key@,
            },
    {
        let mut i: usize = 0;
        while i < self.keys.len()
            invariant
                i <= self.keys@.len(),
                forall|j: int| 0 <= j < i ==> self.keys@[j]@ != key@,
            decreases self.keys@.len() - i,
        {
            if self.keys[i] == *key {
                return Some(i);
            }
            i += 1;
        }
        None
    }

    /// The value stored under `key`, taken as one segment.
    fn entry(&self, key: &String) -> (r: Option<&CfgValue>)
        ensures
            match r {
                Some(v) => self@.direct(key@) == Some(v@),
                None => self@.direct(key@) is None,
            },
    {
        proof {
            use_type_invariant(self);
        }
        match self.position(key) {
            Some(i) => {
                proof {
                    self.lemma_entry(i as int);
                }
                Some(&self.values[i])
            },
            None => {
                proof {
                    self.lemma_absent(key@);
                }
                None
            },
        }
    }

    /// The value stored under `key`, taken as one segment, to be changed in place.
    fn entry_mut(&mut self, key: &String) -> (r: Option<&mut CfgValue>)
        ensures
            match r {
                Some(v) => old(self)@.direct(key@) == Some(v@) && final(self)@ == old(self)@.put(
                    key@,
                    final(v)@,
                ),
                None => old(self)@.direct(key@) is None && final(self)@ == old(self)@,
            },
    {
        proof {
            use_type_invariant(&*self);
        }
        match self.position(key) {
            Some(i) => {
                proof {
                    self.lemma_entry(i as int);
                    self.lemma_replaced(i as int);
                }
                Some(&mut self.values[i])
            },
            None => {
                proof {
                    self.lemma_absent(key@);
                }
                None
            },
        }
    }

    /// Stores `value` under `key`, taken as one segment, and hands back what
    /// was stored there before.
    fn put(&mut self, key: String, value: CfgValue) -> (r: Option<CfgValue>)
        ensures
            final(self)@ == old(self)@.put(key@, value@),
            match r {
                Some(v) => old(self)@.direct(key@) == Some(v@),
                None => old(self)@.direct(key@) is None,
            },
    {
        proof {
            use_type_invariant(&*self);
        }
        match self.position(&key) {
            Some(i) => {
                proof {
                    self.lemma_entry(i as int);
                    self.lemma_replaced(i as int);
                }
                let mut value = value;
                core::mem::swap(&mut self.values[i], &mut value);
                Some(value)
            },
            None => {
                proof {
                    self.lemma_absent(key@);
                }
                let mut taken = CfgMap::new();
                core::mem::swap(self, &mut taken);
                let CfgMap { mut keys, mut values, default } = taken;
                let ghost before = CfgMap { keys, values, default };
                keys.push(key);
                values.push(value);
                let after = CfgMap { keys, values, default };
                proof {
                    before.lemma_pushed(&after, key, value);
                }
                *self = after;
                None
            },
        }
    }

    /// Gets a reference to the value that `key` leads to.
    ///
    /// `key` is a single key or a path such as `a/b/c`, which is followed
    /// through the nested maps `a` and `a/b`. The result is `None` where a
    /// segment is missing or a segment before the last is no map.
    pub fn get(&self, key: &str) -> (r: Option<&CfgValue>)
        ensures
            match r {
                Some(v) => self@.get(key@) == Some(v@),
                None => self@.get(key@) is None,
            },
        decreases key@.len(),
    {
        let (head, rest) = split_once(key, SEPARATOR);
        proof {
            lemma_first_position(key@, SEPARATOR);
        }
        match rest {
            None => self.entry(&head),
            Some(rest) => match self.entry(&head) {
                Some(CfgValue::Submap(inner)) => inner.get(rest.as_str()),
                _ => None,
            },
        }
    }

    /// Gets a mutable reference to the value that `key` leads to.
    ///
    /// The path is followed as `get` follows it. Whatever the caller stores
    /// through the reference takes the place of the value found.
    pub fn get_mut(&mut self, key: &str) -> (r: Option<&mut CfgValue>)
        ensures
            match r {
                Some(v) => old(self)@.get(key@) == Some(v@) && final(self)@ == old(self)@.set(
                    key@,
                    final(v)@,
                ),
                None => old(self)@.get(key@) is None && final(self)@ == old(self)@,
            },
        decreases key@.len(),
    {
        let (head, rest) = split_once(key, SEPARATOR);
        proof {
            lemma_first_position(key@, SEPARATOR);
        }
        match rest {
            None => self.entry_mut(&head),
            Some(rest) => {
                proof {
                    if self@.entries.contains_key(head@) {
                        assert(self@.put(head@, self@.entries[head@]).entries =~= self@.entries);
                    }
                }
                match self.entry_mut(&head) {
                    Some(CfgValue::Submap(inner)) => inner.get_mut(rest.as_str()),
                    _ => None,
                }
            },
        }
    }

    /// Whether `key`, a single key or a path, leads to a value.
    pub fn contains_key(&self, key: &str) -> (r: bool)
        ensures
            r == (self@.get(key@) is Some),
    {
        self.get(key).is_some()
    }

    /// Adds `value` under `key`.
    ///
    /// `key` is a single key or a path such as `a/b/c`, in which case the
    /// value is stored under `c` in the nested map that `a/b` leads to. That
    /// map must exist already: none is created on the way.
    ///
    /// Returns `Ok` with the value that `key` led to before, if any, and `Err`,
    /// with the map left as it was, where the front part of the path leads to
    /// no nested map.
    pub fn add(&mut self, key: &str, value: CfgValue) -> (r: Result<Option<CfgValue>, ()>)
        ensures
            match r {
                Ok(previous) => {
                    &&& old(self)@.can_insert(key@)
                    &&& final(self)@ == old(self)@.insert(key@, value@)
                    &&& match previous {
                        Some(v) => old(self)@.get(key@) == Some(v@),
                        None => old(self)@.get(key@) is None,
                    }
                },
                Err(_) => !old(self)@.can_insert(key@) && final(self)@ == old(self)@,
            },
    {
        let (front, leaf) = rsplit_once(key, SEPARATOR);
        proof {
            if key@.contains(SEPARATOR) {
                lemma_get_before_insert(self@, key@);
            }
        }
        match front {
            None => Ok(self.put(leaf, value)),
            Some(front) => {
                let ghost before = self@;
                match self.get_mut(front.as_str()) {
                    Some(CfgValue::Submap(inner)) => Ok(inner.put(leaf, value)),
                    Some(other) => {
                        proof {
                            lemma_set_same(before, front@, other@);
                        }
                        Err(())
                    },
                    None => Err(()),
                }
            },
        }
    }

    /// Gets a reference to the value of `option` for `category`.
    ///
    /// The value is looked for under `category/option` first and, where that
    /// leads nowhere, among the default options: under the default path
    /// given at construction, or at the root of the map where none was given.
    pub fn get_option(&self, category: &str, option: &str) -> (r: Option<&CfgValue>)
        ensures
            match r {
                Some(v) => self@.get_option(category@, option@) == Some(v@),
                None => self@.get_option(category@, option@) is None,
            },
    {
        let fullkey = self::category_path(category, option);
        let default = self.default_path(option);
        match self.get(fullkey.as_str()) {
            Some(v) => Some(v),
            None => self.get(default.as_str()),
        }
    }

    /// Replaces the value of `option` for `category` by `to`, and hands back
    /// the value replaced.
    ///
    /// The option is looked for as `get_option` does. Where it is found
    /// nowhere, nothing is stored and the result is `None`.
    pub fn update_option(&mut self, category: &str, option: &str, to: CfgValue) -> (r: Option<
        CfgValue,
    >)
        ensures
            final(self)@ == old(self)@.update_option(category@, option@, to@),
            match r {
                Some(v) => old(self)@.get_option(category@, option@) == Some(v@),
                None => old(self)@.get_option(category@, option@) is None,
            },
    {
        let fullkey = self::category_path(category, option);
        let default = self.default_path(option);
        let mut to = to;
        match self.get_mut(fullkey.as_str()) {
            Some(found) => {
                core::mem::swap(found, &mut to);
                return Some(to);
            },
            None => {},
        }
        match self.get_mut(default.as_str()) {
            Some(found) => {
                core::mem::swap(found, &mut to);
                Some(to)
            },
            None => None,
        }
    }

    /// The path of `option` among the default options.
    fn default_path(&self, option: &str) -> (r: String)
        ensures
            r@ == self@.default_prefix + option@,
    {
        let mut path = self.default.clone();
        path.append(option);
        path
    }
}

/// The path of `option` under `category`.
fn category_path(category: &str, option: &str) -> (r: String)
    ensures
        r@ == join(category@, option@),
{
    let mut path = category.to_owned();
    path.append("/");
    path.append(option);
    proof {
        reveal_strlit("/");
    }
    path
}

impl Clone for CfgMap {
    /// A copy of the map, with copies of all that it holds.
    fn clone(&self) -> (r: CfgMap)
        ensures
            r@ == self@,
        decreases self,
    {
        proof {
            use_type_invariant(self);
        }
        let mut keys: Vec<String> = Vec::new();
        let mut values: Vec<CfgValue> = Vec::new();
        let mut i: usize = 0;
        while i < self.keys.len()
            invariant
                self.well_formed(),
                i <= self.keys@.len(),
                keys@.len() == i,
                values@.len() == i,
                forall|j: int| 0 <= j < i ==> (#[trigger] keys@[j])@ == self.keys@[j]@,
                forall|j: int| 0 <= j < i ==> (#[trigger] values@[j])@ == self.values@[j]@,
            decreases self.keys@.len() - i,
        {
            keys.push(self.keys[i].clone());
            values.push(self.values[i].clone());
            i += 1;
        }
        let default = self.default.clone();
        let ghost copy = CfgMap { keys, values, default };
        proof {
            self.lemma_same(&copy);
        }
        CfgMap { keys, values, default }
    }
}

impl PartialEq for CfgMap {
    /// Whether two maps compare equal.
    fn eq(&self, other: &CfgMap) -> (r: bool)
        decreases self,
    {
        proof {
            use_type_invariant(self);
            use_type_invariant(other);
        }
        if !(self.default == other.default) {
            return false;
        }
        let mut i: usize = 0;
        while i < self.keys.len()
            invariant
                self.well_formed(),
                other.well_formed(),
                i <= self.keys@.len(),
                forall|j: int|
                    0 <= j < i ==> other@.entries.contains_key(#[trigger] self.keys@[j]@)
                        && self.values@[j]@.equals(other@.entries[self.keys@[j]@]),
            decreases self.keys@.len() - i,
        {
            proof {
                self.lemma_entry(i as int);
            }
            match other.entry(&self.keys[i]) {
                Some(found) => {
                    if !self.values[i].eq(found) {
                        return false;
                    }
                },
                None => {
                    return false;
                },
            }
            i += 1;
        }
        let mut i: usize = 0;
        while i < other.keys.len()
            invariant
                self.well_formed(),
                other.well_formed(),
                i <= other.keys@.len(),
                forall|j: int|
                    0 <= j < i ==> self@.entries.contains_key(#[trigger] other.keys@[j]@),
            decreases other.keys@.len() - i,
        {
            proof {
                other.lemma_entry(i as int);
            }
            match self.position(&other.keys[i]) {
                Some(at) => {
                    proof {
                        self.lemma_entry(at as int);
                    }
                },
                None => {
                    proof {
                        self.lemma_absent(other.keys@[i as int]@);
                    }
                    return false;
                },
            }
            i += 1;
        }
        proof {
            assert forall|k: Seq<char>| #[trigger]
                self@.entries.contains_key(k) implies other@.entries.contains_key(k)
                && self@.entries[k].equals(other@.entries[k]) by {
                let j = self.lemma_key(k);
            }
            assert forall|k: Seq<char>| #[trigger]
                other@.entries.contains_key(k) implies self@.entries.contains_key(k) by {
                let j = other.lemma_key(k);
            }
            assert(self@.entries.dom() =~= other@.entries.dom());
        }
        true
    }
}

impl PartialEqSpecImpl for CfgMap {
    open spec fn obeys_eq_spec() -> bool {
        true
    }

    open spec fn eq_spec(&self, other: &CfgMap) -> bool {
        self@.equals(other@)
    }
}

} // verus!
