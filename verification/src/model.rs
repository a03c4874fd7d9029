//! The mathematical model of a configuration tree, and what path lookup,
//! replacement and insertion mean on it.

use crate::float::same_number;
use crate::path::{
    after_first, after_last, before_first, before_last, first_position, lemma_first_position,
    lemma_first_position_is, lemma_last_split,
};
use vstd::prelude::*;

verus! {

/// The character that separates the segments of a path.
pub const SEPARATOR: char = '/';

/// What a configuration value is.
pub ghost enum ValueModel {
    /// An integer.
    Int(int),
    /// A double-precision number, as its IEEE 754 binary64 bit pattern.
    Float(int),
    /// A string.
    Str(Seq<char>),
    /// A boolean.
    Bool(bool),
    /// A nested map.
    Submap(MapModel),
    /// A list of values.
    List(Seq<ValueModel>),
}

/// What a configuration map is: its entries by key, and the prefix under
/// which its default options are looked up.
pub ghost struct MapModel {
    pub entries: Map<Seq<char>, ValueModel>,
    pub default_prefix: Seq<char>,
}

impl ValueModel {
    /// Whether two values compare equal: they are of one kind and hold the
    /// same, where numbers are the same if they compare equal as numbers,
    /// lists if they are equal item by item and maps if they are equal entry
    /// by entry and have the same prefix of default options.
    pub open spec fn equals(self, other: ValueModel) -> bool
        decreases self,
    {
        match (self, other) {
            (ValueModel::Int(a), ValueModel::Int(b)) => a == b,
            (ValueModel::Float(a), ValueModel::Float(b)) => same_number(a, b),
            (ValueModel::Str(a), ValueModel::Str(b)) => a == b,
            (ValueModel::Bool(a), ValueModel::Bool(b)) => a == b,
            (ValueModel::Submap(a), ValueModel::Submap(b)) => a.equals(b),
            (ValueModel::List(a), ValueModel::List(b)) => a.len() == b.len() && forall|i: int|
                0 <= i < a.len() ==> (#[trigger] a[i]).equals(b[i]),
            _ => false,
        }
    }
}

/// `a`, a separator, then `b`.
pub open spec fn join(a: Seq<char>, b: Seq<char>) -> Seq<char> {
    a + seq![SEPARATOR] + b
}

impl MapModel {
    /// Whether two maps compare equal: they have the same keys, under each
    /// key values that compare equal, and the same prefix of default options.
    pub open spec fn equals(self, other: MapModel) -> bool
        decreases self,
    {
        &&& self.default_prefix == other.default_prefix
        &&& self.entries.dom() == other.entries.dom()
        &&& forall|k: Seq<char>| #[trigger]
            self.entries.contains_key(k) ==> self.entries[k].equals(other.entries[k])
    }

    /// The map without entries whose default options are looked up under `prefix`.
    pub open spec fn empty(prefix: Seq<char>) -> MapModel {
        MapModel { entries: Map::empty(), default_prefix: prefix }
    }

    /// The entry under `key`, taken as one segment.
    pub open spec fn direct(self, key: Seq<char>) -> Option<ValueModel> {
        if self.entries.contains_key(key) {
            Some(self.entries[key])
        } else {
            None
        }
    }

    /// This map with `value` as the entry under `key`, taken as one segment.
    pub open spec fn put(self, key: Seq<char>, value: ValueModel) -> MapModel {
        MapModel { entries: self.entries.insert(key, value), default_prefix: self.default_prefix }
    }

    /// The value that `path` leads to.
    ///
    /// A path without separator names an entry of this map. Any other path is
    /// split at its first separator: what stands before it must name an entry
    /// that is a nested map, in which the rest is looked up. An empty segment
    /// is a key like any other: the empty string.
    pub open spec fn get(self, path: Seq<char>) -> Option<ValueModel>
        decreases path.len(),
    {
        if !path.contains(SEPARATOR) {
            self.direct(path)
        } else {
            proof {
                lemma_first_position(path, SEPARATOR);
            }
            match self.direct(before_first(path, SEPARATOR)) {
                Some(ValueModel::Submap(inner)) => inner.get(after_first(path, SEPARATOR)),
                _ => None,
            }
        }
    }

    /// This map with `value` in the place that `path` leads to; this map
    /// itself where `path` leads nowhere.
    pub open spec fn set(self, path: Seq<char>, value: ValueModel) -> MapModel
        decreases path.len(),
    {
        if !path.contains(SEPARATOR) {
            if self.entries.contains_key(path) {
                self.put(path, value)
            } else {
                self
            }
        } else {
            proof {
                lemma_first_position(path, SEPARATOR);
            }
            match self.direct(before_first(path, SEPARATOR)) {
                Some(ValueModel::Submap(inner)) => self.put(
                    before_first(path, SEPARATOR),
                    ValueModel::Submap(inner.set(after_first(path, SEPARATOR), value)),
                ),
                _ => self,
            }
        }
    }

    /// Whether a value can be inserted at `path`: the path has no separator,
    /// or what stands before its last separator leads to a nested map.
    pub open spec fn can_insert(self, path: Seq<char>) -> bool {
        !path.contains(SEPARATOR) || self.get(before_last(path, SEPARATOR)) matches Some(
            ValueModel::Submap(_),
        )
    }

    /// This map after `value` was inserted at `path`; this map itself where
    /// that cannot be done.
    ///
    /// The path is split at its last separator. What stands after it becomes
    /// a key of the nested map that the front part leads to, or of this map
    /// where the path has no separator.
    pub open spec fn insert(self, path: Seq<char>, value: ValueModel) -> MapModel {
        if !path.contains(SEPARATOR) {
            self.put(path, value)
        } else {
            match self.get(before_last(path, SEPARATOR)) {
                Some(ValueModel::Submap(inner)) => self.set(
                    before_last(path, SEPARATOR),
                    ValueModel::Submap(inner.put(after_last(path, SEPARATOR), value)),
                ),
                _ => self,
            }
        }
    }

    /// The path under which `option` is found for `category`: that of the
    /// category where it leads to a value, else that of the default options
    /// where that one does, else none.
    pub open spec fn option_path(self, category: Seq<char>, option: Seq<char>) -> Option<
        Seq<char>,
    > {
        if self.get(join(category, option)) is Some {
            Some(join(category, option))
        } else if self.get(self.default_prefix + option) is Some {
            Some(self.default_prefix + option)
        } else {
            None
        }
    }

    /// The value of `option` for `category`.
    pub open spec fn get_option(self, category: Seq<char>, option: Seq<char>) -> Option<
        ValueModel,
    > {
        match self.option_path(category, option) {
            Some(path) => self.get(path),
            None => None,
        }
    }

    /// This map with `value` as the value of `option` for `category`; this
    /// map itself where the option is found nowhere.
    pub open spec fn update_option(
        self,
        category: Seq<char>,
        option: Seq<char>,
        value: ValueModel,
    ) -> MapModel {
        match self.option_path(category, option) {
            Some(path) => self.set(path, value),
            None => self,
        }
    }
}

/// In `join(a, b)` the first separator is that of `a`, or the joining one
/// where `a` has none.
pub proof fn lemma_join_first(a: Seq<char>, b: Seq<char>)
    ensures
        join(a, b).contains(SEPARATOR),
        !a.contains(SEPARATOR) ==> before_first(join(a, b), SEPARATOR) == a && after_first(
            join(a, b),
            SEPARATOR,
        ) == b,
        a.contains(SEPARATOR) ==> before_first(join(a, b), SEPARATOR) == before_first(a, SEPARATOR)
            && after_first(join(a, b), SEPARATOR) == join(after_first(a, SEPARATOR), b),
{
    let p = join(a, b);
    lemma_first_position(a, SEPARATOR);
    let i = first_position(a, SEPARATOR);
    assert forall|j: int| 0 <= j < i implies p[j] != SEPARATOR by {
        assert(p[j] == a[j]);
    }
    if i < a.len() {
        assert(p[i] == a[i]);
    }
    lemma_first_position_is(p, SEPARATOR, i);
    lemma_first_position(p, SEPARATOR);
    if a.contains(SEPARATOR) {
        assert(before_first(p, SEPARATOR) =~= before_first(a, SEPARATOR));
        assert(after_first(p, SEPARATOR) =~= join(after_first(a, SEPARATOR), b));
    } else {
        assert(before_first(p, SEPARATOR) =~= a);
        assert(after_first(p, SEPARATOR) =~= b);
    }
}

/// A path that holds a separator is its front part joined to its last segment.
pub proof fn lemma_split_last(path: Seq<char>)
    requires
        path.contains(SEPARATOR),
    ensures
        path == join(before_last(path, SEPARATOR), after_last(path, SEPARATOR)),
        !after_last(path, SEPARATOR).contains(SEPARATOR),
{
    lemma_last_split(path, SEPARATOR);
}

/// Looking up `join(a, b)` is looking up `a` and then, in the nested map
/// that it leads to, `b`; it finds nothing where `a` leads to no nested map.
pub proof fn lemma_get_joined(m: MapModel, a: Seq<char>, b: Seq<char>)
    ensures
        m.get(join(a, b)) == match m.get(a) {
            Some(ValueModel::Submap(inner)) => inner.get(b),
            _ => None,
        },
    decreases a.len(),
{
    lemma_join_first(a, b);
    if a.contains(SEPARATOR) {
        lemma_first_position(a, SEPARATOR);
        match m.direct(before_first(a, SEPARATOR)) {
            Some(ValueModel::Submap(inner)) => {
                lemma_get_joined(inner, after_first(a, SEPARATOR), b);
            },
            _ => {},
        }
    }
}

/// After a replacement at a path that leads to a value, the path leads to the
/// new value.
pub proof fn lemma_set_then_get(m: MapModel, path: Seq<char>, value: ValueModel)
    requires
        m.get(path) is Some,
    ensures
        m.set(path, value).get(path) == Some(value),
    decreases path.len(),
{
    if path.contains(SEPARATOR) {
        lemma_first_position(path, SEPARATOR);
        match m.direct(before_first(path, SEPARATOR)) {
            Some(ValueModel::Submap(inner)) => {
                lemma_set_then_get(inner, after_first(path, SEPARATOR), value);
            },
            _ => {},
        }
    }
}

/// Replacing a value by itself, or at a path that leads nowhere, changes nothing.
pub proof fn lemma_set_same(m: MapModel, path: Seq<char>, value: ValueModel)
    requires
        m.get(path) is None || m.get(path) == Some(value),
    ensures
        m.set(path, value) == m,
    decreases path.len(),
{
    if path.contains(SEPARATOR) {
        lemma_first_position(path, SEPARATOR);
        match m.direct(before_first(path, SEPARATOR)) {
            Some(ValueModel::Submap(inner)) => {
                lemma_set_same(inner, after_first(path, SEPARATOR), value);
            },
            _ => {},
        }
    }
    assert(m.set(path, value).entries =~= m.entries);
}

/// A value inserted at a path is what the path leads to afterwards, whenever
/// the path has no separator or its front part leads to a nested map.
pub proof fn law_insert_then_get(m: MapModel, path: Seq<char>, value: ValueModel)
    requires
        m.can_insert(path),
    ensures
        m.insert(path, value).get(path) == Some(value),
{
    if path.contains(SEPARATOR) {
        lemma_split_last(path);
        let front = before_last(path, SEPARATOR);
        let leaf = after_last(path, SEPARATOR);
        let inner = m.get(front)->Some_0->Submap_0;
        let grown = ValueModel::Submap(inner.put(leaf, value));
        lemma_set_then_get(m, front, grown);
        lemma_get_joined(m.set(front, grown), front, leaf);
    }
}

/// What stood at a path before an insertion is the entry of its last segment
/// in the nested map that its front part leads to.
pub proof fn lemma_get_before_insert(m: MapModel, path: Seq<char>)
    requires
        path.contains(SEPARATOR),
    ensures
        m.get(path) == match m.get(before_last(path, SEPARATOR)) {
            Some(ValueModel::Submap(inner)) => inner.direct(after_last(path, SEPARATOR)),
            _ => None,
        },
{
    lemma_split_last(path);
    lemma_get_joined(m, before_last(path, SEPARATOR), after_last(path, SEPARATOR));
}

/// A path leads nowhere as soon as what stands before one of its separators
/// leads nowhere, or to a value that is no nested map.
pub proof fn law_get_needs_maps(m: MapModel, path: Seq<char>, i: int)
    requires
        0 <= i < path.len(),
        path[i] == SEPARATOR,
        !(m.get(path.subrange(0, i)) matches Some(ValueModel::Submap(_))),
    ensures
        m.get(path) is None,
{
    let a = path.subrange(0, i);
    let b = path.subrange(i + 1, path.len() as int);
    assert(path =~= join(a, b));
    lemma_get_joined(m, a, b);
}

/// A path leads nowhere where its last segment is no key: of the map itself
/// for a path without separator, else of the nested map that the front part
/// of the path leads to.
pub proof fn law_get_needs_key(m: MapModel, path: Seq<char>)
    requires
        if path.contains(SEPARATOR) {
            m.get(before_last(path, SEPARATOR)) matches Some(ValueModel::Submap(inner))
                && !inner.entries.contains_key(after_last(path, SEPARATOR))
        } else {
            !m.entries.contains_key(path)
        },
    ensures
        m.get(path) is None,
{
    if path.contains(SEPARATOR) {
        lemma_get_before_insert(m, path);
    }
}

/// An option that the category has is read from the category, whatever the
/// default options hold.
pub proof fn law_category_overrides_default(m: MapModel, category: Seq<char>, option: Seq<char>)
    requires
        m.get(join(category, option)) is Some,
    ensures
        m.get_option(category, option) == m.get(join(category, option)),
{
}

/// An option that the category lacks is read from the default options.
pub proof fn law_default_is_fallback(m: MapModel, category: Seq<char>, option: Seq<char>)
    requires
        m.get(join(category, option)) is None,
    ensures
        m.get_option(category, option) == m.get(m.default_prefix + option),
{
}

/// An update of an option that the category has replaces the value of the
/// category, which is what the option then reads.
pub proof fn law_update_replaces_category(
    m: MapModel,
    category: Seq<char>,
    option: Seq<char>,
    value: ValueModel,
)
    requires
        m.get(join(category, option)) is Some,
    ensures
        m.update_option(category, option, value) == m.set(join(category, option), value),
        m.update_option(category, option, value).get_option(category, option) == Some(value),
{
    lemma_set_then_get(m, join(category, option), value);
}

/// An update of an option that only the default options hold replaces the
/// default value, and the category still has no value of its own.
pub proof fn law_update_replaces_default(
    m: MapModel,
    category: Seq<char>,
    option: Seq<char>,
    value: ValueModel,
)
    requires
        m.get(join(category, option)) is None,
        m.get(m.default_prefix + option) is Some,
    ensures
        m.update_option(category, option, value) == m.set(m.default_prefix + option, value),
        m.update_option(category, option, value).get(m.default_prefix + option) == Some(value),
{
    lemma_set_then_get(m, m.default_prefix + option, value);
}

/// An update of an option that is found nowhere changes nothing.
pub proof fn law_update_of_absent(
    m: MapModel,
    category: Seq<char>,
    option: Seq<char>,
    value: ValueModel,
)
    requires
        m.get_option(category, option) is None,
    ensures
        m.update_option(category, option, value) == m,
{
}

} // verus!
