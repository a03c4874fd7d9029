//! An in-memory, hierarchical configuration store.
//!
//! A [`CfgMap`] holds [`CfgValue`]s by key. A value may itself be a map, and a
//! key may be a path such as `a/b/c`, which is followed through the nested
//! maps. Options that a category lacks are read from the map's default
//! options. What a lookup returns can be checked against a [`Condition`]
//! through [`Checkable`].
//!
//! The contracts speak of the models in [`model`]: what a map and a value are,
//! and what lookup and insertion by path mean on them.

pub mod conditions;
pub mod float;
pub mod map;
pub mod model;
pub mod path;
pub mod value;

pub use conditions::{Checkable, Condition};
pub use map::CfgMap;
pub use value::CfgValue;
