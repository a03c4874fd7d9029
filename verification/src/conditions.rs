//! Conditions on configuration values, and checking a value against one.

use crate::float::{equal, same_number};
use crate::model::ValueModel;
use crate::value::CfgValue;
use vstd::prelude::*;

verus! {

/// A condition on a configuration value.
///
/// A condition is built once and can be checked against any number of
/// values. `a & b`, `a | b` and `!a` build `And`, `Or` and `Negation`; in code
/// that Verus verifies, `a.not()` stands for `!a`.
#[derive(Debug)]
pub enum Condition {
    /// The value is an integer.
    IsInt,
    /// The value is a double-precision number.
    IsFloat,
    /// The value is a string.
    IsStr,
    /// The value is a boolean.
    IsBool,
    /// The value is a nested map.
    IsMap,
    /// The value is a list.
    IsList,
    /// The value is this integer.
    IsExactlyInt(isize),
    /// The value is a double-precision number that compares equal to the one
    /// of this bit pattern.
    IsExactlyFloat(u64),
    /// The value is this string.
    IsExactlyStr(String),
    /// The value is this boolean.
    IsExactlyBool(bool),
    /// Both conditions hold.
    And(Box<Condition>, Box<Condition>),
    /// At least one of the conditions holds.
    Or(Box<Condition>, Box<Condition>),
    /// The condition does not hold.
    Negation(Box<Condition>),
}

impl Condition {
    /// Whether the condition holds of `value`.
    pub open spec fn holds(&self, value: ValueModel) -> bool
        decreases self,
    {
        match self {
            Condition::IsInt => value is Int,
            Condition::IsFloat => value is Float,
            Condition::IsStr => value is Str,
            Condition::IsBool => value is Bool,
            Condition::IsMap => value is Submap,
            Condition::IsList => value is List,
            Condition::IsExactlyInt(n) => value == ValueModel::Int(*n as int),
            Condition::IsExactlyFloat(bits) => value matches ValueModel::Float(found)
                && same_number(found, *bits as int),
            Condition::IsExactlyStr(s) => value == ValueModel::Str(s@),
            Condition::IsExactlyBool(b) => value == ValueModel::Bool(*b),
            Condition::And(a, b) => a.holds(value) && b.holds(value),
            Condition::Or(a, b) => a.holds(value) || b.holds(value),
            Condition::Negation(a) => !a.holds(value),
        }
    }

    /// Evaluates the condition on `value`.
    pub fn execute(&self, value: &CfgValue) -> (r: bool)
        ensures
            r == self.holds(value@),
        decreases self,
    {
        match self {
            Condition::IsInt => value.is_int(),
            Condition::IsFloat => value.is_float(),
            Condition::IsStr => value.is_str(),
            Condition::IsBool => value.is_bool(),
            Condition::IsMap => value.is_map(),
            Condition::IsList => value.is_list(),
            Condition::IsExactlyInt(n) => match value {
                CfgValue::Int(found) => *found == *n,
                _ => false,
            },
            Condition::IsExactlyFloat(bits) => match value {
                CfgValue::Float(found) => equal(*found, *bits),
                _ => false,
            },
            Condition::IsExactlyStr(s) => match value {
                CfgValue::Str(found) => *found == *s,
                _ => false,
            },
            Condition::IsExactlyBool(b) => match value {
                CfgValue::Bool(found) => *found == *b,
                _ => false,
            },
            Condition::And(a, b) => {
                let left = a.execute(value);
                let right = b.execute(value);
                left && right
            },
            Condition::Or(a, b) => {
                let left = a.execute(value);
                let right = b.execute(value);
                left || right
            },
            Condition::Negation(a) => !a.execute(value),
        }
    }
}

impl Clone for Condition {
    /// A copy of the condition.
    fn clone(&self) -> (r: Condition)
        ensures
            r == *self,
        decreases self,
    {
        match self {
            Condition::IsInt => Condition::IsInt,
            Condition::IsFloat => Condition::IsFloat,
            Condition::IsStr => Condition::IsStr,
            Condition::IsBool => Condition::IsBool,
            Condition::IsMap => Condition::IsMap,
            Condition::IsList => Condition::IsList,
            Condition::IsExactlyInt(n) => Condition::IsExactlyInt(*n),
            Condition::IsExactlyFloat(bits) => Condition::IsExactlyFloat(*bits),
            Condition::IsExactlyStr(s) => Condition::IsExactlyStr(s.clone()),
            Condition::IsExactlyBool(b) => Condition::IsExactlyBool(*b),
            Condition::And(a, b) => {
                let left = (**a).clone();
                let right = (**b).clone();
                Condition::And(Box::new(left), Box::new(right))
            },
            Condition::Or(a, b) => {
                let left = (**a).clone();
                let right = (**b).clone();
                Condition::Or(Box::new(left), Box::new(right))
            },
            Condition::Negation(a) => {
                let inner = (**a).clone();
                Condition::Negation(Box::new(inner))
            },
        }
    }
}

impl core::ops::BitAnd for Condition {
    type Output = Condition;

    fn bitand(self, rhs: Condition) -> (r: Condition) {
        Condition::And(Box::new(self), Box::new(rhs))
    }
}

impl vstd::std_specs::ops::BitAndSpecImpl for Condition {
    open spec fn obeys_bitand_spec() -> bool {
        true
    }

    open spec fn bitand_req(self, rhs: Condition) -> bool {
        true
    }

    open spec fn bitand_spec(self, rhs: Condition) -> Condition {
        Condition::And(Box::new(self), Box::new(rhs))
    }
}

impl core::ops::BitOr for Condition {
    type Output = Condition;

    fn bitor(self, rhs: Condition) -> (r: Condition) {
        Condition::Or(Box::new(self), Box::new(rhs))
    }
}

impl vstd::std_specs::ops::BitOrSpecImpl for Condition {
    open spec fn obeys_bitor_spec() -> bool {
        true
    }

    open spec fn bitor_req(self, rhs: Condition) -> bool {
        true
    }

    open spec fn bitor_spec(self, rhs: Condition) -> Condition {
        Condition::Or(Box::new(self), Box::new(rhs))
    }
}

impl core::ops::Not for Condition {
    type Output = Condition;

    fn not(self) -> (r: Condition) {
        Condition::Negation(Box::new(self))
    }
}

impl vstd::std_specs::ops::NotSpecImpl for Condition {
    open spec fn obeys_not_spec() -> bool {
        true
    }

    open spec fn not_req(self) -> bool {
        true
    }

    open spec fn not_spec(self) -> Condition {
        Condition::Negation(Box::new(self))
    }
}

/// What can be checked against a condition: a value, or what a lookup
/// returned.
pub trait Checkable {
    /// Whether `condition` holds of this.
    spec fn satisfies(&self, condition: Condition) -> bool;

    /// Checks `condition` against this.
    fn check_that(&self, condition: Condition) -> (r: bool)
        ensures
            r == self.satisfies(condition),
    ;
}

impl Checkable for CfgValue {
    open spec fn satisfies(&self, condition: Condition) -> bool {
        condition.holds(self@)
    }

    fn check_that(&self, condition: Condition) -> (r: bool) {
        condition.execute(self)
    }
}

/// A value that was not found satisfies no condition.
impl<'a> Checkable for Option<&'a CfgValue> {
    open spec fn satisfies(&self, condition: Condition) -> bool {
        match self {
            Some(value) => condition.holds(value@),
            None => false,
        }
    }

    fn check_that(&self, condition: Condition) -> (r: bool) {
        match self {
            Some(value) => condition.execute(value),
            None => false,
        }
    }
}

/// A value that was not found satisfies no condition.
impl<'a> Checkable for Option<&'a mut CfgValue> {
    open spec fn satisfies(&self, condition: Condition) -> bool {
        match self {
            Some(value) => condition.holds(value@),
            None => false,
        }
    }

    fn check_that(&self, condition: Condition) -> (r: bool) {
        match self {
            Some(value) => condition.execute(value),
            None => false,
        }
    }
}

/// The condition "neither an integer nor a number".
pub open spec fn not_numeric() -> Condition {
    Condition::Negation(
        Box::new(Condition::Or(Box::new(Condition::IsInt), Box::new(Condition::IsFloat))),
    )
}

/// "Neither an integer nor a number" holds of exactly the values that are
/// neither.
pub proof fn law_not_numeric(value: ValueModel)
    ensures
        not_numeric().holds(value) <==> !(value is Int) && !(value is Float),
{
    reveal_with_fuel(Condition::holds, 3);
}

/// "Is exactly this integer" holds of that integer and of no other value.
pub proof fn law_exactly_int(n: isize, value: ValueModel)
    ensures
        Condition::IsExactlyInt(n).holds(value) <==> value == ValueModel::Int(n as int),
{
}

/// A negation holds exactly where the negated condition does not, a
/// conjunction where both parts hold, a disjunction where one of them does.
pub proof fn law_combinators(a: Condition, b: Condition, value: ValueModel)
    ensures
        Condition::Negation(Box::new(a)).holds(value) == !a.holds(value),
        Condition::And(Box::new(a), Box::new(b)).holds(value) == (a.holds(value) && b.holds(value)),
        Condition::Or(Box::new(a), Box::new(b)).holds(value) == (a.holds(value) || b.holds(value)),
{
}

/// A value that was not found satisfies no condition, not even the negation
/// of one.
pub proof fn law_absent_satisfies_nothing(condition: Condition)
    ensures
        !None::<&CfgValue>.satisfies(condition),
        !None::<&mut CfgValue>.satisfies(condition),
        !None::<&CfgValue>.satisfies(Condition::Negation(Box::new(condition))),
        !None::<&mut CfgValue>.satisfies(Condition::Negation(Box::new(condition))),
{
}

/// A value that was found satisfies a condition exactly where the value
/// itself does.
pub proof fn law_found_satisfies(value: &CfgValue, condition: Condition)
    ensures
        Some(value).satisfies(condition) == value.satisfies(condition),
{
}

} // verus!
