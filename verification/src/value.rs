//! Configuration values.

use crate::float::{equal, from_int, of_int, saturated, truncate, truncated};
use crate::map::CfgMap;
use crate::model::ValueModel;
use vstd::prelude::*;
use vstd::std_specs::cmp::PartialEqSpecImpl;

verus! {

/// One configuration datum.
#[derive(Debug)]
pub enum CfgValue {
    /// A signed integer.
    Int(isize),
    /// A double-precision number, held as its IEEE 754 binary64 bit pattern.
    Float(u64),
    /// A string.
    Str(String),
    /// A boolean.
    Bool(bool),
    /// A nested configuration map.
    Submap(CfgMap),
    /// A list of values, which may differ in kind.
    List(Vec<CfgValue>),
}

impl View for CfgValue {
    type V = ValueModel;

    open spec fn view(&self) -> ValueModel
        decreases self,
    {
        match *self {
            CfgValue::Int(x) => ValueModel::Int(x as int),
            CfgValue::Float(bits) => ValueModel::Float(bits as int),
            CfgValue::Str(s) => ValueModel::Str(s@),
            CfgValue::Bool(b) => ValueModel::Bool(b),
            CfgValue::Submap(m) => ValueModel::Submap(m.view()),
            CfgValue::List(l) => ValueModel::List(
                Seq::new(
                    l@.len(),
                    |i: int|
                        if 0 <= i < l@.len() {
                            l@[i].view()
                        } else {
                            ValueModel::Bool(false)
                        },
                ),
            ),
        }
    }
}

impl CfgValue {
    /// Whether the value is an integer.
    pub fn is_int(&self) -> (r: bool)
        ensures
            r == (self is Int),
    {
        match self {
            CfgValue::Int(_) => true,
            _ => false,
        }
    }

    /// Whether the value is a double-precision number.
    pub fn is_float(&self) -> (r: bool)
        ensures
            r == (self is Float),
    {
        match self {
            CfgValue::Float(_) => true,
            _ => false,
        }
    }

    /// Whether the value is a string.
    pub fn is_str(&self) -> (r: bool)
        ensures
            r == (self is Str),
    {
        match self {
            CfgValue::Str(_) => true,
            _ => false,
        }
    }

    /// Whether the value is a boolean.
    pub fn is_bool(&self) -> (r: bool)
        ensures
            r == (self is Bool),
    {
        match self {
            CfgValue::Bool(_) => true,
            _ => false,
        }
    }

    /// Whether the value is a nested map.
    pub fn is_map(&self) -> (r: bool)
        ensures
            r == (self is Submap),
    {
        match self {
            CfgValue::Submap(_) => true,
            _ => false,
        }
    }

    /// Whether the value is a list.
    pub fn is_list(&self) -> (r: bool)
        ensures
            r == (self is List),
    {
        match self {
            CfgValue::List(_) => true,
            _ => false,
        }
    }

    /// A reference to the integer; `None` where the value is of another kind.
    pub fn as_int(&self) -> (r: Option<&isize>)
        ensures
            match r {
                Some(x) => *self == CfgValue::Int(*x),
                None => !(self is Int),
            },
    {
        match self {
            CfgValue::Int(x) => Some(x),
            _ => None,
        }
    }

    /// A reference to the bit pattern of the number; `None` where the value is of another kind.
    pub fn as_float(&self) -> (r: Option<&u64>)
        ensures
            match r {
                Some(x) => *self == CfgValue::Float(*x),
                None => !(self is Float),
            },
    {
        match self {
            CfgValue::Float(x) => Some(x),
            _ => None,
        }
    }

    /// A reference to the string; `None` where the value is of another kind.
    pub fn as_str(&self) -> (r: Option<&String>)
        ensures
            match r {
                Some(x) => *self == CfgValue::Str(*x),
                None => !(self is Str),
            },
    {
        match self {
            CfgValue::Str(x) => Some(x),
            _ => None,
        }
    }

    /// A reference to the boolean; `None` where the value is of another kind.
    pub fn as_bool(&self) -> (r: Option<&bool>)
        ensures
            match r {
                Some(x) => *self == CfgValue::Bool(*x),
                None => !(self is Bool),
            },
    {
        match self {
            CfgValue::Bool(x) => Some(x),
            _ => None,
        }
    }

    /// A reference to the nested map; `None` where the value is of another kind.
    pub fn as_map(&self) -> (r: Option<&CfgMap>)
        ensures
            match r {
                Some(x) => *self == CfgValue::Submap(*x),
                None => !(self is Submap),
            },
    {
        match self {
            CfgValue::Submap(x) => Some(x),
            _ => None,
        }
    }

    /// A reference to the list; `None` where the value is of another kind.
    pub fn as_list(&self) -> (r: Option<&Vec<CfgValue>>)
        ensures
            match r {
                Some(x) => *self == CfgValue::List(*x),
                None => !(self is List),
            },
    {
        match self {
            CfgValue::List(x) => Some(x),
            _ => None,
        }
    }

    /// A mutable reference to the integer; `None` where the value is of another
    /// kind. What the caller stores through it is what the value then holds.
    pub fn as_int_mut(&mut self) -> (r: Option<&mut isize>)
        ensures
            match r {
                Some(x) => {
                    &&& *old(self) == CfgValue::Int(*x)
                    &&& *final(self) == CfgValue::Int(*final(x))
                },
                None => !(*old(self) is Int) && *final(self) == *old(self),
            },
    {
        match self {
            CfgValue::Int(x) => Some(x),
            _ => None,
        }
    }

    /// A mutable reference to the bit pattern of the number; `None` where the value is of another
    /// kind. What the caller stores through it is what the value then holds.
    pub fn as_float_mut(&mut self) -> (r: Option<&mut u64>)
        ensures
            match r {
                Some(x) => {
                    &&& *old(self) == CfgValue::Float(*x)
                    &&& *final(self) == CfgValue::Float(*final(x))
                },
                None => !(*old(self) is Float) && *final(self) == *old(self),
            },
    {
        match self {
            CfgValue::Float(x) => Some(x),
            _ => None,
        }
    }

    /// A mutable reference to the string; `None` where the value is of another
    /// kind. What the caller stores through it is what the value then holds.
    pub fn as_str_mut(&mut self) -> (r: Option<&mut String>)
        ensures
            match r {
                Some(x) => {
                    &&& *old(self) == CfgValue::Str(*x)
                    &&& *final(self) == CfgValue::Str(*final(x))
                },
                None => !(*old(self) is Str) && *final(self) == *old(self),
            },
    {
        match self {
            CfgValue::Str(x) => Some(x),
            _ => None,
        }
    }

    /// A mutable reference to the boolean; `None` where the value is of another
    /// kind. What the caller stores through it is what the value then holds.
    pub fn as_bool_mut(&mut self) -> (r: Option<&mut bool>)
        ensures
            match r {
                Some(x) => {
                    &&& *old(self) == CfgValue::Bool(*x)
                    &&& *final(self) == CfgValue::Bool(*final(x))
                },
                None => !(*old(self) is Bool) && *final(self) == *old(self),
            },
    {
        match self {
            CfgValue::Bool(x) => Some(x),
            _ => None,
        }
    }

    /// A mutable reference to the nested map; `None` where the value is of another
    /// kind. What the caller stores through it is what the value then holds.
    pub fn as_map_mut(&mut self) -> (r: Option<&mut CfgMap>)
        ensures
            match r {
                Some(x) => {
                    &&& *old(self) == CfgValue::Submap(*x)
                    &&& *final(self) == CfgValue::Submap(*final(x))
                },
                None => !(*old(self) is Submap) && *final(self) == *old(self),
            },
    {
        match self {
            CfgValue::Submap(x) => Some(x),
            _ => None,
        }
    }

    /// A mutable reference to the list; `None` where the value is of another
    /// kind. What the caller stores through it is what the value then holds.
    pub fn as_list_mut(&mut self) -> (r: Option<&mut Vec<CfgValue>>)
        ensures
            match r {
                Some(x) => {
                    &&& *old(self) == CfgValue::List(*x)
                    &&& *final(self) == CfgValue::List(*final(x))
                },
                None => !(*old(self) is List) && *final(self) == *old(self),
            },
    {
        match self {
            CfgValue::List(x) => Some(x),
            _ => None,
        }
    }

    /// The value as an integer: the integer itself, or the number with what
    /// follows the point cut off. A number beyond the machine integers gives
    /// the nearest of them, "not a number" gives zero. `None` where the value
    /// is neither an integer nor a number.
    pub fn to_int(&self) -> (r: Option<isize>)
        ensures
            r == match *self {
                CfgValue::Int(x) => Some(x),
                CfgValue::Float(bits) => Some(saturated(truncated(bits as int))),
                _ => None,
            },
    {
        match self {
            CfgValue::Int(x) => Some(*x),
            CfgValue::Float(bits) => Some(truncate(*bits)),
            _ => None,
        }
    }

    /// The value as the bit pattern of a double-precision number: the
    /// number itself, or the number nearest to the integer. `None` where the
    /// value is neither an integer nor a number.
    pub fn to_float(&self) -> (r: Option<u64>)
        ensures
            match *self {
                CfgValue::Int(x) => r matches Some(bits) && bits == of_int(x as int),
                CfgValue::Float(bits) => r == Some(bits),
                _ => r is None,
            },
    {
        match self {
            CfgValue::Int(x) => Some(from_int(*x)),
            CfgValue::Float(bits) => Some(*bits),
            _ => None,
        }
    }
}

impl Clone for CfgValue {
    /// A copy of the value, with copies of all that it holds.
    fn clone(&self) -> (r: CfgValue)
        ensures
            r@ == self@,
        decreases self,
    {
        match self {
            CfgValue::Int(x) => CfgValue::Int(*x),
            CfgValue::Float(bits) => CfgValue::Float(*bits),
            CfgValue::Str(s) => CfgValue::Str(s.clone()),
            CfgValue::Bool(b) => CfgValue::Bool(*b),
            CfgValue::Submap(m) => CfgValue::Submap(m.clone()),
            CfgValue::List(l) => {
                let mut items: Vec<CfgValue> = Vec::new();
                let mut i: usize = 0;
                while i < l.len()
                    invariant
                        *self == CfgValue::List(*l),
                        i <= l@.len(),
                        items@.len() == i,
                        forall|j: int| 0 <= j < i ==> items@[j]@ == l@[j]@,
                    decreases l@.len() - i,
                {
                    let item = &l[i];
                    assert(self->List_0 == *l);
                    items.push(item.clone());
                    i += 1;
                }
                proof {
                    assert(CfgValue::List(items)@->List_0 =~= self@->List_0);
                }
                CfgValue::List(items)
            },
        }
    }
}

impl PartialEq for CfgValue {
    /// Whether two values compare equal.
    fn eq(&self, other: &CfgValue) -> (r: bool)
        decreases self,
    {
        match (self, other) {
            (CfgValue::Int(a), CfgValue::Int(b)) => *a == *b,
            (CfgValue::Float(a), CfgValue::Float(b)) => equal(*a, *b),
            (CfgValue::Str(a), CfgValue::Str(b)) => *a == *b,
            (CfgValue::Bool(a), CfgValue::Bool(b)) => *a == *b,
            (CfgValue::Submap(a), CfgValue::Submap(b)) => a.eq(b),
            (CfgValue::List(a), CfgValue::List(b)) => {
                let ghost left = self@->List_0;
                let ghost right = other@->List_0;
                if a.len() != b.len() {
                    return false;
                }
                let mut i: usize = 0;
                while i < a.len()
                    invariant
                        *self == CfgValue::List(*a),
                        *other == CfgValue::List(*b),
                        left == self@->List_0,
                        right == other@->List_0,
                        i <= a@.len() == b@.len(),
                        forall|j: int| 0 <= j < i ==> (#[trigger] left[j]).equals(right[j]),
                    decreases a@.len() - i,
                {
                    assert(left[i as int] == a@[i as int]@);
                    if !a[i].eq(&b[i]) {
                        return false;
                    }
                    i += 1;
                }
                true
            },
            _ => false,
        }
    }
}

impl PartialEqSpecImpl for CfgValue {
    open spec fn obeys_eq_spec() -> bool {
        true
    }

    open spec fn eq_spec(&self, other: &CfgValue) -> bool {
        self@.equals(other@)
    }
}

} // verus!
