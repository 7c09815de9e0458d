//! Values as the machine holds them at run time: a tag and the value it
//! is the tag of.

use vstd::prelude::*;
use vstd::std_specs::convert::FromSpecImpl;

pub mod boolean;
pub mod integer;

pub use crate::object::boolean::AlloyBool;
pub use crate::object::integer::AlloyInt;

verus! {

/// The tag of a value.
#[derive(Debug, Clone, Copy, PartialEq, Eq, Structural)]
pub enum AlloyType {
    Int,
    Float,
    Bool,
}

/// A tagged value that holds a `U`.
pub trait AlloyObj<U>: Sized {
    /// The value held.
    spec fn value(&self) -> U;

    /// The tag of all values of this type.
    spec fn tag() -> AlloyType;

    /// Whether the tag kept with the value is that of its type.
    spec fn tagged(&self) -> bool;

    /// The value held.
    fn get(&self) -> (r: U)
        ensures
            r == self.value(),
    ;

    /// Replaces the value held and leaves the tag as it is.
    fn set(&mut self, value: U)
        ensures
            final(self).value() == value,
            final(self).tagged() == old(self).tagged(),
    ;

    /// The tag of all values of this type.
    fn get_type() -> (r: AlloyType)
        ensures
            r == Self::tag(),
    ;
}

/// A value of any of the tagged kinds.
#[derive(Debug, PartialEq, Eq)]
pub enum AlloyObject {
    Int(AlloyInt),
    Bool(AlloyBool),
}

impl From<AlloyInt> for AlloyObject {
    fn from(v: AlloyInt) -> (r: Self) {
        AlloyObject::Int(v)
    }
}

impl FromSpecImpl<AlloyInt> for AlloyObject {
    open spec fn obeys_from_spec() -> bool {
        true
    }

    open spec fn from_spec(v: AlloyInt) -> Self {
        AlloyObject::Int(v)
    }
}

impl From<AlloyBool> for AlloyObject {
    fn from(v: AlloyBool) -> (r: Self) {
        AlloyObject::Bool(v)
    }
}

impl FromSpecImpl<AlloyBool> for AlloyObject {
    open spec fn obeys_from_spec() -> bool {
        true
    }

    open spec fn from_spec(v: AlloyBool) -> Self {
        AlloyObject::Bool(v)
    }
}

impl AlloyObject {
    /// The tag of the value.
    pub open spec fn tag(&self) -> AlloyType {
        match self {
            AlloyObject::Int(_) => AlloyType::Int,
            AlloyObject::Bool(_) => AlloyType::Bool,
        }
    }

    /// The value as an integer: `true` counts as one and `false` as zero.
    pub open spec fn integer(&self) -> i64 {
        match self {
            AlloyObject::Int(number) => number.value(),
            AlloyObject::Bool(boolean) => if boolean.value() {
                1
            } else {
                0
            },
        }
    }

    /// Whether the value counts as true: every integer but zero does.
    pub open spec fn truth(&self) -> bool {
        match self {
            AlloyObject::Int(number) => number.value() != 0,
            AlloyObject::Bool(boolean) => boolean.value(),
        }
    }

    /// The tag of the value.
    pub fn get_type(&self) -> (r: AlloyType)
        ensures
            r == self.tag(),
    {
        match self {
            AlloyObject::Int(_) => AlloyInt::get_type(),
            AlloyObject::Bool(_) => AlloyBool::get_type(),
        }
    }
}

/// A tagged value made from a plain one.
pub fn create<Obj, T>(value: T) -> (r: AlloyObject) where
    Obj: AlloyObj<T> + From<T>,
    AlloyObject: From<Obj>,

    ensures
        exists|made: Obj|
            call_ensures(Obj::from, (value,), made) && call_ensures(AlloyObject::from, (made,), r),
{
    let made = Obj::from(value);
    AlloyObject::from(made)
}

/// The value as an integer; see [`AlloyObject::integer`].
pub fn as_int(obj: &AlloyObject) -> (r: i64)
    ensures
        r == obj.integer(),
{
    match obj {
        AlloyObject::Int(number) => number.get(),
        AlloyObject::Bool(boolean) => {
            if boolean.get() {
                1
            } else {
                0
            }
        },
    }
}

/// Whether the value counts as true; see [`AlloyObject::truth`].
pub fn as_bool(obj: &AlloyObject) -> (r: bool)
    ensures
        r == obj.truth(),
{
    match obj {
        AlloyObject::Int(number) => number.get() != 0,
        AlloyObject::Bool(boolean) => boolean.get(),
    }
}

} // verus!
