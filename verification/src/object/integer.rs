//! Integers with their tag.

use vstd::prelude::*;
use vstd::std_specs::convert::{FromSpec, FromSpecImpl};

use crate::object::{AlloyObj, AlloyType};

verus! {

/// An integer with its tag.
#[derive(Debug, PartialEq, Eq)]
pub struct AlloyInt {
    ty: AlloyType,
    value: i64,
}

impl Default for AlloyInt {
    /// Zero.
    fn default() -> (r: Self)
        ensures
            r.value() == 0,
            r.tagged(),
    {
        AlloyInt { ty: AlloyType::Int, value: 0 }
    }
}

impl AlloyInt {
    /// Zero.
    pub fn new() -> (r: Self)
        ensures
            r.value() == 0,
            r.tagged(),
    {
        AlloyInt { ty: AlloyType::Int, value: 0 }
    }
}

impl From<i64> for AlloyInt {
    fn from(value: i64) -> (r: Self) {
        AlloyInt { ty: AlloyType::Int, value }
    }
}

impl FromSpecImpl<i64> for AlloyInt {
    open spec fn obeys_from_spec() -> bool {
        true
    }

    closed spec fn from_spec(value: i64) -> Self {
        AlloyInt { ty: AlloyType::Int, value }
    }
}

/// An integer made from a number holds the number, with the tag of
/// integers.
pub proof fn lemma_int_from(value: i64)
    ensures
        <AlloyInt as FromSpec<i64>>::from_spec(value).value() == value,
        <AlloyInt as FromSpec<i64>>::from_spec(value).tagged(),
{
}

impl AlloyObj<i64> for AlloyInt {
    closed spec fn value(&self) -> i64 {
        self.value
    }

    open spec fn tag() -> AlloyType {
        AlloyType::Int
    }

    closed spec fn tagged(&self) -> bool {
        self.ty == AlloyType::Int
    }

    fn get_type() -> (r: AlloyType) {
        AlloyType::Int
    }

    fn get(&self) -> (r: i64) {
        self.value
    }

    fn set(&mut self, value: i64) {
        self.value = value;
    }
}

} // verus!
