//! Booleans with their tag.

use vstd::prelude::*;
use vstd::std_specs::convert::{FromSpec, FromSpecImpl};

use crate::object::{AlloyObj, AlloyType};

verus! {

/// A boolean with its tag.
#[derive(Debug, PartialEq, Eq)]
pub struct AlloyBool {
    ty: AlloyType,
    value: bool,
}

impl AlloyBool {
    /// The name of the value.
    pub fn to_string(&self) -> (r: String)
        ensures
            r@ == (if self.value() {
                "AlloyTrue"@
            } else {
                "AlloyFalse"@
            }),
    {
        if self.value {
            String::from_str("AlloyTrue")
        } else {
            String::from_str("AlloyFalse")
        }
    }
}

impl AlloyObj<bool> for AlloyBool {
    closed spec fn value(&self) -> bool {
        self.value
    }

    open spec fn tag() -> AlloyType {
        AlloyType::Bool
    }

    closed spec fn tagged(&self) -> bool {
        self.ty == AlloyType::Bool
    }

    fn get(&self) -> (r: bool) {
        self.value
    }

    fn set(&mut self, value: bool) {
        self.value = value;
    }

    fn get_type() -> (r: AlloyType) {
        AlloyType::Bool
    }
}

impl From<bool> for AlloyBool {
    fn from(value: bool) -> (r: Self) {
        AlloyBool { ty: AlloyType::Bool, value }
    }
}

impl FromSpecImpl<bool> for AlloyBool {
    open spec fn obeys_from_spec() -> bool {
        true
    }

    closed spec fn from_spec(value: bool) -> Self {
        AlloyBool { ty: AlloyType::Bool, value }
    }
}

/// A boolean made from a truth value holds it, with the tag of booleans.
pub proof fn lemma_bool_from(value: bool)
    ensures
        <AlloyBool as FromSpec<bool>>::from_spec(value).value() == value,
        <AlloyBool as FromSpec<bool>>::from_spec(value).tagged(),
{
}

} // verus!
