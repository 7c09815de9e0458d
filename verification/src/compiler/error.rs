//! Why a compilation fails.

use vstd::prelude::*;

use crate::compiler::model::Fault;
use crate::text::push_str;

verus! {

/// The failures a compilation can end in.
#[derive(Debug, PartialEq, Eq)]
pub enum CompilerError {
    VariableLimitReached,
    Redefinition(String),
    UndefinedIdentifier(String),
    AssignmentToConst,
    InstructionLimitReached,
    BreakOutsideLoop,
    ContinueOutsideLoop,
}

pub type CompilerResult<T> = Result<T, CompilerError>;

impl View for CompilerError {
    type V = Fault;

    open spec fn view(&self) -> Fault {
        match *self {
            CompilerError::VariableLimitReached => Fault::VariableLimitReached,
            CompilerError::Redefinition(name) => Fault::Redefinition(name@),
            CompilerError::UndefinedIdentifier(name) => Fault::UndefinedIdentifier(name@),
            CompilerError::AssignmentToConst => Fault::AssignmentToConst,
            CompilerError::InstructionLimitReached => Fault::InstructionLimitReached,
            CompilerError::BreakOutsideLoop => Fault::BreakOutsideLoop,
            CompilerError::ContinueOutsideLoop => Fault::ContinueOutsideLoop,
        }
    }
}

/// The failure a result stands for, if it is one.
pub open spec fn fault_of<T>(result: Result<T, CompilerError>) -> Option<Fault> {
    match result {
        Ok(_) => None,
        Err(error) => Some(error@),
    }
}

impl Fault {
    /// The message shown to the user.
    pub open spec fn message(self) -> Seq<char> {
        match self {
            Fault::VariableLimitReached => "variable limit reached"@,
            Fault::Redefinition(name) => "identifier `"@ + name + "` has already been declared"@,
            Fault::UndefinedIdentifier(name) => "`"@ + name + "` has not been defined"@,
            Fault::AssignmentToConst => "assignment to const variable"@,
            Fault::InstructionLimitReached => "instruction limit has been reached"@,
            Fault::BreakOutsideLoop => "illegal break statement"@,
            Fault::ContinueOutsideLoop => "illegal continue statement"@,
        }
    }
}

impl CompilerError {
    /// The message shown to the user.
    pub fn to_string(&self) -> (r: String)
        ensures
            r@ == self@.message(),
    {
        match self {
            CompilerError::VariableLimitReached => String::from_str("variable limit reached"),
            CompilerError::Redefinition(name) => {
                let mut out = String::from_str("identifier `");
                push_str(&mut out, name.as_str());
                push_str(&mut out, "` has already been declared");
                out
            },
            CompilerError::UndefinedIdentifier(name) => {
                let mut out = String::from_str("`");
                push_str(&mut out, name.as_str());
                push_str(&mut out, "` has not been defined");
                out
            },
            CompilerError::AssignmentToConst => String::from_str("assignment to const variable"),
            CompilerError::InstructionLimitReached => String::from_str(
                "instruction limit has been reached",
            ),
            CompilerError::BreakOutsideLoop => String::from_str("illegal break statement"),
            CompilerError::ContinueOutsideLoop => String::from_str("illegal continue statement"),
        }
    }
}

} // verus!
