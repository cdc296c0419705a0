use vstd::prelude::*;

use crate::declaration::FunctionInput;

verus! {

/// The ways binding and flattening can fail.
#[derive(Debug, PartialEq, Eq)]
pub enum InputParserError {
    /// No assignment of the `main` section agrees with this formal input.
    InputNotFound(FunctionInput),
    /// An assignment's expression could not be evaluated against its declared type.
    ExpressionEvaluation(String),
    /// A public value could not be encoded in the target field.
    Conversion(String),
}

impl FunctionInput {
    /// An equal copy.
    pub fn duplicate(&self) -> (r: FunctionInput)
        ensures
            r == *self,
    {
        FunctionInput {
            identifier: self.identifier.clone(),
            declared_type: self.declared_type.clone(),
            private: self.private,
        }
    }
}

impl InputParserError {
    /// An equal copy.
    pub fn duplicate(&self) -> (r: InputParserError)
        ensures
            r == *self,
    {
        match self {
            InputParserError::InputNotFound(f) => InputParserError::InputNotFound(f.duplicate()),
            InputParserError::ExpressionEvaluation(s) => InputParserError::ExpressionEvaluation(s.clone()),
            InputParserError::Conversion(s) => InputParserError::Conversion(s.clone()),
        }
    }
}

} // verus!
