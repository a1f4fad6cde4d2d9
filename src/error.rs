//! Why a declaration cannot be translated.
use vstd::prelude::*;

verus! {

/// Every error is fatal: translation stops and produces no output.
#[derive(PartialEq, Eq, Structural, Debug, Clone, Copy)]
pub enum ProtoError {
    /// A top-level declaration is neither a record nor a union.
    UnsupportedDeclarationKind,
    /// A record or union declares type parameters.
    UnsupportedGenericDeclaration,
    /// A field type is qualified, has several path segments, uses
    /// parenthesized arguments, or is not a path at all.
    UnsupportedFieldTypeShape,
    /// A container appears with the wrong number of type arguments.
    UnsupportedGenericArity,
    /// A container's element, key or value is itself a container.
    UnsupportedNestedContainer,
    /// A parameterized type other than `Vec`, `HashMap` and `Option`.
    UnsupportedGenericType,
}

} // verus!
