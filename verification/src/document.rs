//! The parsed, semantically untyped query document: operations and
//! fragments that refer to fields and types only by name. A document is
//! produced by a parser outside this library and is only read here.

use vstd::prelude::*;

verus! {

/// The kind of an operation.
#[derive(Clone, Copy, PartialEq, Eq, Structural, Debug)]
pub enum OperationType {
    Query,
    Mutation,
    Subscription,
}

/// One item of a selection set, referring to fields and types by name.
pub enum Selection {
    /// A field selection, optionally carrying its own nested selection set.
    Field { name: String, selection_set: Vec<Selection> },
    /// An inline fragment narrowing to the type named by its condition.
    InlineFragment { on: String, selection_set: Vec<Selection> },
    /// A spread of a separately defined fragment, by name.
    FragmentSpread { name: String },
}

/// One declared operation variable, recorded verbatim: name, optional
/// default-value literal (as source text), and the declared input type's
/// source text. Default values are not resolved in this phase.
#[derive(Debug, PartialEq, Eq)]
pub struct VariableDefinition {
    pub name: String,
    pub default: Option<String>,
    pub var_type: String,
}

/// One operation definition. Anonymous operations carry `None` as their
/// name and are rejected by resolution.
pub struct OperationDefinition {
    pub name: Option<String>,
    pub operation_type: OperationType,
    pub variables: Vec<VariableDefinition>,
    pub selection_set: Vec<Selection>,
}

/// One fragment definition: a name, a type condition, and a selection set.
pub struct FragmentDefinition {
    pub name: String,
    pub on: String,
    pub selection_set: Vec<Selection>,
}

/// One document definition, in document order.
pub enum Definition {
    Operation(OperationDefinition),
    Fragment(FragmentDefinition),
}

/// A parsed document: an ordered sequence of definitions.
pub struct Document {
    pub definitions: Vec<Definition>,
}

} // verus!
