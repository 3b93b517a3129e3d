//! Resolution of a parsed document against a schema: every name reference
//! becomes a stable schema identifier, and the result is stored as
//! ID-interned selection trees in a `ResolvedQuery`.
//!
//! Fragment spreads are validated at resolution time: the names of all
//! fragment definitions are collected, in document order, before any
//! selection set is resolved, so a spread may name a fragment defined later
//! in the document, and every stored spread carries the index of an
//! existing fragment entry rather than a name. A duplicate fragment name is
//! rejected by the fragment resolver itself, when the second definition of
//! that name is resolved, so the first error of a document comes in
//! document order.

use vstd::prelude::*;

use crate::document::{
    Definition, Document, FragmentDefinition, OperationDefinition, OperationType, Selection,
    VariableDefinition,
};
use crate::schema::{find_field_from, Schema, StoredFieldId, TypeId};

verus! {

/// A resolution-time, user-facing error. The first error encountered aborts
/// resolution of the whole document.
#[derive(Debug, PartialEq, Eq)]
pub enum ResolveError {
    /// A selection references a field not declared on the target type:
    /// `(type name, field name)`.
    UnknownField(String, String),
    /// A type condition or root type name cannot be found in the schema.
    UnknownType(String),
    /// A non-empty selection set was given for a type that cannot carry one
    /// (a scalar, enum, union or input object), naming the offending type.
    SelectionOnLeafType(String),
    /// Two fragment definitions share a name.
    DuplicateFragment(String),
    /// A spread references a fragment absent from the whole document.
    UnknownFragment(String),
    /// An operation has no name; downstream consumers name emitted
    /// artifacts after the operation, so anonymous operations are rejected.
    AnonymousOperationUnsupported,
    /// The schema declares no root type for the requested operation kind.
    NoRootType(OperationType),
    /// A recognized but unsupported construct, with a short description.
    UnsupportedConstruct(&'static str),
}

/// One node of a stored, ID-interned selection tree. Children are in source
/// selection-set order.
#[derive(Debug, PartialEq, Eq)]
pub enum IdSelection {
    /// A field selection: the field's stable identifier and the selection
    /// tree resolved against the field's declared type.
    Field(StoredFieldId, Vec<IdSelection>),
    /// A type-narrowing inline fragment and the selection tree resolved
    /// against the narrowed type.
    InlineFragment(TypeId, Vec<IdSelection>),
    /// A fragment spread, by validated index into the store's fragment
    /// sequence.
    FragmentSpread(usize),
}

/// A resolved fragment definition: its name, the schema type it is
/// conditioned on, and its selection tree.
#[derive(Debug, PartialEq, Eq)]
pub struct ResolvedFragment {
    pub name: String,
    pub on: TypeId,
    pub selection: Vec<IdSelection>,
}

/// A resolved operation definition. Variable declarations are recorded
/// verbatim; default-value literals are not resolved in this phase.
#[derive(Debug, PartialEq, Eq)]
pub struct ResolvedOperation {
    pub name: String,
    pub operation_type: OperationType,
    pub variables: Vec<VariableDefinition>,
    pub selection: Vec<IdSelection>,
}

impl ResolvedOperation {
    /// The operation's name.
    pub fn name(&self) -> (r: &String)
        ensures
            *r == self.name,
    {
        &self.name
    }
}

/// The result of resolving one document: resolved operations and fragments,
/// each sequence in document order and referenced elsewhere by position.
#[derive(Debug, PartialEq, Eq)]
pub struct ResolvedQuery {
    pub operations: Vec<ResolvedOperation>,
    pub fragments: Vec<ResolvedFragment>,
}

impl Default for ResolvedQuery {
    /// An empty store.
    fn default() -> (r: Self)
        ensures
            r.operations@.len() == 0,
            r.fragments@.len() == 0,
    {
        ResolvedQuery { operations: Vec::new(), fragments: Vec::new() }
    }
}

// ---------------------------------------------------------------------------
// Mathematical model of the stored IR.
// ---------------------------------------------------------------------------

/// The mathematical model of one stored selection-tree node.
pub enum SelNode {
    Field(StoredFieldId, Seq<SelNode>),
    InlineFragment(TypeId, Seq<SelNode>),
    FragmentSpread(int),
}

/// The mathematical model of a resolved fragment.
pub struct FragNode {
    pub name: String,
    pub on: TypeId,
    pub selection: Seq<SelNode>,
}

/// The mathematical model of a resolved operation.
pub struct OpNode {
    pub name: String,
    pub operation_type: OperationType,
    pub variables: Seq<VariableDefinition>,
    pub selection: Seq<SelNode>,
}

/// The mathematical model of a whole store.
pub struct StoreNode {
    pub operations: Seq<OpNode>,
    pub fragments: Seq<FragNode>,
}

/// The model of one stored node.
pub open spec fn sel_view(s: IdSelection) -> SelNode
    decreases s,
{
    match s {
        IdSelection::Field(f, ch) => SelNode::Field(f, sels_view(ch@)),
        IdSelection::InlineFragment(t, ch) => SelNode::InlineFragment(t, sels_view(ch@)),
        IdSelection::FragmentSpread(j) => SelNode::FragmentSpread(j as int),
    }
}

/// The model of a stored selection tree, in order.
pub open spec fn sels_view(q: Seq<IdSelection>) -> Seq<SelNode>
    decreases q,
{
    if q.len() == 0 {
        Seq::empty()
    } else {
        sels_view(q.drop_last()).push(sel_view(q.last()))
    }
}

/// The model of a resolved operation.
pub open spec fn op_view(o: ResolvedOperation) -> OpNode {
    OpNode {
        name: o.name,
        operation_type: o.operation_type,
        variables: o.variables@,
        selection: sels_view(o.selection@),
    }
}

/// The model of a resolved fragment.
pub open spec fn frag_view(f: ResolvedFragment) -> FragNode {
    FragNode { name: f.name, on: f.on, selection: sels_view(f.selection@) }
}

/// The model of a whole store.
pub open spec fn store_view(q: ResolvedQuery) -> StoreNode {
    StoreNode {
        operations: Seq::new(q.operations@.len(), |i: int| op_view(q.operations@[i])),
        fragments: Seq::new(q.fragments@.len(), |i: int| frag_view(q.fragments@[i])),
    }
}

/// `sels_view` maps the sequence pointwise.
pub proof fn lemma_sels_view_index(q: Seq<IdSelection>)
    ensures
        sels_view(q).len() == q.len(),
        forall|i: int| 0 <= i < q.len() ==> sels_view(q)[i] == sel_view(q[i]),
    decreases q,
{
    if q.len() > 0 {
        lemma_sels_view_index(q.drop_last());
    }
}

// ---------------------------------------------------------------------------
// The specification of resolution.
// ---------------------------------------------------------------------------

/// The index of the first string in `names` equal to `name`, scanning from
/// `from`.
pub open spec fn find_name_from(names: Seq<String>, name: Seq<char>, from: int) -> Option<int>
    decreases names.len() - from,
{
    if from < 0 || from >= names.len() {
        None
    } else if names[from]@ == name {
        Some(from)
    } else {
        find_name_from(names, name, from + 1)
    }
}

/// Whether some string in `names` equals `name`.
pub open spec fn contains_name(names: Seq<String>, name: Seq<char>) -> bool {
    exists|i: int| 0 <= i < names.len() && names[i]@ == name
}

/// The names of all fragment definitions, in document order. Duplicates are
/// kept here; they are rejected when the offending definition itself is
/// resolved, so the first error of a document comes in document order.
pub open spec fn collect_fragment_names_spec(defs: Seq<Definition>) -> Seq<String>
    decreases defs.len(),
{
    if defs.len() == 0 {
        Seq::empty()
    } else {
        let names = collect_fragment_names_spec(defs.drop_last());
        match defs.last() {
            Definition::Fragment(f) => names.push(f.name),
            Definition::Operation(_) => names,
        }
    }
}

/// The names of a sequence of resolved fragments, in order.
pub open spec fn frag_names(frags: Seq<FragNode>) -> Seq<String> {
    Seq::new(frags.len(), |i: int| frags[i].name)
}

/// What resolving one selection set against the type `on` returns: the
/// ordered selection tree, or the first error in source order.
pub open spec fn resolve_selection_spec(
    schema: Schema,
    on: TypeId,
    set: Seq<Selection>,
    names: Seq<String>,
) -> Result<Seq<SelNode>, ResolveError>
    decreases set, 1int,
{
    if on.is_selectable() {
        resolve_set_spec(schema, on.index_spec() as usize, set, names)
    } else if set.len() == 0 {
        Ok(Seq::empty())
    } else {
        Err(ResolveError::SelectionOnLeafType(schema.types@[on.index_spec()].name))
    }
}

/// What resolving the items of one selection set against the object or
/// interface type at index `ty` returns.
pub open spec fn resolve_set_spec(
    schema: Schema,
    ty: usize,
    set: Seq<Selection>,
    names: Seq<String>,
) -> Result<Seq<SelNode>, ResolveError>
    decreases set, 0int,
{
    if set.len() == 0 {
        Ok(Seq::empty())
    } else {
        match resolve_set_spec(schema, ty, set.drop_last(), names) {
            Err(e) => Err(e),
            Ok(nodes) => match resolve_item_spec(schema, ty, set.last(), names) {
                Err(e) => Err(e),
                Ok(node) => Ok(nodes.push(node)),
            },
        }
    }
}

/// What resolving one selection item against the object or interface type
/// at index `ty` returns.
pub open spec fn resolve_item_spec(
    schema: Schema,
    ty: usize,
    item: Selection,
    names: Seq<String>,
) -> Result<SelNode, ResolveError>
    decreases item, 2int,
{
    match item {
        Selection::Field { name, selection_set } => {
            match find_field_from(schema.types@[ty as int].fields@, name@, 0) {
                None => Err(ResolveError::UnknownField(schema.types@[ty as int].name, name)),
                Some(k) => {
                    let fid = StoredFieldId { type_index: ty, field_index: k as usize };
                    match resolve_selection_spec(
                        schema,
                        schema.field_type_spec(fid),
                        selection_set@,
                        names,
                    ) {
                        Err(e) => Err(e),
                        Ok(children) => Ok(SelNode::Field(fid, children)),
                    }
                },
            }
        },
        Selection::InlineFragment { on, selection_set } => resolve_inline_spec(
            schema,
            on,
            selection_set@,
            names,
        ),
        Selection::FragmentSpread { name } => {
            match find_name_from(names, name@, 0) {
                None => Err(ResolveError::UnknownFragment(name)),
                Some(j) => Ok(SelNode::FragmentSpread(j)),
            }
        },
    }
}

/// What resolving one fragment definition returns. `existing` holds the
/// names of the fragments already stored: fragment names must be unique
/// within a document, so a name among them is rejected.
pub open spec fn resolve_fragment_spec(
    schema: Schema,
    fragment: FragmentDefinition,
    names: Seq<String>,
    existing: Seq<String>,
) -> Result<FragNode, ResolveError> {
    if contains_name(existing, fragment.name@) {
        Err(ResolveError::DuplicateFragment(fragment.name))
    } else {
        match schema.find_type_spec(fragment.on@) {
            None => Err(ResolveError::UnknownType(fragment.on)),
            Some(tid) => match resolve_selection_spec(
                schema,
                tid,
                fragment.selection_set@,
                names,
            ) {
                Err(e) => Err(e),
                Ok(selection) => Ok(FragNode { name: fragment.name, on: tid, selection }),
            },
        }
    }
}

/// What resolving one operation definition returns. Operations without a
/// name — missing or empty — and subscriptions are rejected; queries and mutations resolve against
/// the schema's corresponding root type.
pub open spec fn resolve_operation_spec(
    schema: Schema,
    operation: OperationDefinition,
    names: Seq<String>,
) -> Result<OpNode, ResolveError> {
    match operation.name {
        None => Err(ResolveError::AnonymousOperationUnsupported),
        Some(name) => if name@.len() == 0 {
            Err(ResolveError::AnonymousOperationUnsupported)
        } else {
            match operation.operation_type {
            OperationType::Subscription => Err(
                ResolveError::UnsupportedConstruct("subscription operations"),
            ),
            _ => {
                let root = if operation.operation_type is Query {
                    schema.query_root
                } else {
                    schema.mutation_root
                };
                match root {
                    None => Err(ResolveError::NoRootType(operation.operation_type)),
                    Some(r) => match resolve_set_spec(
                        schema,
                        r,
                        operation.selection_set@,
                        names,
                    ) {
                        Err(e) => Err(e),
                        Ok(selection) => Ok(
                            OpNode {
                                name,
                                operation_type: operation.operation_type,
                                variables: operation.variables@,
                                selection,
                            },
                        ),
                    },
                }
            },
            }
        },
    }
}

/// What resolving a sequence of definitions returns: the resolved
/// operations and fragments, each in document order, or the first error.
pub open spec fn resolve_defs_spec(
    schema: Schema,
    defs: Seq<Definition>,
    names: Seq<String>,
) -> Result<(Seq<OpNode>, Seq<FragNode>), ResolveError>
    decreases defs.len(),
{
    if defs.len() == 0 {
        Ok((Seq::empty(), Seq::empty()))
    } else {
        match resolve_defs_spec(schema, defs.drop_last(), names) {
            Err(e) => Err(e),
            Ok((ops, frags)) => match defs.last() {
                Definition::Operation(op) => match resolve_operation_spec(schema, op, names) {
                    Err(e) => Err(e),
                    Ok(o) => Ok((ops.push(o), frags)),
                },
                Definition::Fragment(f) => match resolve_fragment_spec(
                    schema,
                    f,
                    names,
                    frag_names(frags),
                ) {
                    Err(e) => Err(e),
                    Ok(fr) => Ok((ops, frags.push(fr))),
                },
            },
        }
    }
}

/// What resolving a whole document returns.
pub open spec fn resolve_spec(schema: Schema, query: Document) -> Result<
    StoreNode,
    ResolveError,
> {
    match resolve_defs_spec(
        schema,
        query.definitions@,
        collect_fragment_names_spec(query.definitions@),
    ) {
        Err(e) => Err(e),
        Ok((ops, frags)) => Ok(StoreNode { operations: ops, fragments: frags }),
    }
}

// ---------------------------------------------------------------------------
// Error propagation: the first error of a prefix is the error of the whole.
// ---------------------------------------------------------------------------

/// An error while resolving the first `k` items settles the whole set.
proof fn lemma_set_error_persists(
    schema: Schema,
    ty: usize,
    set: Seq<Selection>,
    names: Seq<String>,
    k: int,
)
    requires
        0 <= k <= set.len(),
        resolve_set_spec(schema, ty, set.take(k), names) is Err,
    ensures
        resolve_set_spec(schema, ty, set, names) == resolve_set_spec(schema, ty, set.take(k), names),
    decreases set.len() - k,
{
    if k == set.len() {
        assert(set.take(k) =~= set);
    } else {
        assert(set.take(k + 1).drop_last() =~= set.take(k));
        assert(set.take(k + 1).len() == k + 1);
        lemma_set_error_persists(schema, ty, set, names, k + 1);
    }
}

/// An error while resolving the first `k` definitions settles the whole
/// document.
proof fn lemma_defs_error_persists(
    schema: Schema,
    defs: Seq<Definition>,
    names: Seq<String>,
    k: int,
)
    requires
        0 <= k <= defs.len(),
        resolve_defs_spec(schema, defs.take(k), names) is Err,
    ensures
        resolve_defs_spec(schema, defs, names) == resolve_defs_spec(schema, defs.take(k), names),
    decreases defs.len() - k,
{
    if k == defs.len() {
        assert(defs.take(k) =~= defs);
    } else {
        assert(defs.take(k + 1).drop_last() =~= defs.take(k));
        assert(defs.take(k + 1).len() == k + 1);
        lemma_defs_error_persists(schema, defs, names, k + 1);
    }
}

// ---------------------------------------------------------------------------
// Executable resolution.
// ---------------------------------------------------------------------------

/// The index of the first string in `names` equal to `name`.
fn position_of_name(names: &Vec<String>, name: &String) -> (r: Option<usize>)
    ensures
        match r {
            Some(j) => find_name_from(names@, name@, 0) == Some(j as int),
            None => find_name_from(names@, name@, 0) is None,
        },
{
    let n = names.len();
    let mut i: usize = 0;
    while i < n
        invariant
            n == names@.len(),
            i <= n,
            find_name_from(names@, name@, 0) == find_name_from(names@, name@, i as int),
        decreases n - i,
    {
        if names[i] == *name {
            return Some(i);
        }
        i += 1;
    }
    None
}

/// Collects the names of all fragment definitions, in document order. This
/// runs before any selection set is resolved, so spreads are validated
/// against the final fragment sequence.
fn collect_fragment_names(query: &Document) -> (r: Vec<String>)
    ensures
        r@ == collect_fragment_names_spec(query.definitions@),
{
    let ghost defs = query.definitions@;
    let n = query.definitions.len();
    let mut names: Vec<String> = Vec::new();
    let mut i: usize = 0;
    while i < n
        invariant
            n == defs.len(),
            i <= n,
            defs == query.definitions@,
            names@ == collect_fragment_names_spec(defs.take(i as int)),
        decreases n - i,
    {
        proof {
            assert(defs.take(i + 1).drop_last() =~= defs.take(i as int));
            assert(defs.take(i + 1).last() == defs[i as int]);
        }
        match &query.definitions[i] {
            Definition::Fragment(f) => {
                names.push(f.name.clone());
            },
            Definition::Operation(_) => {},
        }
        i += 1;
    }
    proof {
        assert(defs.take(n as int) =~= defs);
    }
    names
}

/// The result, at the model level, of resolving one inline fragment.
pub open spec fn resolve_inline_spec(
    schema: Schema,
    on: String,
    set: Seq<Selection>,
    names: Seq<String>,
) -> Result<SelNode, ResolveError>
    decreases set, 3int,
{
    match schema.find_type_spec(on@) {
        None => Err(ResolveError::UnknownType(on)),
        Some(tid) => match resolve_selection_spec(schema, tid, set, names) {
            Err(e) => Err(e),
            Ok(children) => Ok(SelNode::InlineFragment(tid, children)),
        },
    }
}

/// Resolves one selection set against the target type `on`, dispatching on
/// the type's kind: object and interface types accept field selections and
/// narrowing constructs alike; any other kind must carry an empty set.
pub fn resolve_selection(
    schema: &Schema,
    on: TypeId,
    selection_set: &Vec<Selection>,
    names: &Vec<String>,
) -> (r: Result<Vec<IdSelection>, ResolveError>)
    requires
        schema.wf(),
        schema.valid_type_id(on),
    ensures
        match r {
            Ok(v) => resolve_selection_spec(*schema, on, selection_set@, names@) == Ok::<
                _,
                ResolveError,
            >(sels_view(v@)),
            Err(e) => resolve_selection_spec(*schema, on, selection_set@, names@) == Err::<
                Seq<SelNode>,
                _,
            >(e),
        },
    decreases selection_set@, 1int,
{
    if on.selectable() {
        resolve_object_selection(schema, on.index(), selection_set, names)
    } else if selection_set.len() == 0 {
        let v: Vec<IdSelection> = Vec::new();
        assert(sels_view(v@) =~= Seq::<SelNode>::empty());
        Ok(v)
    } else {
        Err(ResolveError::SelectionOnLeafType(schema.types[on.index()].name.clone()))
    }
}

/// Resolves the items of one selection set against the object or interface
/// type at index `type_index`, in source order, failing fast on the first
/// error. Field lookup considers the fields declared on that type, which
/// for an interface are the interface-level fields.
pub fn resolve_object_selection(
    schema: &Schema,
    type_index: usize,
    selection_set: &Vec<Selection>,
    names: &Vec<String>,
) -> (r: Result<Vec<IdSelection>, ResolveError>)
    requires
        schema.wf(),
        type_index < schema.types@.len(),
    ensures
        match r {
            Ok(v) => resolve_set_spec(*schema, type_index, selection_set@, names@) == Ok::<
                _,
                ResolveError,
            >(sels_view(v@)),
            Err(e) => resolve_set_spec(*schema, type_index, selection_set@, names@) == Err::<
                Seq<SelNode>,
                _,
            >(e),
        },
    decreases selection_set@, 0int,
{
    let ghost set = selection_set@;
    let n = selection_set.len();
    let mut acc: Vec<IdSelection> = Vec::new();
    assert(sels_view(acc@) =~= Seq::<SelNode>::empty());
    let mut i: usize = 0;
    while i < n
        invariant
            schema.wf(),
            type_index < schema.types@.len(),
            n == set.len(),
            i <= n,
            set == selection_set@,
            resolve_set_spec(*schema, type_index, set.take(i as int), names@) == Ok::<
                _,
                ResolveError,
            >(sels_view(acc@)),
        decreases n - i,
    {
        proof {
            assert(set.take(i + 1).drop_last() =~= set.take(i as int));
            assert(set.take(i + 1).last() == set[i as int]);
            assert(decreases_to!(set => set[i as int]));
        }
        let item = &selection_set[i];
        let node: IdSelection = match item {
            Selection::Field { name, selection_set: sub } => {
                match schema.field_by_name(type_index, name) {
                    None => {
                        let e = ResolveError::UnknownField(
                            schema.types[type_index].name.clone(),
                            name.clone(),
                        );
                        proof {
                            lemma_set_error_persists(*schema, type_index, set, names@, i + 1);
                        }
                        return Err(e);
                    },
                    Some(k) => {
                        let fid = StoredFieldId { type_index, field_index: k };
                        let field_type = schema.types[type_index].fields[k].field_type;
                        assert(schema.valid_type_id(field_type));
                        proof {
                            assert(decreases_to!(set[i as int] => sub@));
                        }
                        match resolve_selection(schema, field_type, sub, names) {
                            Err(e) => {
                                proof {
                                    lemma_set_error_persists(
                                        *schema,
                                        type_index,
                                        set,
                                        names@,
                                        i + 1,
                                    );
                                }
                                return Err(e);
                            },
                            Ok(children) => IdSelection::Field(fid, children),
                        }
                    },
                }
            },
            Selection::InlineFragment { on, selection_set: sub } => {
                proof {
                    assert(decreases_to!(set[i as int] => sub@));
                }
                match resolve_inline_fragment(schema, on, sub, names) {
                    Err(e) => {
                        proof {
                            lemma_set_error_persists(*schema, type_index, set, names@, i + 1);
                        }
                        return Err(e);
                    },
                    Ok(node) => node,
                }
            },
            Selection::FragmentSpread { name } => {
                match position_of_name(names, name) {
                    None => {
                        proof {
                            lemma_set_error_persists(*schema, type_index, set, names@, i + 1);
                        }
                        return Err(ResolveError::UnknownFragment(name.clone()));
                    },
                    Some(j) => IdSelection::FragmentSpread(j),
                }
            },
        };
        proof {
            assert(resolve_item_spec(*schema, type_index, set[i as int], names@) == Ok::<
                _,
                ResolveError,
            >(sel_view(node)));
        }
        let ghost acc_before = acc@;
        acc.push(node);
        proof {
            assert(acc@.drop_last() =~= acc_before);
        }
        i += 1;
    }
    proof {
        assert(set.take(n as int) =~= set);
    }
    Ok(acc)
}

/// Resolves one inline fragment: its type condition is looked up in the
/// schema and its selection set is resolved against the named type.
pub fn resolve_inline_fragment(
    schema: &Schema,
    on: &String,
    selection_set: &Vec<Selection>,
    names: &Vec<String>,
) -> (r: Result<IdSelection, ResolveError>)
    requires
        schema.wf(),
    ensures
        match r {
            Ok(node) => resolve_inline_spec(*schema, *on, selection_set@, names@) == Ok::<
                _,
                ResolveError,
            >(sel_view(node)),
            Err(e) => resolve_inline_spec(*schema, *on, selection_set@, names@) == Err::<
                SelNode,
                _,
            >(e),
        },
    decreases selection_set@, 2int,
{
    let tid = match schema.find_type(on) {
        Some(t) => t,
        None => {
            return Err(ResolveError::UnknownType(on.clone()));
        },
    };
    match resolve_selection(schema, tid, selection_set, names) {
        Err(e) => Err(e),
        Ok(children) => Ok(IdSelection::InlineFragment(tid, children)),
    }
}

/// Copies variable declarations verbatim.
fn copy_variables(variables: &Vec<VariableDefinition>) -> (r: Vec<VariableDefinition>)
    ensures
        r@ == variables@,
{
    let n = variables.len();
    let mut out: Vec<VariableDefinition> = Vec::new();
    let mut i: usize = 0;
    while i < n
        invariant
            n == variables@.len(),
            i <= n,
            out@ =~= variables@.take(i as int),
        decreases n - i,
    {
        let v = &variables[i];
        let default = match &v.default {
            Some(d) => Some(d.clone()),
            None => None,
        };
        out.push(
            VariableDefinition {
                name: v.name.clone(),
                default,
                var_type: v.var_type.clone(),
            },
        );
        proof {
            assert(out@ =~= variables@.take(i + 1));
        }
        i += 1;
    }
    proof {
        assert(variables@.take(n as int) =~= variables@);
    }
    out
}

/// Whether the store already holds a fragment named `name`.
fn fragment_name_exists(query: &ResolvedQuery, name: &String) -> (r: bool)
    ensures
        r == contains_name(frag_names(store_view(*query).fragments), name@),
{
    let ghost stored = frag_names(store_view(*query).fragments);
    proof {
        assert(stored.len() == query.fragments@.len());
        assert(forall|k: int| 0 <= k < stored.len() ==> stored[k] == query.fragments@[k].name);
    }
    let n = query.fragments.len();
    let mut i: usize = 0;
    while i < n
        invariant
            n == query.fragments@.len(),
            i <= n,
            stored == frag_names(store_view(*query).fragments),
            stored.len() == n,
            forall|k: int| 0 <= k < n ==> stored[k] == query.fragments@[k].name,
            forall|j: int| 0 <= j < i ==> stored[j]@ != name@,
        decreases n - i,
    {
        if query.fragments[i].name == *name {
            proof {
                assert(stored[i as int]@ == name@);
            }
            return true;
        }
        i += 1;
    }
    false
}

/// Resolves one fragment definition — a name already stored is rejected as
/// a duplicate, the type condition is looked up in the schema, the
/// selection set is resolved against that type — and appends the result to
/// the store's fragment sequence. On an error the store is left unchanged.
pub fn resolve_fragment(
    query: &mut ResolvedQuery,
    schema: &Schema,
    fragment: &FragmentDefinition,
    names: &Vec<String>,
) -> (r: Result<(), ResolveError>)
    requires
        schema.wf(),
    ensures
        match r {
            Ok(_) => {
                &&& final(query).operations == old(query).operations
                &&& final(query).fragments@.len() == old(query).fragments@.len() + 1
                &&& final(query).fragments@.drop_last() == old(query).fragments@
                &&& resolve_fragment_spec(
                    *schema,
                    *fragment,
                    names@,
                    frag_names(store_view(*old(query)).fragments),
                ) == Ok::<_, ResolveError>(frag_view(final(query).fragments@.last()))
            },
            Err(e) => {
                &&& *final(query) == *old(query)
                &&& resolve_fragment_spec(
                    *schema,
                    *fragment,
                    names@,
                    frag_names(store_view(*old(query)).fragments),
                ) == Err::<FragNode, _>(e)
            },
        },
{
    if fragment_name_exists(query, &fragment.name) {
        return Err(ResolveError::DuplicateFragment(fragment.name.clone()));
    }
    let on = match schema.find_type(&fragment.on) {
        Some(t) => t,
        None => {
            return Err(ResolveError::UnknownType(fragment.on.clone()));
        },
    };
    let selection = match resolve_selection(schema, on, &fragment.selection_set, names) {
        Ok(s) => s,
        Err(e) => {
            return Err(e);
        },
    };
    let resolved_fragment = ResolvedFragment { name: fragment.name.clone(), on, selection };
    let ghost before = query.fragments@;
    query.fragments.push(resolved_fragment);
    proof {
        assert(query.fragments@.drop_last() =~= before);
    }
    Ok(())
}

/// Resolves one operation definition against the schema's root type for
/// its kind and appends the result to the store's operation sequence.
/// Operations without a name — missing or empty — and subscriptions are
/// rejected; variable declarations are recorded verbatim. On an error the
/// store is left unchanged.
pub fn resolve_operation(
    query: &mut ResolvedQuery,
    schema: &Schema,
    operation: &OperationDefinition,
    names: &Vec<String>,
) -> (r: Result<(), ResolveError>)
    requires
        schema.wf(),
    ensures
        match r {
            Ok(_) => {
                &&& final(query).fragments == old(query).fragments
                &&& final(query).operations@.len() == old(query).operations@.len() + 1
                &&& final(query).operations@.drop_last() == old(query).operations@
                &&& resolve_operation_spec(*schema, *operation, names@) == Ok::<_, ResolveError>(
                    op_view(final(query).operations@.last()),
                )
            },
            Err(e) => {
                &&& *final(query) == *old(query)
                &&& resolve_operation_spec(*schema, *operation, names@) == Err::<OpNode, _>(e)
            },
        },
{
    let name = match &operation.name {
        Some(n) => n.clone(),
        None => {
            return Err(ResolveError::AnonymousOperationUnsupported);
        },
    };
    if name.as_str().is_empty() {
        return Err(ResolveError::AnonymousOperationUnsupported);
    }
    let root = match operation.operation_type {
        OperationType::Query => schema.query_root,
        OperationType::Mutation => schema.mutation_root,
        OperationType::Subscription => {
            return Err(ResolveError::UnsupportedConstruct("subscription operations"));
        },
    };
    let root_index = match root {
        Some(x) => x,
        None => {
            return Err(ResolveError::NoRootType(operation.operation_type));
        },
    };
    let selection = match resolve_object_selection(
        schema,
        root_index,
        &operation.selection_set,
        names,
    ) {
        Ok(s) => s,
        Err(e) => {
            return Err(e);
        },
    };
    let resolved_operation = ResolvedOperation {
        name,
        operation_type: operation.operation_type,
        variables: copy_variables(&operation.variables),
        selection,
    };
    let ghost before = query.operations@;
    query.operations.push(resolved_operation);
    proof {
        assert(query.operations@.drop_last() =~= before);
    }
    Ok(())
}

/// Resolves a whole document: fragment names are collected first (so a
/// spread may reference a fragment defined later in the document), then
/// each definition is resolved in document order, failing fast on the
/// first error in document order. On success the returned store's model is
/// exactly `resolve_spec`; on failure the returned error is the one
/// `resolve_spec` gives.
pub fn resolve(schema: &Schema, query: &Document) -> (r: Result<ResolvedQuery, ResolveError>)
    requires
        schema.wf(),
    ensures
        match r {
            Ok(store) => resolve_spec(*schema, *query) == Ok::<_, ResolveError>(
                store_view(store),
            ),
            Err(e) => resolve_spec(*schema, *query) == Err::<StoreNode, _>(e),
        },
{
    let names = collect_fragment_names(query);
    let ghost defs = query.definitions@;
    let n = query.definitions.len();
    let mut resolved: ResolvedQuery = Default::default();
    proof {
        assert(store_view(resolved).operations =~= Seq::<OpNode>::empty());
        assert(store_view(resolved).fragments =~= Seq::<FragNode>::empty());
    }
    let mut i: usize = 0;
    while i < n
        invariant
            schema.wf(),
            n == defs.len(),
            i <= n,
            defs == query.definitions@,
            names@ == collect_fragment_names_spec(defs),
            resolve_defs_spec(*schema, defs.take(i as int), names@) == Ok::<_, ResolveError>(
                (store_view(resolved).operations, store_view(resolved).fragments),
            ),
        decreases n - i,
    {
        proof {
            assert(defs.take(i + 1).drop_last() =~= defs.take(i as int));
            assert(defs.take(i + 1).last() == defs[i as int]);
        }
        let ghost ops_before = store_view(resolved).operations;
        let ghost frags_before = store_view(resolved).fragments;
        match &query.definitions[i] {
            Definition::Fragment(fragment) => {
                match resolve_fragment(&mut resolved, schema, fragment, &names) {
                    Ok(_) => {
                        proof {
                            lemma_sels_view_index(Seq::<IdSelection>::empty());
                            assert(store_view(resolved).operations =~= ops_before);
                            assert(store_view(resolved).fragments =~= frags_before.push(
                                frag_view(resolved.fragments@.last()),
                            ));
                        }
                    },
                    Err(e) => {
                        proof {
                            lemma_defs_error_persists(*schema, defs, names@, i + 1);
                        }
                        return Err(e);
                    },
                }
            },
            Definition::Operation(operation) => {
                match resolve_operation(&mut resolved, schema, operation, &names) {
                    Ok(_) => {
                        proof {
                            assert(store_view(resolved).fragments =~= frags_before);
                            assert(store_view(resolved).operations =~= ops_before.push(
                                op_view(resolved.operations@.last()),
                            ));
                        }
                    },
                    Err(e) => {
                        proof {
                            lemma_defs_error_persists(*schema, defs, names@, i + 1);
                        }
                        return Err(e);
                    },
                }
            },
        }
        i += 1;
    }
    proof {
        assert(defs.take(n as int) =~= defs);
    }
    Ok(resolved)
}

} // verus!
