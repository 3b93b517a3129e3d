//! Properties of successful resolution, proved once and for all documents:
//! structural validity of the stored trees (every identifier valid, every
//! spread index in range), the leaf invariant (no selection tree on a
//! scalar or enum), and the round-trip shape (the stored trees mirror the
//! source selection sets exactly, in order).

use vstd::prelude::*;

use crate::document::{Definition, Document, FragmentDefinition, OperationDefinition, Selection};
use crate::resolution::{
    collect_fragment_names_spec, find_name_from, frag_names, resolve_defs_spec,
    resolve_fragment_spec, resolve_item_spec, resolve_operation_spec, resolve_selection_spec,
    resolve_set_spec, resolve_spec, FragNode, OpNode, ResolveError, SelNode, StoreNode,
};
use crate::schema::{
    find_field_from, find_type_from, type_id_for, Schema, SchemaField, SchemaType, StoredFieldId,
    TypeId, TypeKind,
};

verus! {

// ---------------------------------------------------------------------------
// The properties, as predicates on resolved trees.
// ---------------------------------------------------------------------------

/// Structural validity of one resolved node: its field or type identifier
/// is valid for the schema, every spread index references one of the
/// store's `nfrags` fragments, and the same holds recursively.
pub open spec fn sel_node_wf(schema: Schema, nfrags: int, n: SelNode) -> bool
    decreases n,
{
    match n {
        SelNode::Field(fid, ch) => schema.valid_field_id(fid) && sel_nodes_wf(schema, nfrags, ch),
        SelNode::InlineFragment(t, ch) => schema.valid_type_id(t) && sel_nodes_wf(
            schema,
            nfrags,
            ch,
        ),
        SelNode::FragmentSpread(j) => 0 <= j < nfrags,
    }
}

/// Structural validity of every node of a resolved tree.
pub open spec fn sel_nodes_wf(schema: Schema, nfrags: int, ch: Seq<SelNode>) -> bool
    decreases ch,
{
    forall|i: int| 0 <= i < ch.len() ==> sel_node_wf(schema, nfrags, #[trigger] ch[i])
}

/// The leaf invariant of one resolved node: a selection tree attached to a
/// non-selectable type — a scalar or enum, or any other kind that cannot
/// carry a selection — is empty.
pub open spec fn leaf_node_ok(schema: Schema, n: SelNode) -> bool
    decreases n,
{
    match n {
        SelNode::Field(fid, ch) => (!schema.field_type_spec(fid).is_selectable() ==> ch.len()
            == 0) && leaf_nodes_ok(schema, ch),
        SelNode::InlineFragment(t, ch) => (!t.is_selectable() ==> ch.len() == 0) && leaf_nodes_ok(
            schema,
            ch,
        ),
        SelNode::FragmentSpread(_) => true,
    }
}

/// The leaf invariant of every node of a resolved tree.
pub open spec fn leaf_nodes_ok(schema: Schema, ch: Seq<SelNode>) -> bool
    decreases ch,
{
    forall|i: int| 0 <= i < ch.len() ==> leaf_node_ok(schema, #[trigger] ch[i])
}

/// One source selection item corresponds to one resolved node: the node has
/// the item's kind, every resolved identifier names exactly what the source
/// named, and the children correspond in order.
pub open spec fn corresponds(schema: Schema, names: Seq<String>, item: Selection, n: SelNode) -> bool
    decreases item,
{
    match item {
        Selection::Field { name, selection_set } => match n {
            SelNode::Field(fid, ch) => {
                &&& fid.type_index < schema.types@.len()
                &&& fid.field_index < schema.types@[fid.type_index as int].fields@.len()
                &&& schema.types@[fid.type_index as int].fields@[fid.field_index as int].name@
                    == name@
                &&& corresponds_seq(schema, names, selection_set@, ch)
            },
            _ => false,
        },
        Selection::InlineFragment { on, selection_set } => match n {
            SelNode::InlineFragment(t, ch) => {
                &&& schema.valid_type_id(t)
                &&& schema.types@[t.index_spec()].name@ == on@
                &&& corresponds_seq(schema, names, selection_set@, ch)
            },
            _ => false,
        },
        Selection::FragmentSpread { name } => match n {
            SelNode::FragmentSpread(j) => 0 <= j < names.len() && names[j]@ == name@,
            _ => false,
        },
    }
}

/// A source selection set corresponds to a resolved tree: exactly one node
/// per source item, in source order, nothing added and nothing dropped.
pub open spec fn corresponds_seq(
    schema: Schema,
    names: Seq<String>,
    items: Seq<Selection>,
    ns: Seq<SelNode>,
) -> bool
    decreases items,
{
    &&& ns.len() == items.len()
    &&& forall|i: int|
        0 <= i < items.len() ==> corresponds(schema, names, #[trigger] items[i], ns[i])
}

/// The operation definitions of a document, in document order.
pub open spec fn operations_of(defs: Seq<Definition>) -> Seq<OperationDefinition>
    decreases defs.len(),
{
    if defs.len() == 0 {
        Seq::empty()
    } else {
        let rest = operations_of(defs.drop_last());
        match defs.last() {
            Definition::Operation(o) => rest.push(o),
            Definition::Fragment(_) => rest,
        }
    }
}

/// The fragment definitions of a document, in document order.
pub open spec fn fragments_of(defs: Seq<Definition>) -> Seq<FragmentDefinition>
    decreases defs.len(),
{
    if defs.len() == 0 {
        Seq::empty()
    } else {
        let rest = fragments_of(defs.drop_last());
        match defs.last() {
            Definition::Fragment(f) => rest.push(f),
            Definition::Operation(_) => rest,
        }
    }
}

/// The names of a document's fragment definitions, in document order.
pub open spec fn fragment_names_of(defs: Seq<Definition>) -> Seq<String> {
    Seq::new(fragments_of(defs).len(), |i: int| fragments_of(defs)[i].name)
}

/// A resolved operation corresponds to its source definition: same name
/// (which resolution guarantees non-empty), same kind, variables recorded
/// verbatim, and a corresponding tree.
pub open spec fn op_corresponds(
    schema: Schema,
    names: Seq<String>,
    src: OperationDefinition,
    o: OpNode,
) -> bool {
    &&& src.name == Some(o.name)
    &&& o.name@.len() > 0
    &&& o.operation_type == src.operation_type
    &&& o.variables == src.variables@
    &&& corresponds_seq(schema, names, src.selection_set@, o.selection)
}

/// A resolved fragment corresponds to its source definition: same name, a
/// type condition resolved to the type it names, and a corresponding tree.
pub open spec fn frag_corresponds(
    schema: Schema,
    names: Seq<String>,
    src: FragmentDefinition,
    f: FragNode,
) -> bool {
    &&& f.name == src.name
    &&& schema.valid_type_id(f.on)
    &&& schema.types@[f.on.index_spec()].name@ == src.on@
    &&& corresponds_seq(schema, names, src.selection_set@, f.selection)
}

/// Structural validity of a whole store: every tree in every operation and
/// fragment is valid, and every fragment's type condition is valid.
pub open spec fn store_wf(schema: Schema, s: StoreNode) -> bool {
    &&& forall|i: int|
        0 <= i < s.operations.len() ==> sel_nodes_wf(
            schema,
            s.fragments.len() as int,
            (#[trigger] s.operations[i]).selection,
        )
    &&& forall|i: int|
        0 <= i < s.fragments.len() ==> sel_nodes_wf(
            schema,
            s.fragments.len() as int,
            (#[trigger] s.fragments[i]).selection,
        ) && schema.valid_type_id(s.fragments[i].on)
}

// ---------------------------------------------------------------------------
// Facts about the name scans.
// ---------------------------------------------------------------------------

/// What a successful type lookup means.
proof fn lemma_find_type_found(types: Seq<SchemaType>, name: Seq<char>, from: int, k: int)
    requires
        0 <= from,
        find_type_from(types, name, from) == Some(k),
    ensures
        from <= k < types.len(),
        types[k].name@ == name,
    decreases types.len() - from,
{
    if from < types.len() && types[from].name@ != name {
        lemma_find_type_found(types, name, from + 1, k);
    }
}

/// What a successful field lookup means.
proof fn lemma_find_field_found(fields: Seq<SchemaField>, name: Seq<char>, from: int, k: int)
    requires
        0 <= from,
        find_field_from(fields, name, from) == Some(k),
    ensures
        from <= k < fields.len(),
        fields[k].name@ == name,
    decreases fields.len() - from,
{
    if from < fields.len() && fields[from].name@ != name {
        lemma_find_field_found(fields, name, from + 1, k);
    }
}

/// What a successful fragment-name lookup means.
proof fn lemma_find_name_found(names: Seq<String>, name: Seq<char>, from: int, k: int)
    requires
        0 <= from,
        find_name_from(names, name, from) == Some(k),
    ensures
        from <= k < names.len(),
        names[k]@ == name,
    decreases names.len() - from,
{
    if from < names.len() && names[from]@ != name {
        lemma_find_name_found(names, name, from + 1, k);
    }
}

/// Name collection yields exactly the document's fragment names, in
/// document order.
proof fn lemma_collect_names(defs: Seq<Definition>)
    ensures
        collect_fragment_names_spec(defs) == fragment_names_of(defs),
    decreases defs.len(),
{
    if defs.len() == 0 {
        assert(collect_fragment_names_spec(defs) =~= fragment_names_of(defs));
    } else {
        lemma_collect_names(defs.drop_last());
        assert(collect_fragment_names_spec(defs) =~= fragment_names_of(defs));
    }
}

// ---------------------------------------------------------------------------
// Soundness of resolution, by induction over the selection structure.
// ---------------------------------------------------------------------------

proof fn lemma_item_resolution_sound(
    schema: Schema,
    ty: usize,
    item: Selection,
    names: Seq<String>,
    n: SelNode,
)
    requires
        schema.wf(),
        ty < schema.types@.len(),
        schema.types@[ty as int].kind == TypeKind::Object || schema.types@[ty as int].kind
            == TypeKind::Interface,
        resolve_item_spec(schema, ty, item, names) == Ok::<_, ResolveError>(n),
    ensures
        sel_node_wf(schema, names.len() as int, n),
        leaf_node_ok(schema, n),
        corresponds(schema, names, item, n),
    decreases item, 4int,
{
    match item {
        Selection::Field { name, selection_set } => {
            match find_field_from(schema.types@[ty as int].fields@, name@, 0) {
                None => {
                    assert(false);
                },
                Some(k) => {
                    lemma_find_field_found(schema.types@[ty as int].fields@, name@, 0, k);
                    assert(schema.types@[ty as int].fields.len() == schema.types@[
                        ty as int
                    ].fields@.len());
                    let fid = StoredFieldId { type_index: ty, field_index: k as usize };
                    assert(schema.valid_field_id(fid));
                    assert(schema.valid_type_id(schema.types@[ty as int].fields@[k].field_type));
                    match resolve_selection_spec(
                        schema,
                        schema.field_type_spec(fid),
                        selection_set@,
                        names,
                    ) {
                        Err(_) => {
                            assert(false);
                        },
                        Ok(ch) => {
                            lemma_selection_resolution_sound(
                                schema,
                                schema.field_type_spec(fid),
                                selection_set@,
                                names,
                                ch,
                            );
                        },
                    }
                },
            }
        },
        Selection::InlineFragment { on, selection_set } => {
            match schema.find_type_spec(on@) {
                None => {
                    assert(false);
                },
                Some(tid) => {
                    match find_type_from(schema.types@, on@, 0) {
                        None => {
                            assert(false);
                        },
                        Some(k) => {
                            lemma_find_type_found(schema.types@, on@, 0, k);
                            assert(schema.types.len() == schema.types@.len());
                            assert(tid == type_id_for(schema.types@[k].kind, k as usize));
                            assert(schema.valid_type_id(tid));
                            assert(tid.index_spec() == k);
                        },
                    }
                    match resolve_selection_spec(schema, tid, selection_set@, names) {
                        Err(_) => {
                            assert(false);
                        },
                        Ok(ch) => {
                            lemma_selection_resolution_sound(
                                schema,
                                tid,
                                selection_set@,
                                names,
                                ch,
                            );
                        },
                    }
                },
            }
        },
        Selection::FragmentSpread { name } => {
            match find_name_from(names, name@, 0) {
                None => {
                    assert(false);
                },
                Some(j) => {
                    lemma_find_name_found(names, name@, 0, j);
                },
            }
        },
    }
}

proof fn lemma_set_resolution_sound(
    schema: Schema,
    ty: usize,
    set: Seq<Selection>,
    names: Seq<String>,
    ns: Seq<SelNode>,
)
    requires
        schema.wf(),
        ty < schema.types@.len(),
        schema.types@[ty as int].kind == TypeKind::Object || schema.types@[ty as int].kind
            == TypeKind::Interface,
        resolve_set_spec(schema, ty, set, names) == Ok::<_, ResolveError>(ns),
    ensures
        sel_nodes_wf(schema, names.len() as int, ns),
        leaf_nodes_ok(schema, ns),
        corresponds_seq(schema, names, set, ns),
    decreases set, 3int,
{
    if set.len() == 0 {
    } else {
        match resolve_set_spec(schema, ty, set.drop_last(), names) {
            Err(_) => {
                assert(false);
            },
            Ok(prefix) => {
                lemma_set_resolution_sound(schema, ty, set.drop_last(), names, prefix);
                match resolve_item_spec(schema, ty, set.last(), names) {
                    Err(_) => {
                        assert(false);
                    },
                    Ok(n) => {
                        lemma_item_resolution_sound(schema, ty, set.last(), names, n);
                        assert(ns == prefix.push(n));
                        assert forall|i: int|
                            0 <= i < set.len() implies corresponds(
                            schema,
                            names,
                            #[trigger] set[i],
                            ns[i],
                        ) by {
                            if i < set.len() - 1 {
                                assert(set[i] == set.drop_last()[i]);
                                assert(ns[i] == prefix[i]);
                            } else {
                                assert(set[i] == set.last());
                                assert(ns[i] == n);
                            }
                        }
                    },
                }
            },
        }
    }
}

proof fn lemma_selection_resolution_sound(
    schema: Schema,
    on: TypeId,
    set: Seq<Selection>,
    names: Seq<String>,
    ns: Seq<SelNode>,
)
    requires
        schema.wf(),
        schema.valid_type_id(on),
        resolve_selection_spec(schema, on, set, names) == Ok::<_, ResolveError>(ns),
    ensures
        sel_nodes_wf(schema, names.len() as int, ns),
        leaf_nodes_ok(schema, ns),
        corresponds_seq(schema, names, set, ns),
        !on.is_selectable() ==> ns.len() == 0,
    decreases set, 5int,
{
    if on.is_selectable() {
        lemma_set_resolution_sound(schema, on.index_spec() as usize, set, names, ns);
    }
}

// ---------------------------------------------------------------------------
// Soundness at the definition and document level.
// ---------------------------------------------------------------------------

proof fn lemma_operation_resolution_sound(
    schema: Schema,
    operation: OperationDefinition,
    names: Seq<String>,
    o: OpNode,
)
    requires
        schema.wf(),
        resolve_operation_spec(schema, operation, names) == Ok::<_, ResolveError>(o),
    ensures
        sel_nodes_wf(schema, names.len() as int, o.selection),
        leaf_nodes_ok(schema, o.selection),
        op_corresponds(schema, names, operation, o),
{
    match operation.name {
        None => {
            assert(false);
        },
        Some(name) => {
            assert(name@.len() > 0);
            let root = if operation.operation_type is Query {
                schema.query_root
            } else {
                schema.mutation_root
            };
            match root {
                None => {
                    assert(false);
                },
                Some(r) => {
                    match resolve_set_spec(schema, r, operation.selection_set@, names) {
                        Err(_) => {
                            assert(false);
                        },
                        Ok(ns) => {
                            lemma_set_resolution_sound(
                                schema,
                                r,
                                operation.selection_set@,
                                names,
                                ns,
                            );
                        },
                    }
                },
            }
        },
    }
}

proof fn lemma_fragment_resolution_sound(
    schema: Schema,
    fragment: FragmentDefinition,
    names: Seq<String>,
    existing: Seq<String>,
    f: FragNode,
)
    requires
        schema.wf(),
        resolve_fragment_spec(schema, fragment, names, existing) == Ok::<_, ResolveError>(f),
    ensures
        sel_nodes_wf(schema, names.len() as int, f.selection),
        leaf_nodes_ok(schema, f.selection),
        frag_corresponds(schema, names, fragment, f),
{
    match schema.find_type_spec(fragment.on@) {
        None => {
            assert(false);
        },
        Some(tid) => {
            match find_type_from(schema.types@, fragment.on@, 0) {
                None => {
                    assert(false);
                },
                Some(k) => {
                    lemma_find_type_found(schema.types@, fragment.on@, 0, k);
                    assert(schema.types.len() == schema.types@.len());
                    assert(tid == type_id_for(schema.types@[k].kind, k as usize));
                    assert(schema.valid_type_id(tid));
                    assert(tid.index_spec() == k);
                },
            }
            match resolve_selection_spec(schema, tid, fragment.selection_set@, names) {
                Err(_) => {
                    assert(false);
                },
                Ok(ns) => {
                    lemma_selection_resolution_sound(
                        schema,
                        tid,
                        fragment.selection_set@,
                        names,
                        ns,
                    );
                },
            }
        },
    }
}

proof fn lemma_defs_resolution_sound(
    schema: Schema,
    defs: Seq<Definition>,
    names: Seq<String>,
    ops: Seq<OpNode>,
    frags: Seq<FragNode>,
)
    requires
        schema.wf(),
        resolve_defs_spec(schema, defs, names) == Ok::<_, ResolveError>((ops, frags)),
    ensures
        ops.len() == operations_of(defs).len(),
        frags.len() == fragments_of(defs).len(),
        forall|i: int|
            0 <= i < ops.len() ==> {
                &&& op_corresponds(schema, names, operations_of(defs)[i], #[trigger] ops[i])
                &&& sel_nodes_wf(schema, names.len() as int, ops[i].selection)
                &&& leaf_nodes_ok(schema, ops[i].selection)
            },
        forall|i: int|
            0 <= i < frags.len() ==> {
                &&& frag_corresponds(schema, names, fragments_of(defs)[i], #[trigger] frags[i])
                &&& sel_nodes_wf(schema, names.len() as int, frags[i].selection)
                &&& leaf_nodes_ok(schema, frags[i].selection)
            },
    decreases defs.len(),
{
    if defs.len() == 0 {
    } else {
        match resolve_defs_spec(schema, defs.drop_last(), names) {
            Err(_) => {
                assert(false);
            },
            Ok((ops0, frags0)) => {
                lemma_defs_resolution_sound(schema, defs.drop_last(), names, ops0, frags0);
                match defs.last() {
                    Definition::Operation(op) => {
                        match resolve_operation_spec(schema, op, names) {
                            Err(_) => {
                                assert(false);
                            },
                            Ok(o) => {
                                lemma_operation_resolution_sound(schema, op, names, o);
                                assert(ops == ops0.push(o));
                                assert(operations_of(defs) == operations_of(
                                    defs.drop_last(),
                                ).push(op));
                            },
                        }
                    },
                    Definition::Fragment(f) => {
                        match resolve_fragment_spec(schema, f, names, frag_names(frags0)) {
                            Err(_) => {
                                assert(false);
                            },
                            Ok(fr) => {
                                lemma_fragment_resolution_sound(
                                    schema,
                                    f,
                                    names,
                                    frag_names(frags0),
                                    fr,
                                );
                                assert(frags == frags0.push(fr));
                                assert(fragments_of(defs) == fragments_of(
                                    defs.drop_last(),
                                ).push(f));
                            },
                        }
                    },
                }
            },
        }
    }
}

// ---------------------------------------------------------------------------
// The public laws.
// ---------------------------------------------------------------------------

/// Round-trip shape: in a successfully resolved document, the stored
/// operations and fragments are the document's, in document order, and each
/// stored selection tree mirrors its source selection set exactly — one
/// node per source item, in source order, recursively, nothing added and
/// nothing dropped — with every identifier resolving precisely the name the
/// source wrote.
pub proof fn lemma_round_trip_shape(schema: Schema, query: Document, store: StoreNode)
    requires
        schema.wf(),
        resolve_spec(schema, query) == Ok::<_, ResolveError>(store),
    ensures
        store.operations.len() == operations_of(query.definitions@).len(),
        store.fragments.len() == fragments_of(query.definitions@).len(),
        forall|i: int|
            0 <= i < store.operations.len() ==> op_corresponds(
                schema,
                fragment_names_of(query.definitions@),
                operations_of(query.definitions@)[i],
                #[trigger] store.operations[i],
            ),
        forall|i: int|
            0 <= i < store.fragments.len() ==> frag_corresponds(
                schema,
                fragment_names_of(query.definitions@),
                fragments_of(query.definitions@)[i],
                #[trigger] store.fragments[i],
            ),
{
    lemma_collect_names(query.definitions@);
    let names = collect_fragment_names_spec(query.definitions@);
    match resolve_defs_spec(schema, query.definitions@, names) {
        Err(_) => {
            assert(false);
        },
        Ok((ops, frags)) => {
            lemma_defs_resolution_sound(schema, query.definitions@, names, ops, frags);
        },
    }
}

/// Leaf invariant: in a successfully resolved document, every selection
/// tree attached to a non-selectable type — a scalar or an enum, or any
/// other kind that cannot carry a selection — is empty.
pub proof fn lemma_leaf_invariant(schema: Schema, query: Document, store: StoreNode)
    requires
        schema.wf(),
        resolve_spec(schema, query) == Ok::<_, ResolveError>(store),
    ensures
        forall|i: int|
            0 <= i < store.operations.len() ==> leaf_nodes_ok(
                schema,
                (#[trigger] store.operations[i]).selection,
            ),
        forall|i: int|
            0 <= i < store.fragments.len() ==> leaf_nodes_ok(
                schema,
                (#[trigger] store.fragments[i]).selection,
            ),
{
    let names = collect_fragment_names_spec(query.definitions@);
    match resolve_defs_spec(schema, query.definitions@, names) {
        Err(_) => {
            assert(false);
        },
        Ok((ops, frags)) => {
            lemma_defs_resolution_sound(schema, query.definitions@, names, ops, frags);
        },
    }
}

/// Spread resolvability: in a successfully resolved document, every
/// `FragmentSpread` node in any stored selection tree indexes an existing
/// entry of the store's fragment sequence, and every stored identifier is
/// valid for the schema.
pub proof fn lemma_spread_resolvability(schema: Schema, query: Document, store: StoreNode)
    requires
        schema.wf(),
        resolve_spec(schema, query) == Ok::<_, ResolveError>(store),
    ensures
        store_wf(schema, store),
{
    lemma_collect_names(query.definitions@);
    let names = collect_fragment_names_spec(query.definitions@);
    match resolve_defs_spec(schema, query.definitions@, names) {
        Err(_) => {
            assert(false);
        },
        Ok((ops, frags)) => {
            lemma_defs_resolution_sound(schema, query.definitions@, names, ops, frags);
            assert(names.len() == frags.len());
        },
    }
}

} // verus!
