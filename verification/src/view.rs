//! The view layer: borrowed, read-only handles over a stored operation or
//! fragment that re-hydrate the ID-interned selection trees into navigable
//! trees carrying schema metadata, plus the used-type collector that
//! computes the set of schema types an operation touches.

use vstd::prelude::*;

use crate::laws::{sel_node_wf, sel_nodes_wf, store_wf};
use crate::resolution::{
    lemma_sels_view_index, sel_view, sels_view, store_view, FragNode, IdSelection,
    ResolvedFragment, ResolvedOperation, ResolvedQuery, SelNode, StoreNode,
};
use crate::schema::{Schema, StoredFieldId, TypeId};

verus! {

// ---------------------------------------------------------------------------
// Re-hydrated selection trees.
// ---------------------------------------------------------------------------

/// One node of a re-hydrated selection tree: every stored identifier is
/// paired with the schema metadata a consumer navigates by. Purely derived
/// data, constructed on demand; never stored.
#[derive(Debug, PartialEq, Eq)]
pub enum SelectionRef {
    /// A field selection: its stable identifier, its declared type, and its
    /// re-hydrated children.
    Field { field: StoredFieldId, field_type: TypeId, children: Vec<SelectionRef> },
    /// An inline fragment: the narrowing type and the re-hydrated children.
    InlineFragment { on: TypeId, children: Vec<SelectionRef> },
    /// A fragment spread: the index of the referenced fragment entry, from
    /// which a `Fragment` handle can be built.
    FragmentSpread { fragment: usize },
}

/// The mathematical model of one re-hydrated node.
pub enum RefNode {
    Field(StoredFieldId, TypeId, Seq<RefNode>),
    InlineFragment(TypeId, Seq<RefNode>),
    FragmentSpread(int),
}

/// The model of one re-hydrated node.
pub open spec fn selref_view(s: SelectionRef) -> RefNode
    decreases s,
{
    match s {
        SelectionRef::Field { field, field_type, children } => RefNode::Field(
            field,
            field_type,
            selrefs_view(children@),
        ),
        SelectionRef::InlineFragment { on, children } => RefNode::InlineFragment(
            on,
            selrefs_view(children@),
        ),
        SelectionRef::FragmentSpread { fragment } => RefNode::FragmentSpread(fragment as int),
    }
}

/// The model of a re-hydrated tree, in order.
pub open spec fn selrefs_view(q: Seq<SelectionRef>) -> Seq<RefNode>
    decreases q,
{
    if q.len() == 0 {
        Seq::empty()
    } else {
        selrefs_view(q.drop_last()).push(selref_view(q.last()))
    }
}

/// `selrefs_view` maps the sequence pointwise.
pub proof fn lemma_selrefs_view_index(q: Seq<SelectionRef>)
    ensures
        selrefs_view(q).len() == q.len(),
        forall|i: int| 0 <= i < q.len() ==> selrefs_view(q)[i] == selref_view(q[i]),
    decreases q,
{
    if q.len() > 0 {
        lemma_selrefs_view_index(q.drop_last());
    }
}

/// What re-hydrating one stored node against the schema yields.
pub open spec fn upgrade_spec(schema: Schema, n: SelNode) -> RefNode
    decreases n,
{
    match n {
        SelNode::Field(fid, ch) => RefNode::Field(
            fid,
            schema.field_type_spec(fid),
            upgrade_seq_spec(schema, ch),
        ),
        SelNode::InlineFragment(t, ch) => RefNode::InlineFragment(
            t,
            upgrade_seq_spec(schema, ch),
        ),
        SelNode::FragmentSpread(j) => RefNode::FragmentSpread(j),
    }
}

/// What re-hydrating a stored tree yields, in order.
pub open spec fn upgrade_seq_spec(schema: Schema, ch: Seq<SelNode>) -> Seq<RefNode>
    decreases ch,
{
    if ch.len() == 0 {
        Seq::empty()
    } else {
        upgrade_seq_spec(schema, ch.drop_last()).push(upgrade_spec(schema, ch.last()))
    }
}

/// `upgrade_seq_spec` maps the sequence pointwise.
pub proof fn lemma_upgrade_seq_index(schema: Schema, ch: Seq<SelNode>)
    ensures
        upgrade_seq_spec(schema, ch).len() == ch.len(),
        forall|i: int|
            0 <= i < ch.len() ==> upgrade_seq_spec(schema, ch)[i] == upgrade_spec(
                schema,
                ch[i],
            ),
    decreases ch,
{
    if ch.len() > 0 {
        lemma_upgrade_seq_index(schema, ch.drop_last());
    }
}

/// The view of one stored operation: its selection tree, re-hydrated.
pub open spec fn op_view_spec(schema: Schema, s: StoreNode, i: int) -> Seq<RefNode> {
    upgrade_seq_spec(schema, s.operations[i].selection)
}

/// The view of one stored fragment: its selection tree, re-hydrated.
pub open spec fn fragment_view_spec(schema: Schema, s: StoreNode, i: int) -> Seq<RefNode> {
    upgrade_seq_spec(schema, s.fragments[i].selection)
}

/// Identifier validity of one stored node, as re-hydration needs it.
pub open spec fn node_ids_ok(schema: Schema, n: SelNode) -> bool
    decreases n,
{
    match n {
        SelNode::Field(fid, ch) => schema.valid_field_id(fid) && nodes_ids_ok(schema, ch),
        SelNode::InlineFragment(t, ch) => schema.valid_type_id(t) && nodes_ids_ok(schema, ch),
        SelNode::FragmentSpread(_) => true,
    }
}

/// Identifier validity of every node of a stored tree.
pub open spec fn nodes_ids_ok(schema: Schema, ch: Seq<SelNode>) -> bool
    decreases ch,
{
    forall|i: int| 0 <= i < ch.len() ==> node_ids_ok(schema, #[trigger] ch[i])
}

/// Structural validity implies the identifier validity re-hydration needs.
pub proof fn lemma_wf_implies_ids_ok(schema: Schema, nfrags: int, n: SelNode)
    requires
        sel_node_wf(schema, nfrags, n),
    ensures
        node_ids_ok(schema, n),
    decreases n,
{
    match n {
        SelNode::Field(_, ch) => {
            assert forall|i: int| 0 <= i < ch.len() implies node_ids_ok(
                schema,
                #[trigger] ch[i],
            ) by {
                lemma_wf_implies_ids_ok(schema, nfrags, ch[i]);
            }
        },
        SelNode::InlineFragment(_, ch) => {
            assert forall|i: int| 0 <= i < ch.len() implies node_ids_ok(
                schema,
                #[trigger] ch[i],
            ) by {
                lemma_wf_implies_ids_ok(schema, nfrags, ch[i]);
            }
        },
        SelNode::FragmentSpread(_) => {},
    }
}

impl IdSelection {
    /// Re-hydrates this stored node against the schema: the field's declared
    /// type is attached, children are upgraded in order, and a spread keeps
    /// its validated fragment index. Purely derivational; deterministic in
    /// its inputs.
    pub fn upgrade(&self, schema: &Schema) -> (r: SelectionRef)
        requires
            schema.wf(),
            node_ids_ok(*schema, sel_view(*self)),
        ensures
            selref_view(r) == upgrade_spec(*schema, sel_view(*self)),
        decreases *self, 1int,
    {
        match self {
            IdSelection::Field(fid, children) => {
                let field_type = schema.types[fid.type_index].fields[fid.field_index].field_type;
                let up = upgrade_children(self, children, schema);
                SelectionRef::Field { field: *fid, field_type, children: up }
            },
            IdSelection::InlineFragment(t, children) => {
                let up = upgrade_children(self, children, schema);
                SelectionRef::InlineFragment { on: *t, children: up }
            },
            IdSelection::FragmentSpread(j) => SelectionRef::FragmentSpread { fragment: *j },
        }
    }
}

/// Upgrades the children of `parent` (a field or inline-fragment node), in
/// order.
fn upgrade_children(parent: &IdSelection, children: &Vec<IdSelection>, schema: &Schema) -> (r:
    Vec<SelectionRef>)
    requires
        schema.wf(),
        nodes_ids_ok(*schema, sels_view(children@)),
        decreases_to!(*parent => children@),
    ensures
        selrefs_view(r@) == upgrade_seq_spec(*schema, sels_view(children@)),
    decreases *parent, 0int,
{
    let ghost target = sels_view(children@);
    proof {
        lemma_sels_view_index(children@);
        lemma_upgrade_seq_index(*schema, target);
    }
    let n = children.len();
    let mut out: Vec<SelectionRef> = Vec::new();
    proof {
        lemma_selrefs_view_index(out@);
        assert(selrefs_view(out@) =~= upgrade_seq_spec(*schema, target).take(0));
    }
    let mut i: usize = 0;
    while i < n
        invariant
            schema.wf(),
            n == children@.len(),
            i <= n,
            target == sels_view(children@),
            target.len() == n,
            nodes_ids_ok(*schema, target),
            forall|k: int| 0 <= k < n ==> target[k] == sel_view(children@[k]),
            decreases_to!(*parent => children@),
            selrefs_view(out@) == upgrade_seq_spec(*schema, target).take(i as int),
        decreases n - i,
    {
        proof {
            assert(node_ids_ok(*schema, target[i as int]));
            assert(decreases_to!(children@ => children@[i as int]));
        }
        let node = children[i].upgrade(schema);
        let ghost out_before = out@;
        out.push(node);
        proof {
            lemma_upgrade_seq_index(*schema, target);
            assert(out@.drop_last() =~= out_before);
            assert(selrefs_view(out@) =~= upgrade_seq_spec(*schema, target).take(i + 1));
        }
        i += 1;
    }
    proof {
        assert(upgrade_seq_spec(*schema, target).take(n as int) =~= upgrade_seq_spec(
            *schema,
            target,
        ));
    }
    out
}

// ---------------------------------------------------------------------------
// Borrowed handles over stored entries.
// ---------------------------------------------------------------------------

/// A borrowed, read-only handle over one stored operation. Constructed on
/// demand; valid only as long as the schema and store it borrows.
pub struct Operation<'a> {
    pub operation_id: usize,
    pub schema: &'a Schema,
    pub query: &'a ResolvedQuery,
}

/// A borrowed, read-only handle over one stored fragment.
pub struct Fragment<'a> {
    pub fragment_id: usize,
    pub schema: &'a Schema,
    pub query: &'a ResolvedQuery,
}

impl<'a> Operation<'a> {
    /// A handle is well formed when it indexes an existing operation of a
    /// structurally valid store.
    pub open spec fn wf(self) -> bool {
        &&& self.schema.wf()
        &&& store_wf(*self.schema, store_view(*self.query))
        &&& self.operation_id < self.query.operations@.len()
    }

    /// The stored operation this handle denotes.
    pub fn get(&self) -> (r: &'a ResolvedOperation)
        requires
            self.wf(),
        ensures
            *r == self.query.operations@[self.operation_id as int],
    {
        &self.query.operations[self.operation_id]
    }

    /// The operation's name.
    pub fn name(&self) -> (r: &'a String)
        requires
            self.wf(),
        ensures
            *r == self.query.operations@[self.operation_id as int].name,
    {
        &self.get().name
    }

    /// The operation's re-hydrated selection tree, in stored (= source)
    /// order. Constructing it never mutates the store or schema, and two
    /// constructions yield structurally identical trees.
    pub fn selection(&self) -> (r: Vec<SelectionRef>)
        requires
            self.wf(),
        ensures
            selrefs_view(r@) == op_view_spec(
                *self.schema,
                store_view(*self.query),
                self.operation_id as int,
            ),
    {
        let op = self.get();
        proof {
            assert(store_view(*self.query).operations[self.operation_id as int] == crate::resolution::op_view(
                self.query.operations@[self.operation_id as int],
            ));
        }
        upgrade_tree(self.schema, self.query, &op.selection)
    }
}

impl<'a> Fragment<'a> {
    /// A handle is well formed when it indexes an existing fragment of a
    /// structurally valid store.
    pub open spec fn wf(self) -> bool {
        &&& self.schema.wf()
        &&& store_wf(*self.schema, store_view(*self.query))
        &&& self.fragment_id < self.query.fragments@.len()
    }

    /// The stored fragment this handle denotes.
    pub fn get(&self) -> (r: &'a ResolvedFragment)
        requires
            self.wf(),
        ensures
            *r == self.query.fragments@[self.fragment_id as int],
    {
        &self.query.fragments[self.fragment_id]
    }

    /// The fragment's re-hydrated selection tree, in stored (= source)
    /// order.
    pub fn selection(&self) -> (r: Vec<SelectionRef>)
        requires
            self.wf(),
        ensures
            selrefs_view(r@) == fragment_view_spec(
                *self.schema,
                store_view(*self.query),
                self.fragment_id as int,
            ),
    {
        let fragment = self.get();
        proof {
            assert(store_view(*self.query).fragments[self.fragment_id as int]
                == crate::resolution::frag_view(self.query.fragments@[self.fragment_id as int]));
        }
        upgrade_tree(self.schema, self.query, &fragment.selection)
    }
}

/// Upgrades one stored selection tree whose nodes are all structurally
/// valid for the store.
fn upgrade_tree(schema: &Schema, query: &ResolvedQuery, selection: &Vec<IdSelection>) -> (r: Vec<
    SelectionRef,
>)
    requires
        schema.wf(),
        sel_nodes_wf(
            *schema,
            store_view(*query).fragments.len() as int,
            sels_view(selection@),
        ),
    ensures
        selrefs_view(r@) == upgrade_seq_spec(*schema, sels_view(selection@)),
{
    let ghost target = sels_view(selection@);
    proof {
        lemma_sels_view_index(selection@);
        lemma_upgrade_seq_index(*schema, target);
        assert forall|i: int| 0 <= i < target.len() implies node_ids_ok(
            *schema,
            #[trigger] target[i],
        ) by {
            lemma_wf_implies_ids_ok(
                *schema,
                store_view(*query).fragments.len() as int,
                target[i],
            );
        }
    }
    let n = selection.len();
    let mut out: Vec<SelectionRef> = Vec::new();
    proof {
        assert(selrefs_view(out@) =~= upgrade_seq_spec(*schema, target).take(0));
    }
    let mut i: usize = 0;
    while i < n
        invariant
            schema.wf(),
            n == selection@.len(),
            i <= n,
            target == sels_view(selection@),
            target.len() == n,
            forall|k: int| 0 <= k < n ==> target[k] == sel_view(selection@[k]),
            forall|k: int| 0 <= k < n ==> node_ids_ok(*schema, #[trigger] target[k]),
            selrefs_view(out@) == upgrade_seq_spec(*schema, target).take(i as int),
        decreases n - i,
    {
        proof {
            assert(node_ids_ok(*schema, target[i as int]));
        }
        let node = selection[i].upgrade(schema);
        let ghost out_before = out@;
        out.push(node);
        proof {
            lemma_upgrade_seq_index(*schema, target);
            assert(out@.drop_last() =~= out_before);
            assert(selrefs_view(out@) =~= upgrade_seq_spec(*schema, target).take(i + 1));
        }
        i += 1;
    }
    proof {
        assert(upgrade_seq_spec(*schema, target).take(n as int) =~= upgrade_seq_spec(
            *schema,
            target,
        ));
    }
    out
}

// ---------------------------------------------------------------------------
// The used-type collector.
// ---------------------------------------------------------------------------

/// The number of marked entries of a visit map.
pub open spec fn nmarked(s: Seq<bool>) -> nat
    decreases s.len(),
{
    if s.len() == 0 {
        0
    } else {
        nmarked(s.drop_last()) + if s.last() {
            1nat
        } else {
            0nat
        }
    }
}

proof fn lemma_nmarked_le(s: Seq<bool>)
    ensures
        nmarked(s) <= s.len(),
    decreases s.len(),
{
    if s.len() > 0 {
        lemma_nmarked_le(s.drop_last());
    }
}

proof fn lemma_nmarked_update(s: Seq<bool>, j: int)
    requires
        0 <= j < s.len(),
        !s[j],
    ensures
        nmarked(s.update(j, true)) == nmarked(s) + 1,
    decreases s.len(),
{
    if j == s.len() - 1 {
        assert(s.update(j, true).drop_last() =~= s.drop_last());
        assert(s.update(j, true).last() == true);
    } else {
        assert(s.update(j, true).drop_last() =~= s.drop_last().update(j, true));
        assert(s.update(j, true).last() == s.last());
        lemma_nmarked_update(s.drop_last(), j);
    }
}

/// The set of schema types one resolved node uses: every field's declared
/// type and every inline fragment's narrowing type, followed through
/// fragment spreads into the referenced fragment's tree. `seen` marks the
/// fragments already being followed, so the walk is well defined even when
/// fragments spread each other cyclically.
pub open spec fn used_in_node(
    schema: Schema,
    frags: Seq<FragNode>,
    n: SelNode,
    seen: Seq<bool>,
) -> Set<TypeId>
    decreases seen.len() - nmarked(seen), n, 0int,
        via used_in_node_decreases
{
    match n {
        SelNode::Field(fid, ch) => used_in_nodes(schema, frags, ch, seen).insert(
            schema.field_type_spec(fid),
        ),
        SelNode::InlineFragment(t, ch) => used_in_nodes(schema, frags, ch, seen).insert(t),
        SelNode::FragmentSpread(j) => if 0 <= j < frags.len() && j < seen.len() && !seen[j] {
            used_in_nodes(schema, frags, frags[j].selection, seen.update(j, true))
        } else {
            Set::empty()
        },
    }
}

#[via_fn]
proof fn used_in_node_decreases(schema: Schema, frags: Seq<FragNode>, n: SelNode, seen: Seq<bool>) {
    lemma_nmarked_le(seen);
    match n {
        SelNode::FragmentSpread(j) => {
            if 0 <= j < frags.len() && j < seen.len() && !seen[j] {
                lemma_nmarked_update(seen, j);
                lemma_nmarked_le(seen.update(j, true));
            }
        },
        _ => {},
    }
}

/// The set of schema types a resolved tree uses.
pub open spec fn used_in_nodes(
    schema: Schema,
    frags: Seq<FragNode>,
    ch: Seq<SelNode>,
    seen: Seq<bool>,
) -> Set<TypeId>
    decreases seen.len() - nmarked(seen), ch, 1int,
        via used_in_nodes_decreases
{
    if ch.len() == 0 {
        Set::empty()
    } else {
        used_in_nodes(schema, frags, ch.drop_last(), seen).union(
            used_in_node(schema, frags, ch.last(), seen),
        )
    }
}

#[via_fn]
proof fn used_in_nodes_decreases(
    schema: Schema,
    frags: Seq<FragNode>,
    ch: Seq<SelNode>,
    seen: Seq<bool>,
) {
    lemma_nmarked_le(seen);
}

/// The set of schema types one stored operation uses, starting with no
/// fragment marked.
pub open spec fn operation_used_types(schema: Schema, s: StoreNode, i: int) -> Set<TypeId> {
    used_in_nodes(
        schema,
        s.fragments,
        s.operations[i].selection,
        Seq::new(s.fragments.len(), |k: int| false),
    )
}

/// A copy of the visit map with entry `j` marked.
fn mark_visited(visited: &Vec<bool>, j: usize) -> (r: Vec<bool>)
    requires
        j < visited@.len(),
    ensures
        r@ == visited@.update(j as int, true),
{
    let n = visited.len();
    let mut out: Vec<bool> = Vec::new();
    let mut i: usize = 0;
    while i < n
        invariant
            i <= n,
            n == visited@.len(),
            j < n,
            out@.len() == i,
            forall|k: int|
                0 <= k < i ==> out@[k] == (if k == j {
                    true
                } else {
                    visited@[k]
                }),
        decreases n - i,
    {
        if i == j {
            out.push(true);
        } else {
            out.push(visited[i]);
        }
        i += 1;
    }
    proof {
        assert(out@ =~= visited@.update(j as int, true));
    }
    out
}

/// Adds a type to the accumulated set, keeping the accumulator free of
/// duplicates.
fn insert_type(acc: &mut Vec<TypeId>, t: TypeId)
    requires
        old(acc)@.no_duplicates(),
    ensures
        final(acc)@.no_duplicates(),
        final(acc)@.to_set() == old(acc)@.to_set().insert(t),
{
    let n = acc.len();
    let mut i: usize = 0;
    while i < n
        invariant
            *acc == *old(acc),
            old(acc)@.no_duplicates(),
            n == acc@.len(),
            i <= n,
            forall|k: int| 0 <= k < i ==> acc@[k] != t,
        decreases n - i,
    {
        if acc[i] == t {
            proof {
                assert(acc@[i as int] == t);
                assert(acc@.contains(t));
                assert(acc@.to_set() =~= acc@.to_set().insert(t));
            }
            return ;
        }
        i += 1;
    }
    let ghost before = acc@;
    acc.push(t);
    proof {
        assert(acc@.drop_last() =~= before);
        assert(acc@.last() == t);
        assert forall|p: int, q: int|
            0 <= p < acc@.len() && 0 <= q < acc@.len() && p != q implies acc@[p] != acc@[q] by {
            if p < before.len() && q < before.len() {
                assert(before[p] == acc@[p] && before[q] == acc@[q]);
            }
        }
        assert(acc@.no_duplicates());
        assert forall|x: TypeId| acc@.to_set().contains(x) implies before.to_set().insert(
            t,
        ).contains(x) by {
            let w = choose|w: int| 0 <= w < acc@.len() && acc@[w] == x;
            if w < before.len() {
                assert(before[w] == x);
            }
        }
        assert forall|x: TypeId| before.to_set().insert(t).contains(x) implies acc@.to_set()
            .contains(x) by {
            if x == t {
                assert(acc@[acc@.len() - 1] == x);
            } else {
                let w = choose|w: int| 0 <= w < before.len() && before[w] == x;
                assert(acc@[w] == x);
            }
        }
        assert(acc@.to_set() =~= before.to_set().insert(t));
    }
}

/// Walks one stored node depth-first, accumulating every used type: the
/// node's own declared or narrowing type and, through an unvisited spread,
/// the referenced fragment's whole tree. Siblings share one visit map, as
/// the specification does.
fn collect_used_types(
    schema: &Schema,
    query: &ResolvedQuery,
    node: &IdSelection,
    visited: &Vec<bool>,
    acc: &mut Vec<TypeId>,
)
    requires
        schema.wf(),
        store_wf(*schema, store_view(*query)),
        sel_node_wf(*schema, store_view(*query).fragments.len() as int, sel_view(*node)),
        visited@.len() == store_view(*query).fragments.len(),
        old(acc)@.no_duplicates(),
    ensures
        final(acc)@.no_duplicates(),
        final(acc)@.to_set() == old(acc)@.to_set().union(
            used_in_node(*schema, store_view(*query).fragments, sel_view(*node), visited@),
        ),
    decreases visited@.len() - nmarked(visited@), *node, 1int,
{
    let ghost frags = store_view(*query).fragments;
    match node {
        IdSelection::Field(fid, children) => {
            let field_type = schema.types[fid.type_index].fields[fid.field_index].field_type;
            insert_type(acc, field_type);
            collect_from_children(schema, query, node, children, visited, acc);
            proof {
                assert(acc@.to_set() =~= old(acc)@.to_set().union(
                    used_in_node(*schema, frags, sel_view(*node), visited@),
                ));
            }
        },
        IdSelection::InlineFragment(t, children) => {
            insert_type(acc, *t);
            collect_from_children(schema, query, node, children, visited, acc);
            proof {
                assert(acc@.to_set() =~= old(acc)@.to_set().union(
                    used_in_node(*schema, frags, sel_view(*node), visited@),
                ));
            }
        },
        IdSelection::FragmentSpread(j) => {
            if !visited[*j] {
                let marked = mark_visited(visited, *j);
                proof {
                    lemma_nmarked_update(visited@, *j as int);
                    lemma_nmarked_le(marked@);
                }
                let fragment = &query.fragments[*j];
                proof {
                    assert(store_view(*query).fragments[*j as int]
                        == crate::resolution::frag_view(query.fragments@[*j as int]));
                    assert(sel_nodes_wf(
                        *schema,
                        frags.len() as int,
                        frags[*j as int].selection,
                    ));
                }
                collect_fragment_tree(schema, query, &fragment.selection, &marked, acc);
                proof {
                    assert(acc@.to_set() =~= old(acc)@.to_set().union(
                        used_in_node(*schema, frags, sel_view(*node), visited@),
                    ));
                }
            } else {
                proof {
                    assert(used_in_node(*schema, frags, sel_view(*node), visited@)
                        =~= Set::<TypeId>::empty());
                    assert(acc@.to_set() =~= old(acc)@.to_set().union(
                        used_in_node(*schema, frags, sel_view(*node), visited@),
                    ));
                }
            }
        },
    }
}

/// Walks the children of `parent` in order, sharing one visit map.
fn collect_from_children(
    schema: &Schema,
    query: &ResolvedQuery,
    parent: &IdSelection,
    children: &Vec<IdSelection>,
    visited: &Vec<bool>,
    acc: &mut Vec<TypeId>,
)
    requires
        schema.wf(),
        store_wf(*schema, store_view(*query)),
        sel_nodes_wf(
            *schema,
            store_view(*query).fragments.len() as int,
            sels_view(children@),
        ),
        visited@.len() == store_view(*query).fragments.len(),
        old(acc)@.no_duplicates(),
        decreases_to!(*parent => children@),
    ensures
        final(acc)@.no_duplicates(),
        final(acc)@.to_set() == old(acc)@.to_set().union(
            used_in_nodes(
                *schema,
                store_view(*query).fragments,
                sels_view(children@),
                visited@,
            ),
        ),
    decreases visited@.len() - nmarked(visited@), *parent, 0int,
{
    let ghost frags = store_view(*query).fragments;
    let ghost target = sels_view(children@);
    proof {
        lemma_sels_view_index(children@);
    }
    let n = children.len();
    let mut i: usize = 0;
    proof {
        assert(used_in_nodes(*schema, frags, target.take(0), visited@) =~= Set::<
            TypeId,
        >::empty());
        assert(acc@.to_set() =~= old(acc)@.to_set().union(
            used_in_nodes(*schema, frags, target.take(0), visited@),
        ));
    }
    while i < n
        invariant
            schema.wf(),
            store_wf(*schema, store_view(*query)),
            frags == store_view(*query).fragments,
            n == children@.len(),
            i <= n,
            target == sels_view(children@),
            target.len() == n,
            forall|k: int| 0 <= k < n ==> target[k] == sel_view(children@[k]),
            forall|k: int|
                0 <= k < n ==> sel_node_wf(*schema, frags.len() as int, #[trigger] target[k]),
            visited@.len() == frags.len(),
            acc@.no_duplicates(),
            acc@.to_set() == old(acc)@.to_set().union(
                used_in_nodes(*schema, frags, target.take(i as int), visited@),
            ),
            decreases_to!(*parent => children@),
        decreases n - i,
    {
        proof {
            assert(sel_node_wf(*schema, frags.len() as int, target[i as int]));
            assert(decreases_to!(children@ => children@[i as int]));
            assert(target.take(i + 1).drop_last() =~= target.take(i as int));
            assert(target.take(i + 1).last() == target[i as int]);
        }
        let ghost acc_mid = acc@;
        collect_used_types(schema, query, &children[i], visited, acc);
        proof {
            assert(acc@.to_set() =~= old(acc)@.to_set().union(
                used_in_nodes(*schema, frags, target.take(i + 1), visited@),
            ));
        }
        i += 1;
    }
    proof {
        assert(target.take(n as int) =~= target);
    }
}

/// Walks a referenced fragment's whole tree with its own, newly marked
/// visit map.
fn collect_fragment_tree(
    schema: &Schema,
    query: &ResolvedQuery,
    selection: &Vec<IdSelection>,
    visited: &Vec<bool>,
    acc: &mut Vec<TypeId>,
)
    requires
        schema.wf(),
        store_wf(*schema, store_view(*query)),
        sel_nodes_wf(
            *schema,
            store_view(*query).fragments.len() as int,
            sels_view(selection@),
        ),
        visited@.len() == store_view(*query).fragments.len(),
        old(acc)@.no_duplicates(),
    ensures
        final(acc)@.no_duplicates(),
        final(acc)@.to_set() == old(acc)@.to_set().union(
            used_in_nodes(
                *schema,
                store_view(*query).fragments,
                sels_view(selection@),
                visited@,
            ),
        ),
    decreases visited@.len() - nmarked(visited@), selection@, 2int,
{
    let ghost frags = store_view(*query).fragments;
    let ghost target = sels_view(selection@);
    proof {
        lemma_sels_view_index(selection@);
    }
    let n = selection.len();
    let mut i: usize = 0;
    proof {
        assert(acc@.to_set() =~= old(acc)@.to_set().union(
            used_in_nodes(*schema, frags, target.take(0), visited@),
        ));
    }
    while i < n
        invariant
            schema.wf(),
            store_wf(*schema, store_view(*query)),
            frags == store_view(*query).fragments,
            n == selection@.len(),
            i <= n,
            target == sels_view(selection@),
            target.len() == n,
            forall|k: int| 0 <= k < n ==> target[k] == sel_view(selection@[k]),
            forall|k: int|
                0 <= k < n ==> sel_node_wf(*schema, frags.len() as int, #[trigger] target[k]),
            visited@.len() == frags.len(),
            acc@.no_duplicates(),
            acc@.to_set() == old(acc)@.to_set().union(
                used_in_nodes(*schema, frags, target.take(i as int), visited@),
            ),
        decreases n - i,
    {
        proof {
            assert(sel_node_wf(*schema, frags.len() as int, target[i as int]));
            assert(decreases_to!(selection@ => selection@[i as int]));
            assert(target.take(i + 1).drop_last() =~= target.take(i as int));
            assert(target.take(i + 1).last() == target[i as int]);
        }
        collect_used_types(schema, query, &selection[i], visited, acc);
        proof {
            assert(acc@.to_set() =~= old(acc)@.to_set().union(
                used_in_nodes(*schema, frags, target.take(i + 1), visited@),
            ));
        }
        i += 1;
    }
    proof {
        assert(target.take(n as int) =~= target);
    }
}

impl<'a> Operation<'a> {
    /// The set of schema types this operation's selection tree touches:
    /// every field's declared type and every inline fragment's narrowing
    /// type, reachable depth-first, including through fragment spreads. The
    /// result carries no duplicates and no ordering guarantee.
    pub fn all_used_types(&self) -> (r: Vec<TypeId>)
        requires
            self.wf(),
        ensures
            r@.no_duplicates(),
            r@.to_set() == operation_used_types(
                *self.schema,
                store_view(*self.query),
                self.operation_id as int,
            ),
    {
        let ghost frags = store_view(*self.query).fragments;
        let nfrags = self.query.fragments.len();
        let mut visited: Vec<bool> = Vec::new();
        let mut k: usize = 0;
        while k < nfrags
            invariant
                k <= nfrags,
                visited@.len() == k,
                forall|p: int| 0 <= p < k ==> visited@[p] == false,
            decreases nfrags - k,
        {
            visited.push(false);
            k += 1;
        }
        proof {
            assert(visited@ =~= Seq::new(frags.len(), |p: int| false));
        }
        let op = self.get();
        proof {
            assert(store_view(*self.query).operations[self.operation_id as int]
                == crate::resolution::op_view(
                self.query.operations@[self.operation_id as int],
            ));
        }
        let mut acc: Vec<TypeId> = Vec::new();
        collect_fragment_tree(self.schema, self.query, &op.selection, &visited, &mut acc);
        proof {
            assert(acc@.to_set() =~= operation_used_types(
                *self.schema,
                store_view(*self.query),
                self.operation_id as int,
            ));
        }
        acc
    }
}

/// Idempotent views: constructing a view of the same stored operation twice
/// yields structurally identical trees — the view is a function of the
/// schema, the store, and the operation index alone, with no other input.
pub proof fn lemma_views_idempotent(
    schema: Schema,
    store: StoreNode,
    i: int,
    first: Seq<RefNode>,
    second: Seq<RefNode>,
)
    requires
        first == op_view_spec(schema, store, i),
        second == op_view_spec(schema, store, i),
    ensures
        first == second,
{
}

} // verus!
