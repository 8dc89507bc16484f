use vstd::prelude::*;
use crate::groups::{add_to_group, group_of, has_key, key_index, keys_unique, merge_groups};
use crate::module_graph::{ModuleGraph, ModuleId, ModuleKind};
use crate::node::{
    classify_spec, is_internal, ClientReference, ClientReferenceType, VisitClientReferenceNode,
    VisitClientReferenceNodeState, VisitClientReferenceNodeType,
};
use crate::result::{client_references_of, grouped_references_of};
use crate::traversal::{discovered, is_completed, CompletedGraph};

verus! {

/// A traversal admits every discovered node exactly once, and expands each
/// internal node at most once, however many edges lead to it.
pub proof fn lemma_each_node_visited_once(
    g: ModuleGraph,
    roots: Seq<VisitClientReferenceNode>,
    prior: Seq<VisitClientReferenceNode>,
    c: CompletedGraph,
)
    requires
        is_completed(g, roots, prior, c),
    ensures
        c.admitted@.no_duplicates(),
        forall|x: VisitClientReferenceNode|
            discovered(roots, c.expansions@, x) ==> #[trigger] c.admitted@.contains(x),
        forall|i: int, j: int|
            0 <= i < j < c.expansions@.len() ==> c.expansions@[i].node != c.expansions@[j].node,
{
}

/// A client reference is never expanded: it has no edges in a completed graph.
pub proof fn lemma_boundary_references_are_leaves(
    g: ModuleGraph,
    roots: Seq<VisitClientReferenceNode>,
    prior: Seq<VisitClientReferenceNode>,
    c: CompletedGraph,
)
    requires
        is_completed(g, roots, prior, c),
    ensures
        forall|i: int|
            0 <= i < c.expansions@.len() ==> !(#[trigger] c.expansions@[i].node.ty is ClientReference),
{
    assert forall|i: int| 0 <= i < c.expansions@.len() implies !(
    #[trigger] c.expansions@[i].node.ty is ClientReference) by {
        assert(is_internal(c.expansions@[i].node));
    }
}

/// Server components and server utilities are never expanded either, so a
/// completed graph holds no edge from one entry to another.
pub proof fn lemma_entries_are_leaves(
    g: ModuleGraph,
    roots: Seq<VisitClientReferenceNode>,
    prior: Seq<VisitClientReferenceNode>,
    c: CompletedGraph,
)
    requires
        is_completed(g, roots, prior, c),
    ensures
        forall|i: int|
            0 <= i < c.expansions@.len() ==> !(#[trigger] c.expansions@[i].node.ty is ServerComponentEntry)
                && !(c.expansions@[i].node.ty is ServerUtilEntry),
{
    assert forall|i: int| 0 <= i < c.expansions@.len() implies !(
    #[trigger] c.expansions@[i].node.ty is ServerComponentEntry) && !(
    c.expansions@[i].node.ty is ServerUtilEntry) by {
        assert(is_internal(c.expansions@[i].node));
    }
}

/// An ordinary module `u` referenced from the entry context, whose resolved
/// path differs from the entry's, is a server utility; below a server utility
/// no module is classified as one again, and internal modules stay in that
/// state.
pub proof fn lemma_utility_detection(
    g: ModuleGraph,
    entry_path: u64,
    entry: ModuleId,
    u: ModuleId,
    parent: ModuleId,
    m: ModuleId,
)
    requires
        g.kind_of(u) == ModuleKind::Other,
        g.path_of(u) != entry_path,
    ensures
        classify_spec(g, VisitClientReferenceNodeState::Entry { entry_path }, entry, u)
            == (VisitClientReferenceNode {
            state: VisitClientReferenceNodeState::InServerUtil,
            ty: VisitClientReferenceNodeType::ServerUtilEntry(u),
        }),
        !(classify_spec(g, VisitClientReferenceNodeState::InServerUtil, parent, m).ty is ServerUtilEntry),
        is_internal(classify_spec(g, VisitClientReferenceNodeState::InServerUtil, parent, m))
            ==> classify_spec(g, VisitClientReferenceNodeState::InServerUtil, parent, m).state
            == VisitClientReferenceNodeState::InServerUtil,
{
}

/// An ECMAScript client reference `c` found below server component `s` is
/// owned by `s`.
pub proof fn lemma_scope_attribution(g: ModuleGraph, s: ModuleId, parent: ModuleId, c: ModuleId)
    requires
        g.kind_of(c) == ModuleKind::EcmascriptClientReference,
    ensures
        classify_spec(
            g,
            VisitClientReferenceNodeState::InServerComponent { server_component: s },
            parent,
            c,
        ).ty == VisitClientReferenceNodeType::ClientReference(
            ClientReference {
                server_component: Some(s),
                ty: ClientReferenceType::EcmascriptClientReference { module: c, parent_module: parent },
            },
        ),
{
}

proof fn lemma_key_index_unique(gs: Seq<(Option<ModuleId>, Seq<ModuleId>)>, i: int)
    requires
        keys_unique(gs),
        0 <= i < gs.len(),
    ensures
        has_key(gs, gs[i].0),
        key_index(gs, gs[i].0) == i,
        group_of(gs, gs[i].0) == gs[i].1,
{
    assert(gs[i].0 == gs[i].0);
    let j = key_index(gs, gs[i].0);
    assert(gs[j].0 == gs[i].0);
}

/// Adding to one group keeps the keys unique and changes no other group.
pub proof fn lemma_add_to_group(
    gs: Seq<(Option<ModuleId>, Seq<ModuleId>)>,
    k0: Option<ModuleId>,
    v: Seq<ModuleId>,
    k: Option<ModuleId>,
)
    requires
        keys_unique(gs),
    ensures
        keys_unique(add_to_group(gs, k0, v)),
        group_of(add_to_group(gs, k0, v), k) == if k == k0 {
            group_of(gs, k) + v
        } else {
            group_of(gs, k)
        },
{
    let ng = add_to_group(gs, k0, v);
    if has_key(gs, k0) {
        let idx = key_index(gs, k0);
        assert forall|i: int| 0 <= i < ng.len() implies #[trigger] ng[i].0 == gs[i].0 by {}
        assert(keys_unique(ng));
        if has_key(gs, k) {
            let j = key_index(gs, k);
            lemma_key_index_unique(ng, j);
        } else {
            if has_key(ng, k) {
                let j = key_index(ng, k);
                assert(gs[j].0 == k);
            }
        }
    } else {
        assert forall|i: int, j: int| 0 <= i < j < ng.len() implies ng[i].0 != ng[j].0 by {
            if j == gs.len() {
                assert(ng[i] == gs[i]);
            }
        }
        assert(ng[gs.len() as int] == (k0, v));
        if k == k0 {
            lemma_key_index_unique(ng, gs.len() as int);
        } else if has_key(gs, k) {
            let j = key_index(gs, k);
            assert(ng[j] == gs[j]);
            lemma_key_index_unique(ng, j);
        } else if has_key(ng, k) {
            let j = key_index(ng, k);
            assert(ng[j] == gs[j]);
        }
    }
}

/// Merging is append-only: under every key the merged list is the list of
/// `a` followed by the list of `b`; nothing is removed or deduplicated.
pub proof fn lemma_merge_groups_append(
    a: Seq<(Option<ModuleId>, Seq<ModuleId>)>,
    b: Seq<(Option<ModuleId>, Seq<ModuleId>)>,
    k: Option<ModuleId>,
)
    requires
        keys_unique(a),
        keys_unique(b),
    ensures
        keys_unique(merge_groups(a, b)),
        group_of(merge_groups(a, b), k) == group_of(a, k) + group_of(b, k),
    decreases b.len(),
{
    if b.len() == 0 {
        assert(!has_key(b, k));
        assert(group_of(a, k) + group_of(b, k) =~= group_of(a, k));
    } else {
        let b1 = b.drop_last();
        let last = b.last();
        assert forall|i: int| 0 <= i < b1.len() implies #[trigger] b1[i] == b[i] by {}
        assert(keys_unique(b1));
        lemma_merge_groups_append(a, b1, k);
        lemma_merge_groups_append(a, b1, last.0);
        lemma_add_to_group(merge_groups(a, b1), last.0, last.1, k);
        lemma_key_index_unique(b, b.len() - 1);
        if k == last.0 {
            assert(!has_key(b1, k)) by {
                if has_key(b1, k) {
                    let j = key_index(b1, k);
                    assert(b[j].0 == b[b.len() - 1].0);
                }
            }
            assert(group_of(a, k) + group_of(b1, k) + last.1 =~= group_of(a, k) + last.1);
        } else {
            if has_key(b1, k) {
                let j = key_index(b1, k);
                lemma_key_index_unique(b1, j);
                lemma_key_index_unique(b, j);
            } else if has_key(b, k) {
                let j = key_index(b, k);
                assert(j != b.len() - 1);
                assert(b1[j].0 == k);
            }
        }
    }
}

/// Merging in a result that found nothing keeps every list as it was.
pub proof fn lemma_merge_with_empty(
    refs: Seq<ClientReference>,
    groups: Seq<(Option<ModuleId>, Seq<ModuleId>)>,
)
    ensures
        refs + Seq::<ClientReference>::empty() == refs,
        (refs + Seq::<ClientReference>::empty()).len() == refs.len(),
        merge_groups(groups, Seq::empty()) == groups,
{
    assert(refs + Seq::<ClientReference>::empty() =~= refs);
}

proof fn lemma_grouped_keys_unique(s: Seq<VisitClientReferenceNode>)
    ensures
        keys_unique(grouped_references_of(s)),
    decreases s.len(),
{
    if s.len() > 0 {
        lemma_grouped_keys_unique(s.drop_last());
        if let VisitClientReferenceNodeType::ClientReference(c) = s.last().ty {
            lemma_add_to_group(grouped_references_of(s.drop_last()), c.server_component, seq![c.ty->module], None);
        }
    }
}

/// Every client reference among the leaves of a traversal is recorded with
/// its owner, and an ECMAScript one is listed under that owner.
pub proof fn lemma_reference_recorded_under_owner(
    s: Seq<VisitClientReferenceNode>,
    n: VisitClientReferenceNode,
    c: ClientReference,
)
    requires
        s.contains(n),
        n.ty == VisitClientReferenceNodeType::ClientReference(c),
    ensures
        client_references_of(s).contains(c),
        c.ty is EcmascriptClientReference ==> group_of(
            grouped_references_of(s),
            c.server_component,
        ).contains(c.ty->module),
    decreases s.len(),
{
    let s1 = s.drop_last();
    lemma_grouped_keys_unique(s1);
    if s.last() == n {
        assert(client_references_of(s).last() == c);
        if let ClientReferenceType::EcmascriptClientReference { module, .. } = c.ty {
            lemma_add_to_group(grouped_references_of(s1), c.server_component, seq![module], c.server_component);
            let gs = group_of(grouped_references_of(s), c.server_component);
            assert(gs[gs.len() - 1] == module);
        }
    } else {
        let i = s.index_of(n);
        assert(s1[i] == n);
        lemma_reference_recorded_under_owner(s1, n, c);
        let p = client_references_of(s1);
        let j = p.index_of(c);
        assert(client_references_of(s) =~= p || client_references_of(s) =~= p.push(
            client_references_of(s).last(),
        ));
        assert(client_references_of(s)[j] == c);
        if c.ty is EcmascriptClientReference {
            let old_g = group_of(grouped_references_of(s1), c.server_component);
            let t = old_g.index_of(c.ty->module);
            if let VisitClientReferenceNodeType::ClientReference(c2) = s.last().ty {
                if let ClientReferenceType::EcmascriptClientReference { module, .. } = c2.ty {
                    lemma_add_to_group(grouped_references_of(s1), c2.server_component, seq![module], c.server_component);
                }
            }
            let new_g = group_of(grouped_references_of(s), c.server_component);
            assert(new_g[t] == old_g[t]);
        }
    }
}

} // verus!
