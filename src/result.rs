use vstd::prelude::*;
use crate::groups::{
    add_to_group, add_to_group_exec, extend_copy, groups_view, keys_unique, merge_groups,
    merge_groups_exec, Groups,
};
use crate::module_graph::{EdgeResolutionError, ModuleGraph, ModuleId, ModuleKind};
use crate::node::{
    contains_node, reference_type_eq, ClientReference, ClientReferenceType,
    VisitClientReferenceNode, VisitClientReferenceNodeState, VisitClientReferenceNodeType,
};
use crate::traversal::{is_completed, traverse, CompletedGraph};

verus! {

/// The nodes visited by earlier traversals, each once.
#[derive(Clone, Debug)]
pub struct VisitedClientReferenceGraphNodes(pub Vec<VisitClientReferenceNode>);

impl VisitedClientReferenceGraphNodes {
    pub fn empty() -> (r: Self)
        ensures
            r.0@ == Seq::<VisitClientReferenceNode>::empty(),
    {
        VisitedClientReferenceGraphNodes(Vec::new())
    }
}

/// The distinct kinds of client reference found.
#[derive(Clone, Debug)]
pub struct ClientReferenceTypes(pub Vec<ClientReferenceType>);

/// What one or more traversals found.
#[derive(Clone, Debug)]
pub struct ClientReferenceGraphResult {
    pub client_references: Vec<ClientReference>,
    /// Only the ECMAScript client references are listed here, under the
    /// server component that owns them.
    pub client_references_by_server_component: Groups,
    pub server_component_entries: Vec<ModuleId>,
    pub server_utils: Vec<ModuleId>,
    pub visited_nodes: VisitedClientReferenceGraphNodes,
}

/// The server components and server utilities reachable from an entry.
#[derive(Clone, Debug)]
pub struct ServerEntries {
    pub server_component_entries: Vec<ModuleId>,
    pub server_utils: Vec<ModuleId>,
}

pub open spec fn server_utils_of(s: Seq<VisitClientReferenceNode>) -> Seq<ModuleId>
    decreases s.len(),
{
    if s.len() == 0 {
        Seq::empty()
    } else {
        let p = server_utils_of(s.drop_last());
        match s.last().ty {
            VisitClientReferenceNodeType::ServerUtilEntry(m) => p.push(m),
            _ => p,
        }
    }
}

pub open spec fn server_components_of(s: Seq<VisitClientReferenceNode>) -> Seq<ModuleId>
    decreases s.len(),
{
    if s.len() == 0 {
        Seq::empty()
    } else {
        let p = server_components_of(s.drop_last());
        match s.last().ty {
            VisitClientReferenceNodeType::ServerComponentEntry(m) => p.push(m),
            _ => p,
        }
    }
}

pub open spec fn client_references_of(s: Seq<VisitClientReferenceNode>) -> Seq<ClientReference>
    decreases s.len(),
{
    if s.len() == 0 {
        Seq::empty()
    } else {
        let p = client_references_of(s.drop_last());
        match s.last().ty {
            VisitClientReferenceNodeType::ClientReference(c) => p.push(c),
            _ => p,
        }
    }
}

/// The ECMAScript client-reference modules of `s`, grouped by owner.
pub open spec fn grouped_references_of(s: Seq<VisitClientReferenceNode>) -> Seq<
    (Option<ModuleId>, Seq<ModuleId>),
>
    decreases s.len(),
{
    if s.len() == 0 {
        Seq::empty()
    } else {
        let p = grouped_references_of(s.drop_last());
        match s.last().ty {
            VisitClientReferenceNodeType::ClientReference(c) => match c.ty {
                ClientReferenceType::EcmascriptClientReference { module, .. } => add_to_group(
                    p,
                    c.server_component,
                    seq![module],
                ),
                _ => p,
            },
            _ => p,
        }
    }
}

/// `prior` followed by the nodes of `s` that it lacks.
pub open spec fn add_new_nodes(
    prior: Seq<VisitClientReferenceNode>,
    s: Seq<VisitClientReferenceNode>,
) -> Seq<VisitClientReferenceNode>
    decreases s.len(),
{
    if s.len() == 0 {
        prior
    } else {
        let p = add_new_nodes(prior, s.drop_last());
        if p.contains(s.last()) {
            p
        } else {
            p.push(s.last())
        }
    }
}

/// The distinct reference types of `s`, in order of first occurrence.
pub open spec fn distinct_types_of(s: Seq<ClientReference>) -> Seq<ClientReferenceType>
    decreases s.len(),
{
    if s.len() == 0 {
        Seq::empty()
    } else {
        let p = distinct_types_of(s.drop_last());
        if p.contains(s.last().ty) {
            p
        } else {
            p.push(s.last().ty)
        }
    }
}

/// The root node of a traversal from `entry` in search of server entries.
pub open spec fn entry_root(g: ModuleGraph, entry: ModuleId) -> VisitClientReferenceNode {
    VisitClientReferenceNode {
        state: VisitClientReferenceNodeState::Entry { entry_path: g.path_of(entry) },
        ty: VisitClientReferenceNodeType::Internal(entry),
    }
}

/// The root node of a graph traversal from `entry`: a server component
/// owns what is found below it.
pub open spec fn graph_root(g: ModuleGraph, entry: ModuleId) -> VisitClientReferenceNode {
    if g.kind_of(entry) == ModuleKind::ServerComponent {
        VisitClientReferenceNode {
            state: VisitClientReferenceNodeState::InServerComponent { server_component: entry },
            ty: VisitClientReferenceNodeType::Internal(entry),
        }
    } else {
        entry_root(g, entry)
    }
}

pub open spec fn graph_roots(g: ModuleGraph, entries: Seq<ModuleId>) -> Seq<
    VisitClientReferenceNode,
> {
    Seq::new(entries.len(), |k: int| graph_root(g, entries[k]))
}

/// Sorts the leaves of a traversal, in order, into server components and
/// server utilities.
pub fn server_entries_of(order: &Vec<VisitClientReferenceNode>) -> (r: ServerEntries)
    ensures
        r.server_component_entries@ == server_components_of(order@),
        r.server_utils@ == server_utils_of(order@),
{
    let mut server_component_entries: Vec<ModuleId> = Vec::new();
    let mut server_utils: Vec<ModuleId> = Vec::new();
    let mut i: usize = 0;
    while i < order.len()
        invariant
            0 <= i <= order.len(),
            server_component_entries@ == server_components_of(order@.take(i as int)),
            server_utils@ == server_utils_of(order@.take(i as int)),
        decreases order.len() - i,
    {
        proof {
            let s = order@.take(i + 1);
            assert(s.drop_last() =~= order@.take(i as int));
            assert(s.last() == order@[i as int]);
        }
        match order[i].ty {
            VisitClientReferenceNodeType::ServerUtilEntry(m) => server_utils.push(m),
            VisitClientReferenceNodeType::ServerComponentEntry(m) => server_component_entries.push(m),
            _ => {},
        }
        i = i + 1;
    }
    assert(order@.take(order.len() as int) =~= order@);
    ServerEntries { server_component_entries, server_utils }
}

/// Finds the server components and server utilities reachable from `entry`
/// without crossing another of them, in depth-first order.
pub fn find_server_entries(g: &ModuleGraph, entry: ModuleId) -> (r: Result<
    ServerEntries,
    EdgeResolutionError,
>)
    ensures
        r matches Ok(se) ==> exists|c: CompletedGraph|
            {
                &&& is_completed(*g, seq![entry_root(*g, entry)], Seq::empty(), c)
                &&& se.server_component_entries@ == server_components_of(c.order@)
                &&& se.server_utils@ == server_utils_of(c.order@)
            },
        g.well_formed() && g.has(entry) ==> r is Ok,
        r is Err <==> !g.has(entry) || forall|c: CompletedGraph|
            !is_completed(*g, seq![entry_root(*g, entry)], Seq::empty(), c),
        r matches Err(e) ==> !g.has(e.module),
{
    let entry_path = match g.path(entry) {
        Ok(p) => p,
        Err(e) => {
            return Err(e);
        },
    };
    let root = VisitClientReferenceNode {
        state: VisitClientReferenceNodeState::Entry { entry_path },
        ty: VisitClientReferenceNodeType::Internal(entry),
    };
    let mut roots: Vec<VisitClientReferenceNode> = Vec::new();
    roots.push(root);
    assert(roots@ =~= seq![entry_root(*g, entry)]);
    let prior: Vec<VisitClientReferenceNode> = Vec::new();
    assert(prior@ =~= Seq::<VisitClientReferenceNode>::empty());
    let c = match traverse(g, &roots, &prior) {
        Ok(c) => c,
        Err(e) => {
            return Err(e);
        },
    };
    let r = server_entries_of(&c.order);
    Ok(r)
}

/// Builds the result of one traversal: the leaves, in order, sorted by role,
/// and the visited nodes grown by those this traversal admitted.
pub fn graph_result_of(c: &CompletedGraph, prior: &Vec<VisitClientReferenceNode>) -> (r:
    ClientReferenceGraphResult)
    ensures
        r.wf(),
        r.client_references@ == client_references_of(c.order@),
        groups_view(r.client_references_by_server_component@) == grouped_references_of(c.order@),
        r.server_component_entries@ == server_components_of(c.order@),
        r.server_utils@ == server_utils_of(c.order@),
        r.visited_nodes.0@ == add_new_nodes(prior@, c.admitted@),
{
    let order = &c.order;
    let mut client_references: Vec<ClientReference> = Vec::new();
    let mut groups: Groups = Vec::new();
    let mut i: usize = 0;
    assert(groups_view(groups@) =~= Seq::<(Option<ModuleId>, Seq<ModuleId>)>::empty());
    while i < order.len()
        invariant
            0 <= i <= order.len(),
            client_references@ == client_references_of(order@.take(i as int)),
            groups_view(groups@) == grouped_references_of(order@.take(i as int)),
            keys_unique(groups_view(groups@)),
        decreases order.len() - i,
    {
        proof {
            let s = order@.take(i + 1);
            assert(s.drop_last() =~= order@.take(i as int));
            assert(s.last() == order@[i as int]);
        }
        if let VisitClientReferenceNodeType::ClientReference(cr) = order[i].ty {
            client_references.push(cr);
            if let ClientReferenceType::EcmascriptClientReference { module, .. } = cr.ty {
                let mut one: Vec<ModuleId> = Vec::new();
                one.push(module);
                assert(one@ =~= seq![module]);
                add_to_group_exec(&mut groups, cr.server_component, &one);
            }
        }
        i = i + 1;
    }
    assert(order@.take(order.len() as int) =~= order@);
    let se = server_entries_of(order);
    let mut nodes: Vec<VisitClientReferenceNode> = Vec::new();
    extend_copy(&mut nodes, prior);
    let adm = &c.admitted;
    let mut j: usize = 0;
    assert(prior@ + Seq::<VisitClientReferenceNode>::empty() =~= prior@);
    while j < adm.len()
        invariant
            0 <= j <= adm.len(),
            nodes@ == add_new_nodes(prior@, adm@.take(j as int)),
        decreases adm.len() - j,
    {
        proof {
            let s = adm@.take(j + 1);
            assert(s.drop_last() =~= adm@.take(j as int));
            assert(s.last() == adm@[j as int]);
        }
        if !contains_node(&nodes, &adm[j]) {
            nodes.push(adm[j]);
        }
        j = j + 1;
    }
    assert(adm@.take(adm.len() as int) =~= adm@);
    ClientReferenceGraphResult {
        client_references,
        client_references_by_server_component: groups,
        server_component_entries: se.server_component_entries,
        server_utils: se.server_utils,
        visited_nodes: VisitedClientReferenceGraphNodes(nodes),
    }
}

/// Runs one traversal from `entries`, skipping the expansion of nodes that
/// `visited` holds, and gathers what it found. A server component among the
/// entries owns the client references found below it.
pub fn client_reference_graph(
    g: &ModuleGraph,
    entries: &Vec<ModuleId>,
    visited: &VisitedClientReferenceGraphNodes,
) -> (r: Result<ClientReferenceGraphResult, EdgeResolutionError>)
    ensures
        r matches Ok(res) ==> exists|c: CompletedGraph|
            {
                &&& is_completed(*g, graph_roots(*g, entries@), visited.0@, c)
                &&& res.wf()
                &&& res.client_references@ == client_references_of(c.order@)
                &&& groups_view(res.client_references_by_server_component@)
                    == grouped_references_of(c.order@)
                &&& res.server_component_entries@ == server_components_of(c.order@)
                &&& res.server_utils@ == server_utils_of(c.order@)
                &&& res.visited_nodes.0@ == add_new_nodes(visited.0@, c.admitted@)
            },
        g.well_formed() && (forall|k: int| 0 <= k < entries@.len() ==> g.has(#[trigger] entries@[k]))
            ==> r is Ok,
        r is Err <==> (exists|k: int| 0 <= k < entries@.len() && !g.has(#[trigger] entries@[k]))
            || forall|c: CompletedGraph| !is_completed(*g, graph_roots(*g, entries@), visited.0@, c),
        r matches Err(e) ==> !g.has(e.module),
{
    let mut roots: Vec<VisitClientReferenceNode> = Vec::new();
    let mut k: usize = 0;
    while k < entries.len()
        invariant
            0 <= k <= entries.len(),
            roots@ == graph_roots(*g, entries@.take(k as int)),
            forall|q: int| 0 <= q < k ==> g.has(#[trigger] entries@[q]),
        decreases entries.len() - k,
    {
        let m = entries[k];
        let entry_path = match g.path(m) {
            Ok(p) => p,
            Err(e) => {
                return Err(e);
            },
        };
        let state = if let ModuleKind::ServerComponent = g.modules[m].kind {
            VisitClientReferenceNodeState::InServerComponent { server_component: m }
        } else {
            VisitClientReferenceNodeState::Entry { entry_path }
        };
        roots.push(
            VisitClientReferenceNode { state, ty: VisitClientReferenceNodeType::Internal(m) },
        );
        k = k + 1;
        assert(roots@ =~= graph_roots(*g, entries@.take(k as int)));
    }
    assert(entries@.take(entries.len() as int) =~= entries@);
    let c = match traverse(g, &roots, &visited.0) {
        Ok(c) => c,
        Err(e) => {
            return Err(e);
        },
    };
    Ok(graph_result_of(&c, &visited.0))
}

impl ClientReferenceGraphResult {
    pub open spec fn wf(&self) -> bool {
        keys_unique(groups_view(self.client_references_by_server_component@))
    }

    /// Appends what `other` found to what `self` found; the visited nodes
    /// become those of `other`, which must already include those of `self`.
    pub fn extend(&mut self, other: &Self)
        requires
            old(self).wf(),
        ensures
            final(self).wf(),
            final(self).client_references@ == old(self).client_references@
                + other.client_references@,
            groups_view(final(self).client_references_by_server_component@) == merge_groups(
                groups_view(old(self).client_references_by_server_component@),
                groups_view(other.client_references_by_server_component@),
            ),
            final(self).server_component_entries@ == old(self).server_component_entries@
                + other.server_component_entries@,
            final(self).server_utils@ == old(self).server_utils@ + other.server_utils@,
            final(self).visited_nodes.0@ == other.visited_nodes.0@,
    {
        extend_copy(&mut self.client_references, &other.client_references);
        merge_groups_exec(
            &mut self.client_references_by_server_component,
            &other.client_references_by_server_component,
        );
        extend_copy(&mut self.server_component_entries, &other.server_component_entries);
        extend_copy(&mut self.server_utils, &other.server_utils);
        let mut nodes: Vec<VisitClientReferenceNode> = Vec::new();
        extend_copy(&mut nodes, &other.visited_nodes.0);
        self.visited_nodes = VisitedClientReferenceGraphNodes(nodes);
    }

    /// The distinct types of the client references, in order of first occurrence.
    pub fn types(&self) -> (r: ClientReferenceTypes)
        ensures
            r.0@ == distinct_types_of(self.client_references@),
    {
        let refs = &self.client_references;
        let mut out: Vec<ClientReferenceType> = Vec::new();
        let mut i: usize = 0;
        while i < refs.len()
            invariant
                0 <= i <= refs.len(),
                out@ == distinct_types_of(refs@.take(i as int)),
            decreases refs.len() - i,
        {
            let t = refs[i].ty;
            let mut found = false;
            let mut j: usize = 0;
            while j < out.len()
                invariant
                    0 <= j <= out.len(),
                    found == exists|q: int| 0 <= q < j && out@[q] == t,
                decreases out.len() - j,
            {
                if reference_type_eq(&out[j], &t) {
                    found = true;
                }
                j = j + 1;
            }
            proof {
                let s = refs@.take(i + 1);
                assert(s.drop_last() =~= refs@.take(i as int));
                assert(s.last() == refs@[i as int]);
                if found {
                    let q = choose|q: int| 0 <= q < out@.len() && out@[q] == t;
                    assert(out@.contains(t));
                }
            }
            if !found {
                out.push(t);
            }
            i = i + 1;
        }
        assert(refs@.take(refs.len() as int) =~= refs@);
        ClientReferenceTypes(out)
    }
}

impl Default for ClientReferenceGraphResult {
    fn default() -> (r: Self)
        ensures
            r.wf(),
            r.client_references@.len() == 0,
            r.client_references_by_server_component@.len() == 0,
            r.server_component_entries@.len() == 0,
            r.server_utils@.len() == 0,
            r.visited_nodes.0@.len() == 0,
    {
        ClientReferenceGraphResult {
            client_references: Vec::new(),
            client_references_by_server_component: Vec::new(),
            server_component_entries: Vec::new(),
            server_utils: Vec::new(),
            visited_nodes: VisitedClientReferenceGraphNodes::empty(),
        }
    }
}

} // verus!
