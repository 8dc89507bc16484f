use vstd::prelude::*;
use crate::module_graph::{EdgeResolutionError, ModuleGraph, ModuleId, ModuleKind};

verus! {

/// The kind of a boundary-crossing reference and the module(s) it names.
#[derive(Clone, Copy, Debug, PartialEq, Eq, Hash)]
pub enum ClientReferenceType {
    EcmascriptClientReference {
        /// The client-reference module.
        module: ModuleId,
        /// The module that referenced it.
        parent_module: ModuleId,
    },
    CssClientReference(ModuleId),
}

/// A boundary-crossing reference together with the scope that owns it.
#[derive(Clone, Copy, Debug, PartialEq, Eq, Hash)]
pub struct ClientReference {
    /// The server component under which the reference was found, if any.
    pub server_component: Option<ModuleId>,
    pub ty: ClientReferenceType,
}

impl ClientReference {
    pub fn server_component(&self) -> (r: Option<ModuleId>)
        ensures
            r == self.server_component,
    {
        self.server_component
    }

    pub fn ty(&self) -> (r: ClientReferenceType)
        ensures
            r == self.ty,
    {
        self.ty
    }
}

/// The context threaded along the edges of a traversal.
#[derive(Clone, Copy, Debug, PartialEq, Eq, Hash)]
pub enum VisitClientReferenceNodeState {
    /// No boundary crossed yet; holds the resolved path of the entry.
    Entry { entry_path: u64 },
    /// Below the given server component.
    InServerComponent { server_component: ModuleId },
    /// Below a shared server utility.
    InServerUtil,
}

impl VisitClientReferenceNodeState {
    pub open spec fn server_component_spec(&self) -> Option<ModuleId> {
        match *self {
            VisitClientReferenceNodeState::InServerComponent { server_component } => Some(
                server_component,
            ),
            _ => None,
        }
    }

    /// The server component that owns what is found in this state.
    pub fn server_component(&self) -> (r: Option<ModuleId>)
        ensures
            r == self.server_component_spec(),
    {
        match *self {
            VisitClientReferenceNodeState::Entry { .. } => None,
            VisitClientReferenceNodeState::InServerComponent { server_component } => Some(
                server_component,
            ),
            VisitClientReferenceNodeState::InServerUtil => None,
        }
    }
}

/// The role of a module in a traversal.
#[derive(Clone, Copy, Debug, PartialEq, Eq, Hash)]
pub enum VisitClientReferenceNodeType {
    ClientReference(ClientReference),
    ServerComponentEntry(ModuleId),
    ServerUtilEntry(ModuleId),
    Internal(ModuleId),
}

/// A node of the traversal: a module in a role, under a state.
#[derive(Clone, Copy, Debug, PartialEq, Eq, Hash)]
pub struct VisitClientReferenceNode {
    pub state: VisitClientReferenceNodeState,
    pub ty: VisitClientReferenceNodeType,
}

/// Whether the traversal expands a node or keeps it as a leaf.
#[derive(Clone, Copy, Debug, PartialEq, Eq)]
pub enum VisitControlFlow {
    Continue,
    Skip,
}

pub open spec fn is_internal(n: VisitClientReferenceNode) -> bool {
    n.ty is Internal
}

/// Classifies module `m`, referenced by `parent` under `state`; the first
/// matching rule wins.
pub open spec fn classify_spec(
    g: ModuleGraph,
    state: VisitClientReferenceNodeState,
    parent: ModuleId,
    m: ModuleId,
) -> VisitClientReferenceNode {
    match g.kind_of(m) {
        ModuleKind::EcmascriptClientReference => VisitClientReferenceNode {
            state,
            ty: VisitClientReferenceNodeType::ClientReference(
                ClientReference {
                    server_component: state.server_component_spec(),
                    ty: ClientReferenceType::EcmascriptClientReference { module: m, parent_module: parent },
                },
            ),
        },
        ModuleKind::CssModule => VisitClientReferenceNode {
            state,
            ty: VisitClientReferenceNodeType::ClientReference(
                ClientReference {
                    server_component: state.server_component_spec(),
                    ty: ClientReferenceType::CssClientReference(m),
                },
            ),
        },
        ModuleKind::ServerComponent => VisitClientReferenceNode {
            state: VisitClientReferenceNodeState::InServerComponent { server_component: m },
            ty: VisitClientReferenceNodeType::ServerComponentEntry(m),
        },
        ModuleKind::Other => match state {
            VisitClientReferenceNodeState::Entry { entry_path } if g.path_of(m) != entry_path =>
                VisitClientReferenceNode {
                state: VisitClientReferenceNodeState::InServerUtil,
                ty: VisitClientReferenceNodeType::ServerUtilEntry(m),
            },
            _ => VisitClientReferenceNode { state, ty: VisitClientReferenceNodeType::Internal(m) },
        },
    }
}

/// Classifies module `m`, referenced by `parent` under `state`.
pub fn classify(
    g: &ModuleGraph,
    state: VisitClientReferenceNodeState,
    parent: ModuleId,
    m: ModuleId,
) -> (r: VisitClientReferenceNode)
    requires
        g.has(m),
    ensures
        r == classify_spec(*g, state, parent, m),
{
    let info = &g.modules[m];
    match info.kind {
        ModuleKind::EcmascriptClientReference => VisitClientReferenceNode {
            state,
            ty: VisitClientReferenceNodeType::ClientReference(
                ClientReference {
                    server_component: state.server_component(),
                    ty: ClientReferenceType::EcmascriptClientReference { module: m, parent_module: parent },
                },
            ),
        },
        ModuleKind::CssModule => VisitClientReferenceNode {
            state,
            ty: VisitClientReferenceNodeType::ClientReference(
                ClientReference {
                    server_component: state.server_component(),
                    ty: ClientReferenceType::CssClientReference(m),
                },
            ),
        },
        ModuleKind::ServerComponent => VisitClientReferenceNode {
            state: VisitClientReferenceNodeState::InServerComponent { server_component: m },
            ty: VisitClientReferenceNodeType::ServerComponentEntry(m),
        },
        ModuleKind::Other => {
            if let VisitClientReferenceNodeState::Entry { entry_path } = state {
                if info.path != entry_path {
                    return VisitClientReferenceNode {
                        state: VisitClientReferenceNodeState::InServerUtil,
                        ty: VisitClientReferenceNodeType::ServerUtilEntry(m),
                    };
                }
            }
            VisitClientReferenceNode { state, ty: VisitClientReferenceNodeType::Internal(m) }
        },
    }
}

pub open spec fn visit_spec(n: VisitClientReferenceNode) -> VisitControlFlow {
    if is_internal(n) {
        VisitControlFlow::Continue
    } else {
        VisitControlFlow::Skip
    }
}

/// Only internal modules are expanded; every other role is a leaf.
pub fn visit(n: &VisitClientReferenceNode) -> (r: VisitControlFlow)
    ensures
        r == visit_spec(*n),
{
    match n.ty {
        VisitClientReferenceNodeType::Internal(..) => VisitControlFlow::Continue,
        _ => VisitControlFlow::Skip,
    }
}

/// The module whose references are a node's edges (`None` for a client
/// reference, which has none).
pub open spec fn expanded_module(n: VisitClientReferenceNode) -> Option<ModuleId> {
    match n.ty {
        VisitClientReferenceNodeType::ClientReference(_) => None,
        VisitClientReferenceNodeType::ServerComponentEntry(m) => Some(m),
        VisitClientReferenceNodeType::ServerUtilEntry(m) => Some(m),
        VisitClientReferenceNodeType::Internal(m) => Some(m),
    }
}

/// The module of a node, if it has one that expansion reads, is in the graph.
pub open spec fn node_known(g: ModuleGraph, n: VisitClientReferenceNode) -> bool {
    match expanded_module(n) {
        None => true,
        Some(m) => g.has(m),
    }
}

/// The edges of a node can be computed: its module and all it references are known.
pub open spec fn edges_resolvable(g: ModuleGraph, n: VisitClientReferenceNode) -> bool {
    match expanded_module(n) {
        None => true,
        Some(m) => g.resolvable(m),
    }
}

/// The edges of a node: each module it references, classified under its state.
pub open spec fn edges_spec(g: ModuleGraph, n: VisitClientReferenceNode) -> Seq<
    VisitClientReferenceNode,
> {
    match expanded_module(n) {
        None => Seq::empty(),
        Some(m) => Seq::new(
            g.refs_of(m).len(),
            |k: int| classify_spec(g, n.state, m, g.refs_of(m)[k]),
        ),
    }
}

/// Computes the edges of a node from the module graph.
pub fn edges(g: &ModuleGraph, n: &VisitClientReferenceNode) -> (r: Result<
    Vec<VisitClientReferenceNode>,
    EdgeResolutionError,
>)
    ensures
        r is Ok <==> edges_resolvable(*g, *n),
        r matches Ok(v) ==> v@ == edges_spec(*g, *n),
        r matches Err(e) ==> !g.has(e.module),
{
    let m = match n.ty {
        VisitClientReferenceNodeType::ClientReference(_) => {
            return Ok(Vec::new());
        },
        VisitClientReferenceNodeType::ServerComponentEntry(m) => m,
        VisitClientReferenceNodeType::ServerUtilEntry(m) => m,
        VisitClientReferenceNodeType::Internal(m) => m,
    };
    if m >= g.modules.len() {
        return Err(EdgeResolutionError { module: m });
    }
    let refs = &g.modules[m].references;
    let mut out: Vec<VisitClientReferenceNode> = Vec::new();
    let mut k: usize = 0;
    while k < refs.len()
        invariant
            g.has(m),
            expanded_module(*n) == Some(m),
            refs@ == g.refs_of(m),
            0 <= k <= refs.len(),
            out@.len() == k,
            forall|j: int| 0 <= j < k ==> g.has(#[trigger] refs@[j]),
            forall|j: int|
                0 <= j < k ==> out@[j] == classify_spec(*g, n.state, m, #[trigger] refs@[j]),
        decreases refs.len() - k,
    {
        let r = refs[k];
        if r >= g.modules.len() {
            return Err(EdgeResolutionError { module: r });
        }
        out.push(classify(g, n.state, m, r));
        k = k + 1;
    }
    assert(out@ =~= edges_spec(*g, *n));
    Ok(out)
}

/// Node equality, computed field by field.
pub fn node_eq(a: &VisitClientReferenceNode, b: &VisitClientReferenceNode) -> (r: bool)
    ensures
        r == (*a == *b),
{
    state_eq(&a.state, &b.state) && ty_eq(&a.ty, &b.ty)
}

fn state_eq(a: &VisitClientReferenceNodeState, b: &VisitClientReferenceNodeState) -> (r: bool)
    ensures
        r == (*a == *b),
{
    match (*a, *b) {
        (
            VisitClientReferenceNodeState::Entry { entry_path: x },
            VisitClientReferenceNodeState::Entry { entry_path: y },
        ) => x == y,
        (
            VisitClientReferenceNodeState::InServerComponent { server_component: x },
            VisitClientReferenceNodeState::InServerComponent { server_component: y },
        ) => x == y,
        (
            VisitClientReferenceNodeState::InServerUtil,
            VisitClientReferenceNodeState::InServerUtil,
        ) => true,
        _ => false,
    }
}

fn option_eq(a: Option<ModuleId>, b: Option<ModuleId>) -> (r: bool)
    ensures
        r == (a == b),
{
    match (a, b) {
        (Some(x), Some(y)) => x == y,
        (None, None) => true,
        _ => false,
    }
}

/// Equality of reference types, computed field by field.
pub fn reference_type_eq(a: &ClientReferenceType, b: &ClientReferenceType) -> (r: bool)
    ensures
        r == (*a == *b),
{
    match (*a, *b) {
        (
            ClientReferenceType::EcmascriptClientReference { module: ma, parent_module: pa },
            ClientReferenceType::EcmascriptClientReference { module: mb, parent_module: pb },
        ) => ma == mb && pa == pb,
        (
            ClientReferenceType::CssClientReference(x),
            ClientReferenceType::CssClientReference(y),
        ) => x == y,
        _ => false,
    }
}

fn ty_eq(a: &VisitClientReferenceNodeType, b: &VisitClientReferenceNodeType) -> (r: bool)
    ensures
        r == (*a == *b),
{
    match (*a, *b) {
        (
            VisitClientReferenceNodeType::ClientReference(x),
            VisitClientReferenceNodeType::ClientReference(y),
        ) => option_eq(x.server_component, y.server_component) && reference_type_eq(&x.ty, &y.ty),
        (
            VisitClientReferenceNodeType::ServerComponentEntry(x),
            VisitClientReferenceNodeType::ServerComponentEntry(y),
        ) => x == y,
        (
            VisitClientReferenceNodeType::ServerUtilEntry(x),
            VisitClientReferenceNodeType::ServerUtilEntry(y),
        ) => x == y,
        (VisitClientReferenceNodeType::Internal(x), VisitClientReferenceNodeType::Internal(y)) => x
            == y,
        _ => false,
    }
}

/// Whether `s` holds `n`.
pub fn contains_node(s: &Vec<VisitClientReferenceNode>, n: &VisitClientReferenceNode) -> (r: bool)
    ensures
        r == s@.contains(*n),
{
    let mut i: usize = 0;
    while i < s.len()
        invariant
            0 <= i <= s.len(),
            forall|j: int| 0 <= j < i ==> s@[j] != *n,
        decreases s.len() - i,
    {
        if node_eq(&s[i], n) {
            return true;
        }
        i = i + 1;
    }
    false
}

} // verus!
