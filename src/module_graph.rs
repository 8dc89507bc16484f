use vstd::prelude::*;

verus! {

/// Identity of a module: its index in a [`ModuleGraph`].
pub type ModuleId = usize;

/// The kinds of module that the classifier tells apart.
#[derive(Clone, Copy, Debug, PartialEq, Eq)]
pub enum ModuleKind {
    /// A client-reference proxy of an ECMAScript module.
    EcmascriptClientReference,
    /// A CSS module, which also crosses the boundary.
    CssModule,
    /// A server component: the root of a new scope.
    ServerComponent,
    /// Any other module.
    Other,
}

/// What the graph knows of one module.
#[derive(Clone, Debug)]
pub struct ModuleInfo {
    pub kind: ModuleKind,
    /// The fully resolved path of the module, as an identity.
    pub path: u64,
    /// The modules that this one references directly, in order.
    pub references: Vec<ModuleId>,
}

/// The module provider: every module with its kind, resolved path and direct
/// references. A reference to an index outside the graph cannot be resolved.
#[derive(Clone, Debug)]
pub struct ModuleGraph {
    pub modules: Vec<ModuleInfo>,
}

/// A module, or a module referenced by it, is not part of the graph.
#[derive(Clone, Copy, Debug, PartialEq, Eq)]
pub struct EdgeResolutionError {
    /// The module id that could not be resolved.
    pub module: ModuleId,
}

impl ModuleGraph {
    pub open spec fn has(&self, m: ModuleId) -> bool {
        m < self.modules@.len()
    }

    pub open spec fn kind_of(&self, m: ModuleId) -> ModuleKind {
        self.modules@[m as int].kind
    }

    pub open spec fn path_of(&self, m: ModuleId) -> u64 {
        self.modules@[m as int].path
    }

    pub open spec fn refs_of(&self, m: ModuleId) -> Seq<ModuleId> {
        self.modules@[m as int].references@
    }

    /// The module is known and so is every module it references.
    pub open spec fn resolvable(&self, m: ModuleId) -> bool {
        &&& self.has(m)
        &&& forall|k: int| 0 <= k < self.refs_of(m).len() ==> self.has(#[trigger] self.refs_of(m)[k])
    }

    /// Every module references only modules of the graph.
    pub open spec fn well_formed(&self) -> bool {
        forall|m: ModuleId, k: int|
            #![trigger self.refs_of(m)[k]]
            self.has(m) && 0 <= k < self.refs_of(m).len() ==> self.has(self.refs_of(m)[k])
    }

    /// The resolved path of a module.
    pub fn path(&self, m: ModuleId) -> (r: Result<u64, EdgeResolutionError>)
        ensures
            r is Ok <==> self.has(m),
            r matches Ok(p) ==> p == self.path_of(m),
            r matches Err(e) ==> e.module == m,
    {
        if m < self.modules.len() {
            Ok(self.modules[m].path)
        } else {
            Err(EdgeResolutionError { module: m })
        }
    }
}

} // verus!
