use vstd::prelude::*;
use vstd::set_lib::{lemma_int_range, lemma_len_subset, set_int_range};
use crate::module_graph::{EdgeResolutionError, ModuleGraph};
use crate::node::{
    contains_node, edges, node_known, edges_resolvable, edges_spec, is_internal, VisitClientReferenceNode,
    VisitClientReferenceNodeState, VisitClientReferenceNodeType,
};

verus! {

/// A node that the traversal expanded, with its edges in order.
#[derive(Clone, Debug)]
pub struct Expansion {
    pub node: VisitClientReferenceNode,
    pub edges: Vec<VisitClientReferenceNode>,
}

/// The outcome of one traversal.
#[derive(Clone, Debug)]
pub struct CompletedGraph {
    /// The nodes the traversal started from.
    pub roots: Vec<VisitClientReferenceNode>,
    /// The expanded nodes with their edges, in order of expansion.
    pub expansions: Vec<Expansion>,
    /// Every node admitted during the run, each once.
    pub admitted: Vec<VisitClientReferenceNode>,
    /// The leaves (nodes that are not internal), each once, in depth-first order.
    pub order: Vec<VisitClientReferenceNode>,
}

pub open spec fn is_expanded(ex: Seq<Expansion>, x: VisitClientReferenceNode) -> bool {
    exists|i: int| 0 <= i < ex.len() && #[trigger] ex[i].node == x
}

pub open spec fn is_child(ex: Seq<Expansion>, x: VisitClientReferenceNode) -> bool {
    exists|i: int| 0 <= i < ex.len() && #[trigger] ex[i].edges@.contains(x)
}

/// A root, or an edge of an expanded node.
pub open spec fn discovered(
    roots: Seq<VisitClientReferenceNode>,
    ex: Seq<Expansion>,
    x: VisitClientReferenceNode,
) -> bool {
    roots.contains(x) || is_child(ex, x)
}

/// Every expanded node is internal, new to this run and expanded once, with
/// exactly the edges that the graph gives it.
pub open spec fn expansions_sound(
    g: ModuleGraph,
    roots: Seq<VisitClientReferenceNode>,
    prior: Seq<VisitClientReferenceNode>,
    ex: Seq<Expansion>,
) -> bool {
    &&& forall|i: int|
        0 <= i < ex.len() ==> {
            &&& is_internal(#[trigger] ex[i].node)
            &&& !prior.contains(ex[i].node)
            &&& edges_resolvable(g, ex[i].node)
            &&& ex[i].edges@ == edges_spec(g, ex[i].node)
        }
    &&& forall|i: int|
        0 <= i < ex.len() ==> roots.contains(#[trigger] ex[i].node) || is_child(
            ex.take(i),
            ex[i].node,
        )
    &&& forall|i: int, j: int| 0 <= i < j < ex.len() ==> ex[i].node != ex[j].node
}

/// `c` is the traversal from `roots` of `g`, where the nodes of `prior` were
/// already visited by an earlier run: it is closed under expansion of the
/// internal nodes, and holds nothing that was not discovered.
pub open spec fn is_completed(
    g: ModuleGraph,
    roots: Seq<VisitClientReferenceNode>,
    prior: Seq<VisitClientReferenceNode>,
    c: CompletedGraph,
) -> bool {
    &&& c.roots@ == roots
    &&& expansions_sound(g, roots, prior, c.expansions@)
    &&& c.admitted@.no_duplicates()
    &&& forall|x: VisitClientReferenceNode|
        #[trigger] c.admitted@.contains(x) <==> discovered(roots, c.expansions@, x)
    &&& forall|x: VisitClientReferenceNode|
        #[trigger] c.admitted@.contains(x) && is_internal(x) && !prior.contains(x) ==> is_expanded(
            c.expansions@,
            x,
        )
    &&& c.order@.no_duplicates()
    &&& forall|x: VisitClientReferenceNode|
        #[trigger] c.order@.contains(x) <==> c.admitted@.contains(x) && !is_internal(x)
}

spec fn internal_mods(
    adm: Seq<VisitClientReferenceNode>,
    s: VisitClientReferenceNodeState,
    n: nat,
) -> Set<int> {
    Set::new(
        |m: int|
            0 <= m < n && adm.contains(
                VisitClientReferenceNode {
                    state: s,
                    ty: VisitClientReferenceNodeType::Internal(m as usize),
                },
            ),
    )
}

proof fn lemma_internal_mods_bounded(
    adm: Seq<VisitClientReferenceNode>,
    s: VisitClientReferenceNodeState,
    n: nat,
)
    ensures
        internal_mods(adm, s, n).finite(),
        internal_mods(adm, s, n).len() <= n,
{
    lemma_int_range(0, n as int);
    lemma_len_subset(internal_mods(adm, s, n), set_int_range(0, n as int));
}

proof fn lemma_internal_mods_push(
    adm: Seq<VisitClientReferenceNode>,
    s: VisitClientReferenceNodeState,
    n: nat,
    v: VisitClientReferenceNode,
)
    requires
        !adm.contains(v),
        n <= usize::MAX,
    ensures
        internal_mods(adm, s, n).subset_of(internal_mods(adm.push(v), s, n)),
        v.state == s && v.ty is Internal && (v.ty->Internal_0 as int) < n ==> internal_mods(
            adm.push(v),
            s,
            n,
        ) == internal_mods(adm, s, n).insert(v.ty->Internal_0 as int) && !internal_mods(
            adm,
            s,
            n,
        ).contains(v.ty->Internal_0 as int),
{
    assert forall|m: int| internal_mods(adm, s, n).contains(m) implies internal_mods(
        adm.push(v),
        s,
        n,
    ).contains(m) by {
        let w = VisitClientReferenceNode {
            state: s,
            ty: VisitClientReferenceNodeType::Internal(m as usize),
        };
        let k = adm.index_of(w);
        assert(adm.push(v)[k] == w);
    }
    if v.state == s && v.ty is Internal && (v.ty->Internal_0 as int) < n {
        let m0 = v.ty->Internal_0 as int;
        assert(adm.push(v)[adm.len() as int] == v);
        assert forall|m: int| #[trigger]
            internal_mods(adm.push(v), s, n).contains(m) implies internal_mods(
            adm,
            s,
            n,
        ).insert(m0).contains(m) by {
            let w = VisitClientReferenceNode {
                state: s,
                ty: VisitClientReferenceNodeType::Internal(m as usize),
            };
            if m != m0 {
                assert(w != v);
                let k = adm.push(v).index_of(w);
                assert(k < adm.len());
                assert(adm[k] == w);
            }
        }
        assert(internal_mods(adm.push(v), s, n) =~= internal_mods(adm, s, n).insert(m0));
    }
}

proof fn lemma_push_expansion(ex: Seq<Expansion>, e: Expansion)
    ensures
        forall|x: VisitClientReferenceNode| is_child(ex, x) ==> is_child(ex.push(e), x),
        forall|x: VisitClientReferenceNode| e.edges@.contains(x) ==> is_child(ex.push(e), x),
        forall|x: VisitClientReferenceNode| is_expanded(ex, x) ==> is_expanded(ex.push(e), x),
        is_expanded(ex.push(e), e.node),
        ex.push(e).take(ex.len() as int) == ex,
{
    assert forall|x: VisitClientReferenceNode| is_child(ex, x) implies is_child(ex.push(e), x) by {
        let i = choose|i: int| 0 <= i < ex.len() && #[trigger] ex[i].edges@.contains(x);
        assert(ex.push(e)[i] == ex[i]);
    }
    assert forall|x: VisitClientReferenceNode| e.edges@.contains(x) implies is_child(
        ex.push(e),
        x,
    ) by {
        assert(ex.push(e)[ex.len() as int] == e);
    }
    assert forall|x: VisitClientReferenceNode| is_expanded(ex, x) implies is_expanded(
        ex.push(e),
        x,
    ) by {
        let i = choose|i: int| 0 <= i < ex.len() && #[trigger] ex[i].node == x;
        assert(ex.push(e)[i] == ex[i]);
    }
    assert(ex.push(e)[ex.len() as int] == e);
    assert(ex.push(e).take(ex.len() as int) =~= ex);
}

/// Every node expanded on the way to a traversal is expanded by any
/// completed traversal from the same roots.
proof fn lemma_sound_prefix_expanded(
    g: ModuleGraph,
    roots: Seq<VisitClientReferenceNode>,
    prior: Seq<VisitClientReferenceNode>,
    ex: Seq<Expansion>,
    c: CompletedGraph,
    i: int,
)
    requires
        expansions_sound(g, roots, prior, ex),
        is_completed(g, roots, prior, c),
        0 <= i < ex.len(),
    ensures
        is_expanded(c.expansions@, ex[i].node),
    decreases i,
{
    let x = ex[i].node;
    if !roots.contains(x) {
        let t = ex.take(i);
        let j = choose|j: int| 0 <= j < t.len() && #[trigger] t[j].edges@.contains(x);
        assert(t[j] == ex[j]);
        lemma_sound_prefix_expanded(g, roots, prior, ex, c, j);
        let q = choose|q: int| 0 <= q < c.expansions@.len() && #[trigger] c.expansions@[q].node == ex[j].node;
        assert(c.expansions@[q].edges@ == ex[j].edges@);
        assert(is_child(c.expansions@, x));
    }
    assert(discovered(roots, c.expansions@, x));
    assert(c.admitted@.contains(x));
}

/// A node that is a root or an edge of a node expanded on the way, internal
/// and new to this run, is expanded by any completed traversal.
proof fn lemma_discovered_expanded(
    g: ModuleGraph,
    roots: Seq<VisitClientReferenceNode>,
    prior: Seq<VisitClientReferenceNode>,
    ex: Seq<Expansion>,
    c: CompletedGraph,
    v: VisitClientReferenceNode,
)
    requires
        expansions_sound(g, roots, prior, ex),
        is_completed(g, roots, prior, c),
        discovered(roots, ex, v),
        is_internal(v),
        !prior.contains(v),
    ensures
        edges_resolvable(g, v),
{
    if !roots.contains(v) {
        let j = choose|j: int| 0 <= j < ex.len() && #[trigger] ex[j].edges@.contains(v);
        lemma_sound_prefix_expanded(g, roots, prior, ex, c, j);
        let q = choose|q: int| 0 <= q < c.expansions@.len() && #[trigger] c.expansions@[q].node == ex[j].node;
        assert(c.expansions@[q].edges@ == ex[j].edges@);
        assert(is_child(c.expansions@, v));
    }
    assert(discovered(roots, c.expansions@, v));
    assert(c.admitted@.contains(v));
    let q = choose|q: int| 0 <= q < c.expansions@.len() && #[trigger] c.expansions@[q].node == v;
    assert(edges_resolvable(g, c.expansions@[q].node));
}

/// Runs one traversal from `roots` (all internal), deduplicating nodes and
/// expanding only internal nodes that `prior` does not hold. Fails with the
/// first module that cannot be resolved.
#[verifier::rlimit(100)]
pub fn traverse(
    g: &ModuleGraph,
    roots: &Vec<VisitClientReferenceNode>,
    prior: &Vec<VisitClientReferenceNode>,
) -> (r: Result<CompletedGraph, EdgeResolutionError>)
    requires
        forall|k: int| 0 <= k < roots@.len() ==> is_internal(#[trigger] roots@[k]),
    ensures
        r matches Ok(c) ==> is_completed(*g, roots@, prior@, c),
        g.well_formed() && (forall|k: int| 0 <= k < roots@.len() ==> node_known(*g, #[trigger] roots@[k]))
            ==> r is Ok,
        r matches Err(e) ==> !g.has(e.module),
        r is Err ==> forall|c: CompletedGraph| !is_completed(*g, roots@, prior@, c),
{
    let glen = g.modules.len();
    let ghost n = glen as nat;
    let mut expansions: Vec<Expansion> = Vec::new();
    let mut admitted: Vec<VisitClientReferenceNode> = Vec::new();
    let mut order: Vec<VisitClientReferenceNode> = Vec::new();
    let mut ri: usize = 0;
    while ri < roots.len()
        invariant
            0 <= ri <= roots.len(),
            n == g.modules@.len(),
            n <= usize::MAX,
            forall|k: int| 0 <= k < roots@.len() ==> is_internal(#[trigger] roots@[k]),
            expansions_sound(*g, roots@, prior@, expansions@),
            forall|i: int|
                0 <= i < expansions@.len() ==> admitted@.contains(#[trigger] expansions@[i].node),
            admitted@.no_duplicates(),
            forall|x: VisitClientReferenceNode| #[trigger]
                admitted@.contains(x) ==> discovered(roots@, expansions@, x),
            forall|x: VisitClientReferenceNode| #[trigger]
                admitted@.contains(x) && is_internal(x) && !prior@.contains(x) ==> is_expanded(
                    expansions@,
                    x,
                ),
            order@.no_duplicates(),
            forall|x: VisitClientReferenceNode| #[trigger]
                order@.contains(x) <==> admitted@.contains(x) && !is_internal(x),
            forall|j: int| 0 <= j < ri ==> admitted@.contains(#[trigger] roots@[j]),
            forall|i: int, x: VisitClientReferenceNode|
                0 <= i < expansions@.len() && #[trigger] expansions@[i].edges@.contains(x)
                    ==> admitted@.contains(x),
        decreases roots.len() - ri,
    {
        let root = roots[ri];
        let ghost st = root.state;
        let mut stack: Vec<VisitClientReferenceNode> = Vec::new();
        stack.push(root);
        assert(stack@[0] == root);
        assert(stack@ =~= seq![root]);
        assert(roots@.contains(root));
        while stack.len() > 0
            invariant
                0 <= ri < roots.len(),
                root == roots@[ri as int],
                st == root.state,
                n == g.modules@.len(),
                n <= usize::MAX,
                forall|k: int| 0 <= k < roots@.len() ==> is_internal(#[trigger] roots@[k]),
                expansions_sound(*g, roots@, prior@, expansions@),
                forall|i: int|
                    0 <= i < expansions@.len() ==> admitted@.contains(
                        #[trigger] expansions@[i].node,
                    ),
                admitted@.no_duplicates(),
                forall|x: VisitClientReferenceNode| #[trigger]
                    admitted@.contains(x) ==> discovered(roots@, expansions@, x),
                forall|x: VisitClientReferenceNode| #[trigger]
                    admitted@.contains(x) && is_internal(x) && !prior@.contains(x) ==> is_expanded(
                        expansions@,
                        x,
                    ),
                order@.no_duplicates(),
                forall|x: VisitClientReferenceNode| #[trigger]
                    order@.contains(x) <==> admitted@.contains(x) && !is_internal(x),
                forall|j: int| 0 <= j < ri ==> admitted@.contains(#[trigger] roots@[j]),
                admitted@.contains(root) || stack@.contains(root),
                g.well_formed() && (forall|k: int| 0 <= k < roots@.len() ==> node_known(*g, #[trigger] roots@[k]))
                    ==> forall|k: int| 0 <= k < stack@.len() ==> node_known(*g, #[trigger] stack@[k]),
                forall|i: int, x: VisitClientReferenceNode|
                    0 <= i < expansions@.len() && #[trigger] expansions@[i].edges@.contains(x)
                        ==> admitted@.contains(x) || stack@.contains(x),
                forall|k: int|
                    0 <= k < stack@.len() ==> #[trigger] stack@[k] == root || is_child(
                        expansions@,
                        stack@[k],
                    ),
                forall|k: int|
                    0 <= k < stack@.len() && is_internal(#[trigger] stack@[k]) ==> stack@[k].state
                        == st,
            decreases n - internal_mods(admitted@, st, n).len(), stack@.len(),
        {
            proof {
                lemma_internal_mods_bounded(admitted@, st, n);
            }
            let ghost old_stack = stack@;
            let ghost old_adm = admitted@;
            let v = stack.pop().unwrap();
            proof {
                assert(old_stack == stack@.push(v));
                assert forall|x: VisitClientReferenceNode|
                    old_stack.contains(x) && x != v implies stack@.contains(x) by {
                    let k = old_stack.index_of(x);
                    assert(k < stack@.len());
                    assert(stack@[k] == x);
                }
                assert(old_stack[old_stack.len() - 1] == v);
            }
            if contains_node(&admitted, &v) {
                proof {
                    if g.well_formed() && (forall|k: int| 0 <= k < roots@.len() ==> node_known(*g, #[trigger] roots@[k])) {
                        assert forall|k: int| 0 <= k < stack@.len() implies node_known(
                            *g,
                            #[trigger] stack@[k],
                        ) by {
                            assert(old_stack[k] == stack@[k]);
                        }
                    }
                }
                continue;
            }
            admitted.push(v);
            proof {
                lemma_internal_mods_push(old_adm, st, n, v);
                lemma_internal_mods_bounded(admitted@, st, n);
                assert(admitted@.last() == v);
                assert(roots@[ri as int] == root);
                assert(discovered(roots@, expansions@, v));
                assert forall|x: VisitClientReferenceNode|
                    old_adm.contains(x) implies admitted@.contains(x) by {
                    let k = old_adm.index_of(x);
                    assert(admitted@[k] == x);
                }
                assert forall|x: VisitClientReferenceNode|
                    admitted@.contains(x) implies old_adm.contains(x) || x == v by {
                    let k = admitted@.index_of(x);
                    if k < old_adm.len() {
                        assert(old_adm[k] == x);
                    }
                }
            }
            let ghost ex_before = expansions@;
            let ghost order_before = order@;
            if is_internal_node(&v) {
                if !contains_node(prior, &v) {
                    let es = match edges(g, &v) {
                        Ok(es) => es,
                        Err(e) => {
                            proof {
                                assert(old_stack[old_stack.len() - 1] == v);
                                assert(roots@[ri as int] == root);
                                assert(discovered(roots@, expansions@, v));
                                assert forall|c: CompletedGraph| !is_completed(*g, roots@, prior@, c) by {
                                    if is_completed(*g, roots@, prior@, c) {
                                        lemma_discovered_expanded(*g, roots@, prior@, expansions@, c, v);
                                    }
                                }
                                if g.well_formed() && (forall|k: int| 0 <= k < roots@.len() ==> node_known(*g, #[trigger] roots@[k])) {
                                    assert(node_known(*g, old_stack[old_stack.len() - 1]));
                                    let m = v.ty->Internal_0;
                                    assert(g.resolvable(m));
                                }
                            }
                            return Err(e);
                        },
                    };
                    proof {
                        assert(v.state == st);
                        assert((v.ty->Internal_0 as int) < n);
                        assert(internal_mods(admitted@, st, n).len() == internal_mods(
                            old_adm,
                            st,
                            n,
                        ).len() + 1);
                    }
                    let ghost mid_stack = stack@;
                    let mut j: usize = es.len();
                    while j > 0
                        invariant
                            0 <= j <= es@.len(),
                            stack@.len() == mid_stack.len() + (es@.len() - j),
                            forall|k: int| 0 <= k < mid_stack.len() ==> stack@[k] == mid_stack[k],
                            forall|k: int| j <= k < es@.len() ==> stack@.contains(#[trigger] es@[k]),
                            forall|k: int|
                                mid_stack.len() <= k < stack@.len() ==> es@.contains(#[trigger] stack@[k]),
                        decreases j,
                    {
                        j = j - 1;
                        let ghost before = stack@;
                        stack.push(es[j]);
                        proof {
                            assert(stack@[before.len() as int] == es@[j as int]);
                            assert forall|k: int| (j + 1) <= k < es@.len() implies stack@.contains(
                                #[trigger] es@[k],
                            ) by {
                                let t = before.index_of(es@[k]);
                                assert(stack@[t] == es@[k]);
                            }
                        }
                    }
                    proof {
                        if g.well_formed() && (forall|k: int| 0 <= k < roots@.len() ==> node_known(*g, #[trigger] roots@[k])) {
                            assert forall|k: int| 0 <= k < stack@.len() implies node_known(
                                *g,
                                #[trigger] stack@[k],
                            ) by {
                                if k < mid_stack.len() {
                                    assert(stack@[k] == mid_stack[k]);
                                    assert(old_stack[k] == mid_stack[k]);
                                } else {
                                    let t = es@.index_of(stack@[k]);
                                    assert(es@[t] == edges_spec(*g, v)[t]);
                                    let m = v.ty->Internal_0;
                                    assert(g.has(g.refs_of(m)[t]));
                                }
                            }
                        }
                    }
                    let ghost old_ex = expansions@;
                    let e = Expansion { node: v, edges: es };
                    proof {
                        lemma_push_expansion(old_ex, e);
                        assert(v == root || is_child(old_ex, v));
                    }
                    expansions.push(e);
                    proof {
                        assert(expansions@ == old_ex.push(e));
                        assert(expansions@[old_ex.len() as int] == e);
                        assert forall|i: int, x: VisitClientReferenceNode|
                            0 <= i < expansions@.len() && #[trigger] expansions@[i].edges@.contains(
                                x,
                            ) implies admitted@.contains(x) || stack@.contains(x) by {
                            if i < old_ex.len() {
                                assert(expansions@[i] == old_ex[i]);
                                if !admitted@.contains(x) {
                                    assert(old_stack.contains(x));
                                    if x != v {
                                        assert(mid_stack.contains(x));
                                        let t = mid_stack.index_of(x);
                                        assert(stack@[t] == x);
                                    }
                                }
                            } else {
                                let t = es@.index_of(x);
                                assert(stack@.contains(es@[t]));
                            }
                        }
                        assert forall|k: int| 0 <= k < stack@.len() implies #[trigger] stack@[k]
                            == root || is_child(expansions@, stack@[k]) by {
                            if k < mid_stack.len() {
                                assert(stack@[k] == mid_stack[k]);
                                assert(old_stack[k] == mid_stack[k]);
                            } else {
                                assert(es@.contains(stack@[k]));
                            }
                        }
                        assert forall|k: int|
                            0 <= k < stack@.len() && is_internal(#[trigger] stack@[k]) implies stack@[k].state
                                == st by {
                            if k < mid_stack.len() {
                                assert(stack@[k] == mid_stack[k]);
                                assert(old_stack[k] == mid_stack[k]);
                            } else {
                                let t = es@.index_of(stack@[k]);
                                assert(es@[t] == edges_spec(*g, v)[t]);
                            }
                        }
                        assert forall|i: int, j2: int|
                            0 <= i < j2 < expansions@.len() implies expansions@[i].node
                                != expansions@[j2].node by {
                            if j2 == old_ex.len() {
                                assert(expansions@[i] == old_ex[i]);
                                assert(old_adm.contains(old_ex[i].node));
                            } else {
                                assert(expansions@[i] == old_ex[i]);
                                assert(expansions@[j2] == old_ex[j2]);
                            }
                        }
                        assert forall|i: int|
                            0 <= i < expansions@.len() implies roots@.contains(
                                #[trigger] expansions@[i].node,
                            ) || is_child(expansions@.take(i), expansions@[i].node) by {
                            if i < old_ex.len() {
                                assert(expansions@[i] == old_ex[i]);
                                assert(expansions@.take(i) =~= old_ex.take(i));
                            } else {
                                assert(expansions@.take(i) =~= old_ex);
                                if v == root {
                                    assert(roots@[ri as int] == v);
                                }
                            }
                        }
                        assert forall|i: int|
                            0 <= i < expansions@.len() implies {
                                &&& is_internal(#[trigger] expansions@[i].node)
                                &&& !prior@.contains(expansions@[i].node)
                                &&& edges_resolvable(*g, expansions@[i].node)
                                &&& expansions@[i].edges@ == edges_spec(*g, expansions@[i].node)
                            } by {
                            if i < old_ex.len() {
                                assert(expansions@[i] == old_ex[i]);
                            }
                        }
                    }
                } else {
                    proof {
                        assert forall|i: int, x: VisitClientReferenceNode|
                            0 <= i < expansions@.len() && #[trigger] expansions@[i].edges@.contains(
                                x,
                            ) implies admitted@.contains(x) || stack@.contains(x) by {
                            if !admitted@.contains(x) {
                                assert(old_stack.contains(x));
                            }
                        }
                        assert forall|k: int| 0 <= k < stack@.len() implies #[trigger] stack@[k]
                            == root || is_child(expansions@, stack@[k]) by {
                            assert(old_stack[k] == stack@[k]);
                        }
                        if g.well_formed() && (forall|k: int| 0 <= k < roots@.len() ==> node_known(*g, #[trigger] roots@[k])) {
                            assert forall|k: int| 0 <= k < stack@.len() implies node_known(
                                *g,
                                #[trigger] stack@[k],
                            ) by {
                                assert(old_stack[k] == stack@[k]);
                            }
                        }
                        assert forall|k: int|
                            0 <= k < stack@.len() && is_internal(#[trigger] stack@[k]) implies stack@[k].state
                                == st by {
                            assert(old_stack[k] == stack@[k]);
                        }
                    }
                }
            } else {
                let ghost old_order = order@;
                order.push(v);
                proof {
                    assert(order@.last() == v);
                    assert forall|i: int, j: int|
                        0 <= i < order@.len() && 0 <= j < order@.len() && i != j implies order@[i]
                            != order@[j] by {
                        if i < old_order.len() {
                            assert(old_order[i] == order@[i]);
                            assert(old_order.contains(order@[i]));
                        }
                        if j < old_order.len() {
                            assert(old_order[j] == order@[j]);
                            assert(old_order.contains(order@[j]));
                        }
                    }
                    assert forall|x: VisitClientReferenceNode|
                        old_order.contains(x) implies order@.contains(x) by {
                        let k = old_order.index_of(x);
                        assert(order@[k] == x);
                    }
                    assert forall|x: VisitClientReferenceNode|
                        order@.contains(x) implies old_order.contains(x) || x == v by {
                        let k = order@.index_of(x);
                        if k < old_order.len() {
                            assert(old_order[k] == x);
                        }
                    }
                    assert forall|i: int, x: VisitClientReferenceNode|
                        0 <= i < expansions@.len() && #[trigger] expansions@[i].edges@.contains(x)
                            implies admitted@.contains(x) || stack@.contains(x) by {
                        if !admitted@.contains(x) {
                            assert(old_stack.contains(x));
                        }
                    }
                    assert forall|k: int| 0 <= k < stack@.len() implies #[trigger] stack@[k]
                        == root || is_child(expansions@, stack@[k]) by {
                        assert(old_stack[k] == stack@[k]);
                    }
                    if g.well_formed() && (forall|k: int| 0 <= k < roots@.len() ==> node_known(*g, #[trigger] roots@[k])) {
                        assert forall|k: int| 0 <= k < stack@.len() implies node_known(
                            *g,
                            #[trigger] stack@[k],
                        ) by {
                            assert(old_stack[k] == stack@[k]);
                        }
                    }
                    assert forall|k: int|
                        0 <= k < stack@.len() && is_internal(#[trigger] stack@[k]) implies stack@[k].state
                            == st by {
                        assert(old_stack[k] == stack@[k]);
                    }
                }
            }
            proof {
                lemma_internal_mods_bounded(old_adm, st, n);
                lemma_len_subset(internal_mods(old_adm, st, n), internal_mods(admitted@, st, n));
                assert forall|x: VisitClientReferenceNode|
                    #[trigger] order@.contains(x) <==> admitted@.contains(x) && !is_internal(x) by {
                    if x != v {
                        assert(admitted@.contains(x) == old_adm.contains(x));
                        assert(order@.contains(x) == order_before.contains(x));
                    } else if order_before.contains(x) {
                        assert(old_adm.contains(x));
                    }
                }
                assert forall|x: VisitClientReferenceNode| #[trigger]
                    admitted@.contains(x) implies discovered(roots@, expansions@, x) by {
                    if old_adm.contains(x) {
                        assert(discovered(roots@, ex_before, x));
                    }
                }
                assert forall|x: VisitClientReferenceNode| #[trigger]
                    admitted@.contains(x) && is_internal(x) && !prior@.contains(x) implies is_expanded(
                    expansions@,
                    x,
                ) by {
                    if old_adm.contains(x) {
                        assert(is_expanded(ex_before, x));
                    }
                }
            }
        }
        ri = ri + 1;
    }
    Ok(CompletedGraph { roots: roots.clone(), expansions, admitted, order })
}

fn is_internal_node(v: &VisitClientReferenceNode) -> (r: bool)
    ensures
        r == is_internal(*v),
{
    match v.ty {
        VisitClientReferenceNodeType::Internal(_) => true,
        _ => false,
    }
}

} // verus!
