//! The order in which packages are built and unpacked.
//!
//! A walk visits a package's dependencies before the package itself and
//! visits nothing twice, so that in its result every dependency stands
//! before its dependents.

use vstd::prelude::*;
use crate::graph::{all_below, extends, graph_wf, node_wf, PackageGraph};
use crate::package::PackageView;

verus! {

/// Which dependencies a walk follows, and in which order.
#[derive(Clone, Copy, Debug, PartialEq, Eq, Structural)]
pub enum DepOrder {
    /// Run-time dependencies, then build-time dependencies.
    RunThenBuild,
    /// Build-time dependencies, then run-time dependencies.
    BuildThenRun,
    /// Run-time dependencies only.
    RunOnly,
}

/// The dependencies of `p` that a walk follows, in the order in which it follows them.
pub open spec fn followed(p: PackageView, mode: DepOrder) -> Seq<usize> {
    match mode {
        DepOrder::RunThenBuild => p.run_deps + p.build_deps,
        DepOrder::BuildThenRun => p.build_deps + p.run_deps,
        DepOrder::RunOnly => p.run_deps,
    }
}

/// The state of a walk.
pub struct Walk {
    /// Which packages the walk has entered.
    pub visited: Seq<bool>,
    /// The packages the walk has left, in that order.
    pub order: Seq<usize>,
}

/// Visits package `idx`: first what it depends on, then the package itself.
pub open spec fn visit_spec(nodes: Seq<PackageView>, mode: DepOrder, w: Walk, idx: usize) -> Walk
    decreases idx + 1, 0int,
{
    if w.visited[idx as int] {
        w
    } else {
        let entered = Walk { visited: w.visited.update(idx as int, true), order: w.order };
        let done = visit_deps_spec(
            nodes,
            mode,
            entered,
            idx,
            followed(nodes[idx as int], mode).len() as int,
        );
        Walk { visited: done.visited, order: done.order.push(idx) }
    }
}

/// Visits the first `n` dependencies of package `parent`.
pub open spec fn visit_deps_spec(
    nodes: Seq<PackageView>,
    mode: DepOrder,
    w: Walk,
    parent: usize,
    n: int,
) -> Walk
    decreases parent, n,
{
    if n <= 0 {
        w
    } else {
        let before = visit_deps_spec(nodes, mode, w, parent, n - 1);
        let d = followed(nodes[parent as int], mode)[n - 1];
        if d < parent {
            visit_spec(nodes, mode, before, d)
        } else {
            before
        }
    }
}

/// Visits the first `n` packages of `roots`.
pub open spec fn visit_roots_spec(
    nodes: Seq<PackageView>,
    mode: DepOrder,
    w: Walk,
    roots: Seq<usize>,
    n: int,
) -> Walk
    decreases n,
{
    if n <= 0 {
        w
    } else {
        visit_spec(nodes, mode, visit_roots_spec(nodes, mode, w, roots, n - 1), roots[n - 1])
    }
}

/// The walk that has entered nothing.
pub open spec fn fresh_walk(nodes: Seq<PackageView>) -> Walk {
    Walk { visited: Seq::new(nodes.len(), |i: int| false), order: Seq::empty() }
}

/// The closure of `roots`: every package that `roots` reach, each once, dependencies first.
pub open spec fn closure_spec(nodes: Seq<PackageView>, mode: DepOrder, roots: Seq<usize>) -> Seq<
    usize,
> {
    visit_roots_spec(nodes, mode, fresh_walk(nodes), roots, roots.len() as int).order
}

/// `d` stands in `order` before position `p`.
pub open spec fn stands_before(order: Seq<usize>, d: usize, p: int) -> bool {
    exists|q: int| 0 <= q < p && q < order.len() && order[q] == d
}

/// In `order`, whatever a package depends on stands before it.
pub open spec fn deps_first(nodes: Seq<PackageView>, mode: DepOrder, order: Seq<usize>) -> bool {
    forall|p: int, k: int|
        0 <= p < order.len() && 0 <= k < followed(nodes[order[p] as int], mode).len()
            ==> stands_before(order, #[trigger] followed(nodes[order[p] as int], mode)[k], p)
}

/// What holds of a walk between two visits, all packages below `bound` that
/// were entered having been left.
pub open spec fn walk_ok(nodes: Seq<PackageView>, mode: DepOrder, w: Walk, bound: int) -> bool {
    &&& w.visited.len() == nodes.len()
    &&& forall|p: int|
        0 <= p < w.order.len() ==> (#[trigger] w.order[p]) < nodes.len() && w.visited[w.order[p] as int]
    &&& w.order.no_duplicates()
    &&& forall|v: int|
        0 <= v < bound && v < nodes.len() && #[trigger] w.visited[v] ==> w.order.contains(
            v as usize,
        )
    &&& deps_first(nodes, mode, w.order)
}

/// What a visit of packages up to `top` changes: the order grows at its
/// end, and only by packages not entered before, none above `top`.
pub open spec fn walk_step(before: Walk, after: Walk, top: int) -> bool {
    &&& extends(before.order, after.order)
    &&& after.visited.len() == before.visited.len()
    &&& forall|v: int|
        0 <= v < before.visited.len() && #[trigger] before.visited[v] ==> after.visited[v]
    &&& forall|v: int|
        0 <= v < after.visited.len() && #[trigger] after.visited[v] ==> before.visited[v] || v
            <= top
    &&& forall|x: usize| #[trigger]
        after.order.contains(x) ==> before.order.contains(x) || (!before.visited[x as int] && x
            <= top)
}

/// The dependencies that a walk follows lie before the package in the graph.
pub proof fn lemma_followed_below(nodes: Seq<PackageView>, mode: DepOrder, idx: int)
    requires
        graph_wf(nodes),
        0 <= idx < nodes.len(),
    ensures
        all_below(followed(nodes[idx], mode), idx),
{
    assert(node_wf(nodes, idx));
    let p = nodes[idx];
    let deps = followed(p, mode);
    assert forall|k: int| 0 <= k < deps.len() implies (#[trigger] deps[k]) < idx by {
        match mode {
            DepOrder::RunThenBuild => {
                if k < p.run_deps.len() {
                    assert(deps[k] == p.run_deps[k]);
                } else {
                    assert(deps[k] == p.build_deps[k - p.run_deps.len()]);
                }
            },
            DepOrder::BuildThenRun => {
                if k < p.build_deps.len() {
                    assert(deps[k] == p.build_deps[k]);
                } else {
                    assert(deps[k] == p.run_deps[k - p.build_deps.len()]);
                }
            },
            DepOrder::RunOnly => {
                assert(deps[k] == p.run_deps[k]);
            },
        }
    }
}

/// Growing an order at its end keeps dependencies first.
proof fn lemma_stands_before_extends(a: Seq<usize>, b: Seq<usize>, d: usize, p: int)
    requires
        extends(a, b),
        stands_before(a, d, p),
    ensures
        stands_before(b, d, p),
{
    let q = choose|q: int| 0 <= q < p && q < a.len() && a[q] == d;
    assert(b[q] == d);
}

/// A member of an order stands before its end.
proof fn lemma_member_stands_before(order: Seq<usize>, d: usize)
    requires
        order.contains(d),
    ensures
        stands_before(order, d, order.len() as int),
{
    let q = choose|q: int| 0 <= q < order.len() && order[q] == d;
    assert(0 <= q < order.len() && order[q] == d);
}

/// The dependencies of package `idx` that a walk follows.
fn followed_deps(graph: &PackageGraph, mode: DepOrder, idx: usize) -> (deps: Vec<usize>)
    requires
        idx < graph@.len(),
    ensures
        deps@ == followed(graph@[idx as int], mode),
{
    let p = &graph.nodes[idx];
    let mut deps: Vec<usize> = Vec::new();
    let first = match mode {
        DepOrder::BuildThenRun => &p.build_deps,
        _ => &p.run_deps,
    };
    let mut k: usize = 0;
    while k < first.len()
        invariant
            k <= first@.len(),
            deps@ == first@.subrange(0, k as int),
        decreases first@.len() - k,
    {
        deps.push(first[k]);
        k = k + 1;
        assert(deps@ =~= first@.subrange(0, k as int));
    }
    assert(first@.subrange(0, first@.len() as int) =~= first@);
    match mode {
        DepOrder::RunOnly => {},
        _ => {
            let second = match mode {
                DepOrder::BuildThenRun => &p.run_deps,
                _ => &p.build_deps,
            };
            let mut j: usize = 0;
            while j < second.len()
                invariant
                    j <= second@.len(),
                    deps@ == first@ + second@.subrange(0, j as int),
                decreases second@.len() - j,
            {
                deps.push(second[j]);
                j = j + 1;
                assert(deps@ =~= first@ + second@.subrange(0, j as int));
            }
            assert(second@.subrange(0, second@.len() as int) =~= second@);
        },
    }
    deps
}

/// Visits package `idx`: first what it depends on, then the package itself.
///
/// Packages are told apart by their place in the graph, which in a
/// well-formed graph is to tell them apart by hash.
#[verifier::loop_isolation(false)]
fn collect_closure(
    graph: &PackageGraph,
    mode: DepOrder,
    idx: usize,
    visited: &mut Vec<bool>,
    order: &mut Vec<usize>,
    Ghost(bound): Ghost<int>,
)
    requires
        graph.wf(),
        idx < graph@.len(),
        idx < bound,
        walk_ok(graph@, mode, Walk { visited: old(visited)@, order: old(order)@ }, bound),
    ensures
        visit_spec(graph@, mode, Walk { visited: old(visited)@, order: old(order)@ }, idx) == (
            Walk { visited: final(visited)@, order: final(order)@ }
        ),
        walk_ok(graph@, mode, Walk { visited: final(visited)@, order: final(order)@ }, bound),
        walk_step(
            Walk { visited: old(visited)@, order: old(order)@ },
            Walk { visited: final(visited)@, order: final(order)@ },
            idx as int,
        ),
        final(order)@.contains(idx),
    decreases idx,
{
    let ghost nodes = graph@;
    let ghost w0 = Walk { visited: visited@, order: order@ };
    if visited[idx] {
        return ;
    }
    visited.set(idx, true);
    let ghost w1 = Walk { visited: visited@, order: order@ };
    let deps = followed_deps(graph, mode, idx);
    proof {
        lemma_followed_below(nodes, mode, idx as int);
        assert(walk_ok(nodes, mode, w1, idx as int));
    }
    let mut k: usize = 0;
    while k < deps.len()
        invariant
            k <= deps@.len(),
            deps@ == followed(nodes[idx as int], mode),
            all_below(deps@, idx as int),
            visit_deps_spec(nodes, mode, w1, idx, k as int) == (Walk {
                visited: visited@,
                order: order@,
            }),
            walk_ok(nodes, mode, Walk { visited: visited@, order: order@ }, idx as int),
            walk_step(w1, Walk { visited: visited@, order: order@ }, idx - 1),
            visited@[idx as int],
            forall|j: int| 0 <= j < k ==> order@.contains(#[trigger] deps@[j]),
        decreases deps@.len() - k,
    {
        let ghost before = Walk { visited: visited@, order: order@ };
        let d = deps[k];
        collect_closure(graph, mode, d, visited, order, Ghost(idx as int));
        proof {
            let after = Walk { visited: visited@, order: order@ };
            assert forall|j: int| 0 <= j < k + 1 implies order@.contains(
                #[trigger] deps@[j],
            ) by {
                if j < k {
                    let q = choose|q: int| 0 <= q < before.order.len() && before.order[q] == deps@[j];
                    assert(after.order[q] == deps@[j]);
                }
            }
            assert(walk_step(w1, after, idx - 1));
        }
        k = k + 1;
    }
    let ghost w2 = Walk { visited: visited@, order: order@ };
    order.push(idx);
    proof {
        let w3 = Walk { visited: visited@, order: order@ };
        let last = w2.order.len() as int;
        assert(w3.order[last] == idx);
        // the package itself was not left before
        assert(!w2.order.contains(idx)) by {
            if w2.order.contains(idx) {
                assert(w1.order.contains(idx) || (!w1.visited[idx as int] && idx <= idx - 1));
                let q = choose|q: int| 0 <= q < w0.order.len() && w0.order[q] == idx;
                assert(w0.visited[w0.order[q] as int]);
            }
        }
        assert(w3.order.no_duplicates()) by {
            assert forall|a: int, b: int|
                0 <= a < w3.order.len() && 0 <= b < w3.order.len() && a != b implies w3.order[a]
                != w3.order[b] by {
                if a < last && b < last {
                    assert(w2.order[a] != w2.order[b]);
                } else if a < last {
                    assert(w2.order[a] == w3.order[a]);
                } else {
                    assert(w2.order[b] == w3.order[b]);
                }
            }
        }
        assert forall|p: int| 0 <= p < w3.order.len() implies (#[trigger] w3.order[p])
            < nodes.len() && w3.visited[w3.order[p] as int] by {
            if p < last {
                assert(w3.order[p] == w2.order[p]);
            }
        }
        assert(walk_step(w0, w3, idx as int)) by {
            assert(extends(w0.order, w3.order)) by {
                assert forall|q: int| 0 <= q < w0.order.len() implies w0.order[q]
                    == w3.order[q] by {
                    assert(w1.order[q] == w2.order[q]);
                    assert(w2.order[q] == w3.order[q]);
                }
            }
            assert forall|v: int|
                0 <= v < w0.visited.len() && #[trigger] w0.visited[v] implies w3.visited[v] by {
                assert(w1.visited[v]);
            }
            assert forall|x: usize| #[trigger] w3.order.contains(x) implies w0.order.contains(x)
                || (!w0.visited[x as int] && x <= idx) by {
                let q = choose|q: int| 0 <= q < w3.order.len() && w3.order[q] == x;
                if q < last {
                    assert(w2.order[q] == x);
                    assert(w2.order.contains(x));
                    assert(w1.order.contains(x) || (!w1.visited[x as int] && x <= idx - 1));
                } else {
                    assert(x == idx);
                }
            }
            assert forall|v: int|
                0 <= v < w3.visited.len() && #[trigger] w3.visited[v] implies w0.visited[v] || v
                <= idx by {
                assert(w2.visited[v] ==> w1.visited[v] || v <= idx - 1);
            }
        }
        assert forall|v: int|
            0 <= v < bound && v < nodes.len() && #[trigger] w3.visited[v] implies w3.order.contains(
            v as usize,
        ) by {
            if v == idx {
                assert(w3.order[last] == v as usize);
            } else {
                assert(w2.visited[v] ==> w1.visited[v] || v <= idx - 1);
                if w0.visited[v] {
                    assert(w0.order.contains(v as usize));
                    let q = choose|q: int| 0 <= q < w0.order.len() && w0.order[q] == v as usize;
                    assert(w3.order[q] == v as usize);
                } else {
                    assert(w2.order.contains(v as usize));
                    let q = choose|q: int| 0 <= q < w2.order.len() && w2.order[q] == v as usize;
                    assert(w3.order[q] == v as usize);
                }
            }
        }
        assert(deps_first(nodes, mode, w3.order)) by {
            assert forall|p: int, j: int|
                0 <= p < w3.order.len() && 0 <= j < followed(
                    nodes[w3.order[p] as int],
                    mode,
                ).len() implies stands_before(
                w3.order,
                #[trigger] followed(nodes[w3.order[p] as int], mode)[j],
                p,
            ) by {
                if p < last {
                    assert(w3.order[p] == w2.order[p]);
                    lemma_stands_before_extends(
                        w2.order,
                        w3.order,
                        followed(nodes[w2.order[p] as int], mode)[j],
                        p,
                    );
                } else {
                    lemma_member_stands_before(w2.order, deps@[j]);
                    lemma_stands_before_extends(w2.order, w3.order, deps@[j], last);
                }
            }
        }
        assert(w3.order.contains(idx));
    }
}

/// The packages that `roots` reach, each once, every dependency before its dependents.
#[verifier::loop_isolation(false)]
pub fn closure_order(graph: &PackageGraph, mode: DepOrder, roots: &Vec<usize>) -> (order: Vec<
    usize,
>)
    requires
        graph.wf(),
        all_below(roots@, graph@.len() as int),
    ensures
        order@ == closure_spec(graph@, mode, roots@),
        order@.no_duplicates(),
        all_below(order@, graph@.len() as int),
        deps_first(graph@, mode, order@),
        forall|k: int| 0 <= k < roots@.len() ==> order@.contains(#[trigger] roots@[k]),
{
    let n: usize = graph.nodes.len();
    let mut visited: Vec<bool> = Vec::new();
    let mut i: usize = 0;
    while i < n
        invariant
            i <= n,
            visited@.len() == i,
            forall|k: int| 0 <= k < i ==> !visited@[k],
        decreases n - i,
    {
        visited.push(false);
        i = i + 1;
    }
    assert(visited@ =~= fresh_walk(graph@).visited);
    let mut order: Vec<usize> = Vec::new();
    let ghost bound = n as int;
    let mut r: usize = 0;
    assert(order@ =~= fresh_walk(graph@).order);
    while r < roots.len()
        invariant
            r <= roots@.len(),
            visit_roots_spec(graph@, mode, fresh_walk(graph@), roots@, r as int) == (Walk {
                visited: visited@,
                order: order@,
            }),
            walk_ok(graph@, mode, Walk { visited: visited@, order: order@ }, bound),
            forall|k: int| 0 <= k < r ==> order@.contains(#[trigger] roots@[k]),
        decreases roots@.len() - r,
    {
        let ghost before = order@;
        collect_closure(graph, mode, roots[r], &mut visited, &mut order, Ghost(bound));
        proof {
            assert forall|k: int| 0 <= k < r + 1 implies order@.contains(
                #[trigger] roots@[k],
            ) by {
                if k < r {
                    let q = choose|q: int| 0 <= q < before.len() && before[q] == roots@[k];
                    assert(order@[q] == roots@[k]);
                }
            }
        }
        r = r + 1;
    }
    order
}

/// The order in which the packages that `roots` reach are built: run-time
/// dependencies before build-time dependencies, both before the package.
pub fn build_order(graph: &PackageGraph, roots: &Vec<usize>) -> (order: Vec<usize>)
    requires
        graph.wf(),
        all_below(roots@, graph@.len() as int),
    ensures
        order@ == closure_spec(graph@, DepOrder::RunThenBuild, roots@),
        order@.no_duplicates(),
        all_below(order@, graph@.len() as int),
        deps_first(graph@, DepOrder::RunThenBuild, order@),
        forall|k: int| 0 <= k < roots@.len() ==> order@.contains(#[trigger] roots@[k]),
{
    closure_order(graph, DepOrder::RunThenBuild, roots)
}

/// The packages needed to run `packages`: what they reach through run-time
/// dependencies alone, each once, every dependency before its dependents.
pub fn compute_runtime_closure(graph: &PackageGraph, packages: &Vec<usize>) -> (order: Vec<usize>)
    requires
        graph.wf(),
        all_below(packages@, graph@.len() as int),
    ensures
        order@ == closure_spec(graph@, DepOrder::RunOnly, packages@),
        order@.no_duplicates(),
        all_below(order@, graph@.len() as int),
        deps_first(graph@, DepOrder::RunOnly, order@),
        forall|k: int| 0 <= k < packages@.len() ==> order@.contains(#[trigger] packages@[k]),
{
    closure_order(graph, DepOrder::RunOnly, packages)
}

/// The order in which artifacts are unpacked into the root of the build of
/// package `idx`: everything that its dependencies reach, build-time
/// dependencies first, the package itself left out.
pub fn install_order(graph: &PackageGraph, idx: usize) -> (order: Vec<usize>)
    requires
        graph.wf(),
        idx < graph@.len(),
    ensures
        order@ == closure_spec(
            graph@,
            DepOrder::BuildThenRun,
            followed(graph@[idx as int], DepOrder::BuildThenRun),
        ),
        order@.no_duplicates(),
        all_below(order@, idx as int),
        deps_first(graph@, DepOrder::BuildThenRun, order@),
        !order@.contains(idx),
{
    let deps = followed_deps(graph, DepOrder::BuildThenRun, idx);
    proof {
        lemma_followed_below(graph@, DepOrder::BuildThenRun, idx as int);
    }
    let order = closure_order(graph, DepOrder::BuildThenRun, &deps);
    proof {
        lemma_closure_below(graph@, DepOrder::BuildThenRun, deps@, deps@.len() as int, idx as int);
        if order@.contains(idx) {
            let q = choose|q: int| 0 <= q < order@.len() && order@[q] == idx;
            assert(order@[q] < idx);
        }
    }
    order
}

/// A walk from roots below `top` leaves only packages below `top`.
pub proof fn lemma_closure_below(
    nodes: Seq<PackageView>,
    mode: DepOrder,
    roots: Seq<usize>,
    n: int,
    top: int,
)
    requires
        graph_wf(nodes),
        0 <= n <= roots.len(),
        top <= nodes.len(),
        all_below(roots, top),
    ensures
        all_below(visit_roots_spec(nodes, mode, fresh_walk(nodes), roots, n).order, top),
    decreases n,
{
    if n > 0 {
        lemma_closure_below(nodes, mode, roots, n - 1, top);
        let before = visit_roots_spec(nodes, mode, fresh_walk(nodes), roots, n - 1);
        lemma_visit_below(nodes, mode, before, roots[n - 1], top);
    }
}

/// A visit of a package below `top` leaves only packages below `top`.
pub proof fn lemma_visit_below(
    nodes: Seq<PackageView>,
    mode: DepOrder,
    w: Walk,
    idx: usize,
    top: int,
)
    requires
        graph_wf(nodes),
        idx < top <= nodes.len(),
        all_below(w.order, top),
    ensures
        all_below(visit_spec(nodes, mode, w, idx).order, top),
    decreases idx + 1, 0int,
{
    if !w.visited[idx as int] {
        let entered = Walk { visited: w.visited.update(idx as int, true), order: w.order };
        lemma_visit_deps_below(
            nodes,
            mode,
            entered,
            idx,
            followed(nodes[idx as int], mode).len() as int,
            top,
        );
    }
}

/// Visits of the dependencies of a package below `top` leave only packages below `top`.
pub proof fn lemma_visit_deps_below(
    nodes: Seq<PackageView>,
    mode: DepOrder,
    w: Walk,
    parent: usize,
    n: int,
    top: int,
)
    requires
        graph_wf(nodes),
        parent < top <= nodes.len(),
        all_below(w.order, top),
    ensures
        all_below(visit_deps_spec(nodes, mode, w, parent, n).order, top),
    decreases parent, n,
{
    if n > 0 {
        lemma_visit_deps_below(nodes, mode, w, parent, n - 1, top);
        let before = visit_deps_spec(nodes, mode, w, parent, n - 1);
        let d = followed(nodes[parent as int], mode)[n - 1];
        if d < parent {
            lemma_visit_below(nodes, mode, before, d, top);
        }
    }
}

} // verus!
