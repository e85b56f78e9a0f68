//! The dependency graph: duplicate, missing-reference and cycle
//! validation over a set of service records, and a topological
//! ordering usable for startup and, read in reverse, for shutdown.

use vstd::prelude::*;
use vstd::pervasive::VecAdditionalExecFns;
use vstd::string::StringExecFns;
use crate::service::Service;

verus! {

/// A fatal validation error: nothing is started when one is reported.
#[derive(Debug, Clone, PartialEq, Eq)]
pub enum DependencyError {
    /// Two loaded records share this id.
    DuplicateServiceId(String),
    /// The named service lists the named id, which is not loaded.
    NonExistentDependency(String, String),
    /// The dependency relation has a cycle, described by this trace.
    CyclicDependency(String),
}

/// Every pair of distinct records has distinct ids.
pub open spec fn unique_ids(s: Seq<Service>) -> bool {
    forall|i: int, j: int| 0 <= i < j < s.len() ==> s[i].id@ != s[j].id@
}

/// Some record in `s` carries this id.
pub open spec fn has_id(s: Seq<Service>, id: Seq<char>) -> bool {
    exists|k: int| 0 <= k < s.len() && s[k].id@ == id
}

/// Every id referenced in `start.dependencies` or `termination.before`
/// names a loaded record.
pub open spec fn all_refs_resolve(s: Seq<Service>) -> bool {
    &&& forall|i: int, k: int|
        0 <= i < s.len() && 0 <= k < s[i].spec_dependencies().len() ==> has_id(
            s,
            #[trigger] s[i].spec_dependencies()[k],
        )
    &&& forall|i: int, k: int|
        0 <= i < s.len() && 0 <= k < s[i].spec_before().len() ==> has_id(
            s,
            #[trigger] s[i].spec_before()[k],
        )
}

/// The record at `a` must start after the record at `b`.
pub open spec fn dep_edge(s: Seq<Service>, a: int, b: int) -> bool {
    &&& 0 <= a < s.len()
    &&& 0 <= b < s.len()
    &&& s[a].spec_dependencies().contains(s[b].id@)
}

/// A closed walk along dependency edges: each record must start after
/// the next, and the walk returns to where it began.
pub open spec fn is_cycle(s: Seq<Service>, p: Seq<int>) -> bool {
    &&& p.len() >= 2
    &&& p[0] == p[p.len() - 1]
    &&& forall|k: int| 0 <= k < p.len() - 1 ==> dep_edge(s, #[trigger] p[k], p[k + 1])
}

/// The dependency relation of `s`, restricted to `start.dependencies`
/// edges, has a cycle (a self-reference included).
pub open spec fn has_cycle(s: Seq<Service>) -> bool {
    exists|p: Seq<int>| is_cycle(s, p)
}

/// Some record lists its own id among its dependencies.
pub open spec fn has_self_lister(s: Seq<Service>) -> bool {
    exists|i: int| 0 <= i < s.len() && s[i].spec_dependencies().contains(s[i].id@)
}

/// The ids of the records, as owned strings, in record order.
pub open spec fn record_ids(s: Seq<Service>) -> Seq<String> {
    s.map_values(|x: Service| x.id)
}

/// An edge of the resolved graph: `deps[a]` lists `b`.
pub open spec fn index_edge(deps: Seq<Vec<usize>>, a: int, b: int) -> bool {
    &&& 0 <= a < deps.len()
    &&& 0 <= b
    &&& deps[a]@.contains(b as usize)
}

/// `deps` is the dependency lists of `s`, resolved to indices: entry
/// for entry, each index names the record whose id the list names.
pub open spec fn deps_represent(s: Seq<Service>, deps: Seq<Vec<usize>>) -> bool {
    &&& deps.len() == s.len()
    &&& forall|i: int|
        0 <= i < s.len() ==> (#[trigger] deps[i])@.len() == s[i].spec_dependencies().len()
    &&& forall|i: int, k: int|
        0 <= i < s.len() && 0 <= k < deps[i]@.len() ==> (#[trigger] deps[i]@[k]) < s.len()
            && s[deps[i]@[k] as int].id@ == s[i].spec_dependencies()[k]
}

/// As `deps_represent`, for the `termination.before` lists.
pub open spec fn before_represent(s: Seq<Service>, before: Seq<Vec<usize>>) -> bool {
    &&& before.len() == s.len()
    &&& forall|i: int|
        0 <= i < s.len() ==> (#[trigger] before[i])@.len() == s[i].spec_before().len()
    &&& forall|i: int, k: int|
        0 <= i < s.len() && 0 <= k < before[i]@.len() ==> (#[trigger] before[i]@[k]) < s.len()
            && s[before[i]@[k] as int].id@ == s[i].spec_before()[k]
}

/// The walk the depth-first search stood on when it found a cycle:
/// a chain of dependency edges whose last node lists `target`, with
/// `target` already somewhere on the walk.
pub open spec fn index_cycle_witness(deps: Seq<Vec<usize>>, path: Seq<usize>, target: usize)
    -> bool {
    &&& path.len() >= 1
    &&& path.no_duplicates()
    &&& forall|i: int| 0 <= i < path.len() ==> (#[trigger] path[i]) < deps.len()
    &&& (target as int) < deps.len()
    &&& forall|k: int|
        0 <= k < path.len() - 1 ==> index_edge(deps, #[trigger] path[k] as int, path[k + 1] as int)
    &&& index_edge(deps, path[path.len() - 1] as int, target as int)
    &&& path.contains(target)
}

/// The walk `path`, rendered as ids joined by arrows.
pub open spec fn render_path(ids: Seq<String>, path: Seq<usize>) -> Seq<char>
    decreases path.len(),
{
    if path.len() == 0 {
        Seq::empty()
    } else if path.len() == 1 {
        ids[path[0] as int]@
    } else {
        render_path(ids, path.drop_last()) + " -> "@ + ids[path[path.len() - 1] as int]@
    }
}

/// The human-readable cycle trace: the walk, then the offending edge.
/// A node that lists itself is reported in a distinct form.
pub open spec fn trace_message(ids: Seq<String>, path: Seq<usize>, target: usize) -> Seq<char> {
    if path.len() > 0 && path[path.len() - 1] == target {
        render_path(ids, path) + " <-> "@ + ids[target as int]@ + " ('"@ + ids[target as int]@
            + "' lists itself as a dependency)"@
    } else {
        render_path(ids, path) + " -> "@ + ids[target as int]@
    }
}

impl DependencyError {
    /// The error, rendered as the operator sees it.
    pub fn message(&self) -> (r: String)
        ensures
            self matches DependencyError::DuplicateServiceId(id) ==> r@ == "Service with ID '"@
                + id@ + "' defined more than once"@,
            self matches DependencyError::NonExistentDependency(service, dependency) ==> r@
                == "Dependency '"@ + dependency@ + "' of service '"@ + service@
                + "' does not exist"@,
            self matches DependencyError::CyclicDependency(trace) ==> r@
                == "Your dependencies form a cycle: "@ + trace@,
    {
        match self {
            DependencyError::DuplicateServiceId(id) => {
                let mut m = String::new();
                m.append("Service with ID '");
                m.append(id.as_str());
                m.append("' defined more than once");
                m
            },
            DependencyError::NonExistentDependency(service, dependency) => {
                let mut m = String::new();
                m.append("Dependency '");
                m.append(dependency.as_str());
                m.append("' of service '");
                m.append(service.as_str());
                m.append("' does not exist");
                m
            },
            DependencyError::CyclicDependency(trace) => {
                let mut m = String::new();
                m.append("Your dependencies form a cycle: ");
                m.append(trace.as_str());
                m
            },
        }
    }
}

/// The index of the record carrying `id`, where one is loaded.
fn find_index(services: &Vec<Service>, id: &String) -> (r: Option<usize>)
    ensures
        r matches Some(k) ==> k < services@.len() && services@[k as int].id@ == id@,
        r is None ==> !has_id(services@, id@),
{
    let mut k: usize = 0;
    while k < services.len()
        invariant
            k <= services@.len(),
            forall|j: int| 0 <= j < k ==> services@[j].id@ != id@,
        decreases services@.len() - k,
    {
        if services[k].id == *id {
            return Some(k);
        }
        k += 1;
    }
    None
}

/// The index of a record whose id an earlier record already carries.
fn find_duplicate(services: &Vec<Service>) -> (r: Option<usize>)
    ensures
        r matches Some(j) ==> j < services@.len() && exists|i: int|
            0 <= i < j && services@[i].id@ == services@[j as int].id@,
        r is None ==> unique_ids(services@),
{
    let mut j: usize = 1;
    while j < services.len()
        invariant
            1 <= j,
            forall|a: int, b: int| 0 <= a < b < j && b < services@.len() ==> services@[a].id@
                != services@[b].id@,
        decreases services@.len() - j,
    {
        let mut i: usize = 0;
        while i < j
            invariant
                i <= j < services@.len(),
                forall|a: int| 0 <= a < i ==> services@[a].id@ != services@[j as int].id@,
            decreases j - i,
        {
            if services[i].id == services[j].id {
                return Some(j);
            }
            i += 1;
        }
        j += 1;
    }
    None
}

/// Resolves a list of referenced ids to record indices; fails with the
/// position of the first id that no record carries.
fn resolve_list(services: &Vec<Service>, list: &Vec<String>) -> (r: Result<Vec<usize>, usize>)
    ensures
        r matches Ok(v) ==> v@.len() == list@.len() && forall|k: int|
            0 <= k < v@.len() ==> (#[trigger] v@[k]) < services@.len()
                && services@[v@[k] as int].id@ == list@[k]@,
        r matches Err(k) ==> k < list@.len() && !has_id(services@, list@[k as int]@),
{
    let mut v: Vec<usize> = Vec::new();
    let mut k: usize = 0;
    while k < list.len()
        invariant
            k <= list@.len(),
            v@.len() == k,
            forall|j: int| 0 <= j < k ==> (#[trigger] v@[j]) < services@.len()
                && services@[v@[j] as int].id@ == list@[j]@,
        decreases list@.len() - k,
    {
        match find_index(services, &list[k]) {
            Some(idx) => {
                v.push(idx);
            },
            None => {
                return Err(k);
            },
        }
        k += 1;
    }
    Ok(v)
}

/// Renders the walk as ids joined by arrows.
fn join_path(ids: &Vec<String>, path: &Vec<usize>) -> (r: String)
    requires
        path@.len() >= 1,
        forall|i: int| 0 <= i < path@.len() ==> (#[trigger] path@[i]) < ids@.len(),
    ensures
        r@ == render_path(ids@, path@),
{
    let mut m = ids[path[0]].clone();
    proof {
        assert(path@.take(1) =~= seq![path@[0]]);
    }
    let mut i: usize = 1;
    while i < path.len()
        invariant
            1 <= i <= path@.len(),
            forall|j: int| 0 <= j < path@.len() ==> (#[trigger] path@[j]) < ids@.len(),
            m@ == render_path(ids@, path@.take(i as int)),
        decreases path@.len() - i,
    {
        m.append(" -> ");
        m.append(ids[path[i]].as_str());
        proof {
            assert(path@.take(i + 1).drop_last() =~= path@.take(i as int));
            assert(path@.take(i + 1).last() == path@[i as int]);
        }
        i += 1;
    }
    proof {
        assert(path@.take(path@.len() as int) =~= path@);
    }
    m
}

/// The `j`th dependency of the node at position `k` of `order` stands
/// at some earlier position of `order`.
pub open spec fn dep_in_prefix(deps: Seq<Vec<usize>>, order: Seq<usize>, k: int, j: int) -> bool {
    exists|m: int| 0 <= m < k && order[m] == deps[order[k] as int]@[j]
}

/// Every dependency of a node placed in `order` stands earlier in
/// `order` than the node itself.
pub open spec fn topo_prefix(deps: Seq<Vec<usize>>, order: Seq<usize>) -> bool {
    forall|k: int, j: int|
        0 <= k < order.len() && 0 <= j < deps[order[k] as int]@.len() ==> #[trigger] dep_in_prefix(
            deps,
            order,
            k,
            j,
        )
}

/// Every edge of `deps` points at a node of the graph.
pub open spec fn edges_ok(deps: Seq<Vec<usize>>, n: int) -> bool {
    &&& deps.len() == n
    &&& forall|i: int, k: int|
        0 <= i < n && 0 <= k < deps[i]@.len() ==> (#[trigger] deps[i]@[k]) < n
}

/// What the depth-first walk maintains: the current walk is a chain of
/// distinct nodes mirrored by `on_path`; `order` holds exactly the
/// nodes proven cycle-free, each after all of its dependencies; and no
/// node is both on the walk and proven.
pub open spec fn dfs_inv(
    deps: Seq<Vec<usize>>,
    path: Seq<usize>,
    on_path: Seq<bool>,
    checked: Seq<bool>,
    order: Seq<usize>,
) -> bool {
    let n = on_path.len() as int;
    &&& checked.len() == n
    &&& deps.len() == n
    &&& forall|i: int| 0 <= i < path.len() ==> (#[trigger] path[i]) < n
    &&& path.no_duplicates()
    &&& forall|x: usize| (x as int) < n ==> ((#[trigger] on_path[x as int]) <==> path.contains(x))
    &&& forall|k: int|
        0 <= k < path.len() - 1 ==> index_edge(deps, #[trigger] path[k] as int, path[k + 1] as int)
    &&& forall|x: usize| (x as int) < n ==> !(#[trigger] on_path[x as int] && checked[x as int])
    &&& order.no_duplicates()
    &&& forall|k: int| 0 <= k < order.len() ==> (#[trigger] order[k]) < n
    &&& forall|x: usize| (x as int) < n ==> ((#[trigger] checked[x as int]) <==> order.contains(x))
    &&& topo_prefix(deps, order)
}

/// A sequence of distinct values below `n` has at most `n` entries.
proof fn lemma_distinct_bounded(p: Seq<usize>, n: nat)
    requires
        p.no_duplicates(),
        forall|i: int| 0 <= i < p.len() ==> (#[trigger] p[i]) < n,
    ensures
        p.len() <= n,
{
    broadcast use vstd::set::group_set_axioms;
    broadcast use vstd::seq_lib::group_seq_properties;

    let f = |u: usize| u as int;
    let q = p.map_values(f);
    assert(vstd::relations::injective(f)) by {
        assert forall|x: usize, y: usize| #[trigger] f(x) == #[trigger] f(y) implies x == y by {}
    }
    p.lemma_no_duplicates_injective(f);
    q.unique_seq_to_set();
    assert(q.to_set().subset_of(vstd::set_lib::set_int_range(0, n as int))) by {
        assert forall|x: int| q.to_set().contains(x) implies 0 <= x < n by {
            let i = choose|i: int| 0 <= i < q.len() && q[i] == x;
            assert(p[i] < n);
        }
    }
    vstd::set_lib::lemma_int_range(0, n as int);
    vstd::set_lib::lemma_len_subset(q.to_set(), vstd::set_lib::set_int_range(0, n as int));
}

/// The depth-first walk from `node`, which is neither proven cycle-free
/// yet nor on the current walk. On success, `node` and everything
/// reachable from it joins `order`; a discovered cycle is returned as
/// its rendered trace.
fn dfs(
    ids: &Vec<String>,
    deps: &Vec<Vec<usize>>,
    node: usize,
    path: &mut Vec<usize>,
    on_path: &mut Vec<bool>,
    checked: &mut Vec<bool>,
    order: &mut Vec<usize>,
) -> (r: Result<(), String>)
    requires
        ids@.len() == old(on_path)@.len(),
        edges_ok(deps@, ids@.len() as int),
        node < ids@.len(),
        dfs_inv(deps@, old(path)@, old(on_path)@, old(checked)@, old(order)@),
        !old(on_path)@[node as int],
        !old(checked)@[node as int],
        old(path)@.len() > 0 ==> index_edge(
            deps@,
            old(path)@[old(path)@.len() - 1] as int,
            node as int,
        ),
    ensures
        r is Ok ==> {
            &&& final(path)@ == old(path)@
            &&& final(on_path)@ == old(on_path)@
            &&& dfs_inv(deps@, final(path)@, final(on_path)@, final(checked)@, final(order)@)
            &&& final(checked)@.len() == old(checked)@.len()
            &&& forall|i: int|
                0 <= i < final(checked)@.len() ==> old(checked)@[i] ==> final(checked)@[i]
            &&& final(checked)@[node as int]
            &&& old(order)@.is_prefix_of(final(order)@)
        },
        r matches Err(m) ==> exists|w: (Seq<usize>, usize)|
            index_cycle_witness(deps@, w.0, w.1) && m@ == trace_message(ids@, w.0, w.1),
    decreases ids@.len() - old(path)@.len(),
{
    let ghost n = ids@.len() as int;
    proof {
        lemma_distinct_bounded(old(path)@, ids@.len());
    }
    path.push(node);
    on_path.set(node, true);
    proof {
        assert(path@.drop_last() =~= old(path)@);
        assert(!old(path)@.contains(node));
        assert(path@[path@.len() - 1] == node);
        assert(path@.no_duplicates()) by {
            assert forall|i: int, j: int| 0 <= i < j < path@.len() implies path@[i] != path@[j] by {
                if j == path@.len() - 1 {
                    if path@[i] == node {
                        assert(old(path)@[i] == node);
                    }
                } else {
                    assert(old(path)@[i] == path@[i] && old(path)@[j] == path@[j]);
                }
            }
        }
        assert forall|x: usize| (x as int) < n implies ((#[trigger] on_path@[x as int])
            <==> path@.contains(x)) by {
            if x == node {
                assert(path@[path@.len() - 1] == node);
            } else {
                assert(on_path@[x as int] == old(on_path)@[x as int]);
                if old(path)@.contains(x) {
                    let i = choose|i: int| 0 <= i < old(path)@.len() && old(path)@[i] == x;
                    assert(path@[i] == x);
                }
                if path@.contains(x) {
                    let i = choose|i: int| 0 <= i < path@.len() && path@[i] == x;
                    assert(old(path)@[i] == x);
                }
            }
        }
        assert forall|k: int| 0 <= k < path@.len() - 1 implies index_edge(
            deps@,
            #[trigger] path@[k] as int,
            path@[k + 1] as int,
        ) by {
            if k < path@.len() - 2 {
                assert(index_edge(deps@, old(path)@[k] as int, old(path)@[k + 1] as int));
            } else {
                assert(path@[k] == old(path)@[old(path)@.len() - 1]);
            }
        }
        assert(dfs_inv(deps@, path@, on_path@, checked@, order@));
    }
    // A node that lists itself is a degenerate one-node cycle,
    // reported in its own message form.
    let dl_len = deps[node].len();
    let mut k: usize = 0;
    while k < dl_len
        invariant
            dl_len == deps@[node as int]@.len(),
            node < deps@.len(),
            ids@.len() == on_path@.len(),
            node < ids@.len(),
            forall|j: int| 0 <= j < k ==> deps@[node as int]@[j] != node,
            dfs_inv(deps@, path@, on_path@, checked@, order@),
            path@ == old(path)@.push(node),
            path@.len() >= 1 && path@[path@.len() - 1] == node,
        decreases dl_len - k,
    {
        if deps[node][k] == node {
            let mut m = join_path(ids, path);
            m.append(" <-> ");
            m.append(ids[node].as_str());
            m.append(" ('");
            m.append(ids[node].as_str());
            m.append("' lists itself as a dependency)");
            proof {
                let w = (path@, node);
                assert(path@.contains(node)) by {
                    assert(path@[path@.len() - 1] == node);
                }
                assert(deps@[node as int]@.contains(node)) by {
                    assert(deps@[node as int]@[k as int] == node);
                }
                assert(index_cycle_witness(deps@, w.0, w.1));
                assert(m@ =~= trace_message(ids@, w.0, w.1));
            }
            return Err(m);
        }
        k += 1;
    }
    // Walk each dependency: already-proven nodes are skipped, one on
    // the current walk closes a cycle, the rest are walked in turn.
    let mut k: usize = 0;
    while k < dl_len
        invariant
            dl_len == deps@[node as int]@.len(),
            node < deps@.len(),
            ids@.len() == on_path@.len(),
            edges_ok(deps@, ids@.len() as int),
            node < ids@.len(),
            forall|j: int| 0 <= j < dl_len ==> deps@[node as int]@[j] != node,
            dfs_inv(deps@, path@, on_path@, checked@, order@),
            path@ == old(path)@.push(node),
            on_path@ == old(on_path)@.update(node as int, true),
            checked@.len() == old(checked)@.len(),
            forall|i: int| 0 <= i < checked@.len() ==> old(checked)@[i] ==> checked@[i],
            old(order)@.is_prefix_of(order@),
            forall|j: int| 0 <= j < k ==> checked@[#[trigger] deps@[node as int]@[j] as int],
        decreases dl_len - k,
    {
        let d = deps[node][k];
        proof {
            assert(deps@[node as int]@[k as int] == d);
            assert(d < ids@.len());
            assert(deps@[node as int]@.contains(d));
            assert(index_edge(deps@, node as int, d as int));
            assert(d != node);
        }
        if checked[d] {
            // already proven cycle-free
        } else if on_path[d] {
            let mut m = join_path(ids, path);
            m.append(" -> ");
            m.append(ids[d].as_str());
            proof {
                let w = (path@, d);
                assert(path@.contains(d));
                assert(path@[path@.len() - 1] == node && node != d);
                assert(index_cycle_witness(deps@, w.0, w.1));
                assert(m@ =~= trace_message(ids@, w.0, w.1));
            }
            return Err(m);
        } else {
            proof {
                lemma_distinct_bounded(path@, ids@.len());
                assert(index_edge(deps@, path@[path@.len() - 1] as int, d as int));
            }
            let ghost pre_order = order@;
            match dfs(ids, deps, d, path, on_path, checked, order) {
                Ok(()) => {
                    proof {
                        assert(old(order)@.is_prefix_of(order@)) by {
                            assert(old(order)@ =~= pre_order.take(old(order)@.len() as int));
                            assert(pre_order =~= order@.take(pre_order.len() as int));
                            assert(old(order)@ =~= order@.take(old(order)@.len() as int));
                        }
                    }
                },
                Err(m) => {
                    return Err(m);
                },
            }
        }
        k += 1;
    }
    // Everything this node must start after is proven: the node itself
    // is proven and joins the order after all of its dependencies.
    proof {
        assert(on_path@[node as int]);
        assert(!checked@[node as int]);
        assert(!order@.contains(node));
    }
    let ghost pre_order = order@;
    let ghost pre_checked = checked@;
    let _finished = path.pop();
    on_path.set(node, false);
    checked.set(node, true);
    order.push(node);
    proof {
        assert(path@ =~= old(path)@);
        assert(on_path@ =~= old(on_path)@);
        assert(order@[order@.len() - 1] == node);
        assert(order@.drop_last() =~= pre_order);
        assert(order@.no_duplicates()) by {
            assert forall|i: int, j: int| 0 <= i < j < order@.len() implies order@[i]
                != order@[j] by {
                if j == order@.len() - 1 {
                    if order@[i] == node {
                        assert(pre_order[i] == node);
                    }
                } else {
                    assert(pre_order[i] == order@[i] && pre_order[j] == order@[j]);
                }
            }
        }
        assert forall|x: usize| (x as int) < n implies ((#[trigger] checked@[x as int])
            <==> order@.contains(x)) by {
            if x == node {
                assert(order@[order@.len() - 1] == node);
            } else {
                assert(checked@[x as int] == pre_checked[x as int]);
                if pre_order.contains(x) {
                    let i = choose|i: int| 0 <= i < pre_order.len() && pre_order[i] == x;
                    assert(order@[i] == x);
                }
                if order@.contains(x) {
                    let i = choose|i: int| 0 <= i < order@.len() && order@[i] == x;
                    assert(pre_order[i] == x);
                }
            }
        }
        assert(topo_prefix(deps@, order@)) by {
            assert forall|k2: int, j: int|
                0 <= k2 < order@.len() && 0 <= j < deps@[order@[k2] as int]@.len()
                implies #[trigger] dep_in_prefix(deps@, order@, k2, j) by {
                if k2 < order@.len() - 1 {
                    assert(order@[k2] == pre_order[k2]);
                    assert(dep_in_prefix(deps@, pre_order, k2, j));
                    let m = choose|m: int|
                        0 <= m < k2 && pre_order[m] == deps@[pre_order[k2] as int]@[j];
                    assert(order@[m] == deps@[order@[k2] as int]@[j]);
                } else {
                    assert(order@[k2] == node);
                    let dj = deps@[node as int]@[j];
                    assert(pre_checked[dj as int]);
                    assert(pre_order.contains(dj));
                    let m = choose|m: int| 0 <= m < pre_order.len() && pre_order[m] == dj;
                    assert(order@[m] == dj);
                }
            }
        }
        assert(dfs_inv(deps@, path@, on_path@, checked@, order@));
        assert(old(order)@.is_prefix_of(order@)) by {
            assert(old(order)@ =~= pre_order.take(old(order)@.len() as int));
            assert(old(order)@ =~= order@.take(old(order)@.len() as int));
        }
    }
    Ok(())
}


/// The walk the search stood on, read over records: a chain of
/// dependency edges whose last record lists `target`, with `target`
/// already on the walk.
pub open spec fn cycle_witness(s: Seq<Service>, path: Seq<usize>, target: usize) -> bool {
    &&& path.len() >= 1
    &&& path.no_duplicates()
    &&& forall|i: int| 0 <= i < path.len() ==> (#[trigger] path[i]) < s.len()
    &&& (target as int) < s.len()
    &&& forall|k: int|
        0 <= k < path.len() - 1 ==> dep_edge(s, #[trigger] path[k] as int, path[k + 1] as int)
    &&& dep_edge(s, path[path.len() - 1] as int, target as int)
    &&& path.contains(target)
}

/// An edge of the resolved lists is a dependency edge of the records.
proof fn lemma_index_edge_to_dep(s: Seq<Service>, deps: Seq<Vec<usize>>, a: int, b: usize)
    requires
        deps_represent(s, deps),
        index_edge(deps, a, b as int),
        (b as int) < s.len(),
    ensures
        dep_edge(s, a, b as int),
{
    let k = choose|k: int| 0 <= k < deps[a]@.len() && deps[a]@[k] == b;
    assert(s[deps[a]@[k] as int].id@ == s[a].spec_dependencies()[k]);
    assert(s[a].spec_dependencies()[k] == s[b as int].id@);
    assert(s[a].spec_dependencies().contains(s[b as int].id@));
}

/// A witness over the resolved lists is a witness over the records.
proof fn lemma_witness_lift(s: Seq<Service>, deps: Seq<Vec<usize>>, path: Seq<usize>, target: usize)
    requires
        deps_represent(s, deps),
        index_cycle_witness(deps, path, target),
    ensures
        cycle_witness(s, path, target),
{
    assert forall|k: int| 0 <= k < path.len() - 1 implies dep_edge(
        s,
        #[trigger] path[k] as int,
        path[k + 1] as int,
    ) by {
        lemma_index_edge_to_dep(s, deps, path[k] as int, path[k + 1]);
    }
    lemma_index_edge_to_dep(s, deps, path[path.len() - 1] as int, target);
}

/// A cycle witness closes to a cycle: the walk from the earlier
/// occurrence of `target` onward, with `target` appended, is one.
pub proof fn lemma_witness_cycle(s: Seq<Service>, path: Seq<usize>, target: usize)
    requires
        cycle_witness(s, path, target),
    ensures
        has_cycle(s),
{
    let idx = choose|idx: int| 0 <= idx < path.len() && path[idx] == target;
    let m = path.len() - idx;
    let p = Seq::new(
        (m + 1) as nat,
        |k: int|
            if k < m {
                path[idx + k] as int
            } else {
                target as int
            },
    );
    assert(p[0] == target as int);
    assert(p[p.len() - 1] == target as int);
    assert forall|k: int| 0 <= k < p.len() - 1 implies dep_edge(s, #[trigger] p[k], p[k + 1]) by {
        if k < m - 1 {
            assert(p[k] == path[idx + k] as int && p[k + 1] == path[idx + k + 1] as int);
            assert(dep_edge(s, path[idx + k] as int, path[idx + k + 1] as int));
        } else {
            assert(k == m - 1);
            assert(p[k] == path[path.len() - 1] as int);
            assert(p[k + 1] == target as int);
        }
    }
    assert(is_cycle(s, p));
}

/// A record that lists itself closes a one-record cycle.
pub proof fn lemma_self_dependency_cycle(s: Seq<Service>, i: int)
    requires
        0 <= i < s.len(),
        s[i].spec_dependencies().contains(s[i].id@),
    ensures
        has_cycle(s),
{
    let p = seq![i, i];
    assert(dep_edge(s, i, i));
    assert(p[0] == p[p.len() - 1]);
    assert forall|k: int| 0 <= k < p.len() - 1 implies dep_edge(s, #[trigger] p[k], p[k + 1]) by {
        assert(k == 0);
    }
    assert(is_cycle(s, p));
}

/// The validated dependency graph: ids, resolved edge lists, and a
/// topological ordering with its inverse. Built once; read-only after.
#[derive(Debug)]
pub struct DependencyGraph {
    /// The service ids, in record order; the graph node `i` is the
    /// record `i`.
    pub ids: Vec<String>,
    /// For each node, the nodes it must start after.
    pub deps: Vec<Vec<usize>>,
    /// For each node, the nodes that must be stopped before it.
    pub before: Vec<Vec<usize>>,
    /// A topological ordering: every node after all its dependencies.
    pub order: Vec<usize>,
    /// The position of each node in `order`.
    pub rank: Vec<usize>,
}

impl DependencyGraph {
    /// The number of nodes.
    pub open spec fn spec_n(self) -> int {
        self.ids@.len() as int
    }

    /// Well-formedness: edges point at nodes, `rank` inverts `order`,
    /// and every dependency of a node stands earlier in `order`.
    pub open spec fn wf(self) -> bool {
        let n = self.spec_n();
        &&& edges_ok(self.deps@, n)
        &&& edges_ok(self.before@, n)
        &&& self.order@.no_duplicates()
        &&& forall|k: int| 0 <= k < self.order@.len() ==> (#[trigger] self.order@[k] as int) < n
        &&& self.rank@.len() == n
        &&& forall|i: int|
            0 <= i < n ==> (#[trigger] self.rank@[i] as int) < self.order@.len()
        &&& forall|i: int| 0 <= i < n ==> (self.order@[#[trigger] self.rank@[i] as int] as int) == i
        &&& forall|i: int, k: int|
            0 <= i < n && 0 <= k < self.deps@[i]@.len() ==> (self.rank@[
                #[trigger] self.deps@[i]@[k] as int
            ] as int) < self.rank@[i] as int
    }

    /// The graph describes exactly these records: same ids in the same
    /// positions, and edge lists resolved entry for entry.
    pub open spec fn represents(self, s: Seq<Service>) -> bool {
        &&& self.ids@.len() == s.len()
        &&& forall|i: int| 0 <= i < s.len() ==> (#[trigger] self.ids@[i])@ == s[i].id@
        &&& deps_represent(s, self.deps@)
        &&& before_represent(s, self.before@)
    }

    /// The number of nodes.
    pub fn node_count(&self) -> (r: usize)
        ensures
            r == self.spec_n(),
    {
        self.ids.len()
    }
}

/// Along a chain of dependency edges the rank strictly falls.
proof fn lemma_edge_rank(g: DependencyGraph, s: Seq<Service>, a: int, b: int)
    requires
        g.wf(),
        g.represents(s),
        unique_ids(s),
        dep_edge(s, a, b),
    ensures
        g.rank@[b] < g.rank@[a],
{
    let dl = s[a].spec_dependencies();
    let k = choose|k: int| 0 <= k < dl.len() && dl[k] == s[b].id@;
    let bb = g.deps@[a]@[k];
    assert(s[bb as int].id@ == s[b].id@);
    assert((bb as int) == b) by {
        if (bb as int) < b {
            assert(s[bb as int].id@ != s[b].id@);
        } else if (bb as int) > b {
            assert(s[b].id@ != s[bb as int].id@);
        }
    }
    assert((g.rank@[g.deps@[a]@[k] as int] as int) < g.rank@[a] as int);
}

/// Along a whole chain the rank of the last node falls below that of
/// the first: a closed chain is therefore impossible.
proof fn lemma_chain_rank(g: DependencyGraph, s: Seq<Service>, p: Seq<int>)
    requires
        g.wf(),
        g.represents(s),
        unique_ids(s),
        p.len() >= 2,
        forall|k: int| 0 <= k < p.len() - 1 ==> dep_edge(s, #[trigger] p[k], p[k + 1]),
    ensures
        g.rank@[p[p.len() - 1]] < g.rank@[p[0]],
    decreases p.len(),
{
    assert(dep_edge(s, p[0], p[1]));
    lemma_edge_rank(g, s, p[0], p[1]);
    if p.len() > 2 {
        let q = p.drop_first();
        assert forall|k: int| 0 <= k < q.len() - 1 implies dep_edge(s, #[trigger] q[k], q[k + 1]) by {
            assert(q[k] == p[k + 1] && q[k + 1] == p[k + 2]);
            assert(dep_edge(s, p[k + 1], p[k + 2]));
        }
        lemma_chain_rank(g, s, q);
        assert(q[q.len() - 1] == p[p.len() - 1] && q[0] == p[1]);
    }
}

/// A well-formed graph admits no cycle among the records it
/// represents: the topological ordering rules one out.
pub proof fn lemma_wf_no_cycle(g: DependencyGraph, s: Seq<Service>)
    requires
        g.wf(),
        g.represents(s),
        unique_ids(s),
    ensures
        !has_cycle(s),
{
    if has_cycle(s) {
        let p = choose|p: Seq<int>| is_cycle(s, p);
        lemma_chain_rank(g, s, p);
    }
}

/// Resolved edge lists leave no reference dangling.
proof fn lemma_represent_resolves(s: Seq<Service>, deps: Seq<Vec<usize>>, before: Seq<Vec<usize>>)
    requires
        deps_represent(s, deps),
        before_represent(s, before),
    ensures
        all_refs_resolve(s),
{
    assert forall|i: int, k: int|
        0 <= i < s.len() && 0 <= k < s[i].spec_dependencies().len() implies has_id(
        s,
        #[trigger] s[i].spec_dependencies()[k],
    ) by {
        let b = deps[i]@[k];
        assert(s[b as int].id@ == s[i].spec_dependencies()[k]);
    }
    assert forall|i: int, k: int|
        0 <= i < s.len() && 0 <= k < s[i].spec_before().len() implies has_id(
        s,
        #[trigger] s[i].spec_before()[k],
    ) by {
        let b = before[i]@[k];
        assert(s[b as int].id@ == s[i].spec_before()[k]);
    }
}

impl DependencyGraph {
    /// Validates the records and builds the graph.
    ///
    /// Exactly one thing comes back on any input: the graph where the
    /// ids are unique, every reference resolves and no cycle exists;
    /// the duplicate id where ids collide; the offending service and
    /// missing id where a reference dangles; and a rendered trace
    /// where the dependency relation has a cycle.
    pub fn build(services: &Vec<Service>) -> (r: Result<DependencyGraph, DependencyError>)
        ensures
            r matches Ok(g) ==> g.wf() && g.represents(services@),
            r is Ok <==> unique_ids(services@) && all_refs_resolve(services@) && !has_cycle(
                services@,
            ),
            r matches Err(DependencyError::DuplicateServiceId(id)) ==> exists|i: int, j: int|
                0 <= i < j < services@.len() && services@[i].id@ == services@[j].id@
                    && services@[j].id@ == id@,
            !unique_ids(services@) <==> r matches Err(DependencyError::DuplicateServiceId(_)),
            r matches Err(DependencyError::NonExistentDependency(sv, d)) ==> unique_ids(services@)
                && !has_id(services@, d@) && exists|i: int|
                0 <= i < services@.len() && services@[i].id@ == sv@ && (
                services@[i].spec_dependencies().contains(d@)
                    || services@[i].spec_before().contains(d@)),
            unique_ids(services@) && !all_refs_resolve(services@) ==> r matches Err(
                DependencyError::NonExistentDependency(_, _),
            ),
            r matches Err(DependencyError::CyclicDependency(m)) ==> unique_ids(services@)
                && all_refs_resolve(services@) && has_cycle(services@) && exists|
                w: (Seq<usize>, usize),
            |
                cycle_witness(services@, w.0, w.1) && m@ == trace_message(
                    record_ids(services@),
                    w.0,
                    w.1,
                ),
            unique_ids(services@) && all_refs_resolve(services@) && has_cycle(services@)
                ==> r matches Err(DependencyError::CyclicDependency(_)),
            unique_ids(services@) && all_refs_resolve(services@) && has_self_lister(services@)
                ==> r matches Err(DependencyError::CyclicDependency(_)),
    {
        let n = services.len();
        // Duplicate ids are fatal before anything else is examined.
        if let Some(j) = find_duplicate(services) {
            return Err(DependencyError::DuplicateServiceId(services[j].id.clone()));
        }
        // Resolve every referenced id to a node, or fail naming the
        // service and the id that does not exist.
        let mut deps: Vec<Vec<usize>> = Vec::new();
        let mut i: usize = 0;
        while i < n
            invariant
                n == services@.len(),
                i <= n,
                deps@.len() == i,
                unique_ids(services@),
                forall|a: int|
                    0 <= a < i ==> (#[trigger] deps@[a])@.len()
                        == services@[a].spec_dependencies().len(),
                forall|a: int, k: int|
                    0 <= a < i && 0 <= k < deps@[a]@.len() ==> (#[trigger] deps@[a]@[k])
                        < services@.len() && services@[deps@[a]@[k] as int].id@
                        == services@[a].spec_dependencies()[k],
            decreases n - i,
        {
            match &services[i].start.dependencies {
                Some(list) => {
                    proof {
                        assert(list.deep_view() =~= services@[i as int].spec_dependencies());
                    }
                    match resolve_list(services, list) {
                        Ok(v) => {
                            deps.push(v);
                        },
                        Err(k) => {
                            proof {
                                assert(services@[i as int].spec_dependencies().contains(
                                    list@[k as int]@,
                                )) by {
                                    assert(services@[i as int].spec_dependencies()[k as int]
                                        == list@[k as int]@);
                                }
                                assert(!all_refs_resolve(services@)) by {
                                    if all_refs_resolve(services@) {
                                        assert(has_id(
                                            services@,
                                            services@[i as int].spec_dependencies()[k as int],
                                        ));
                                    }
                                }
                            }
                            return Err(DependencyError::NonExistentDependency(
                                services[i].id.clone(),
                                list[k].clone(),
                            ));
                        },
                    }
                },
                None => {
                    deps.push(Vec::new());
                },
            }
            i += 1;
        }
        let mut before: Vec<Vec<usize>> = Vec::new();
        let mut i: usize = 0;
        while i < n
            invariant
                n == services@.len(),
                i <= n,
                before@.len() == i,
                unique_ids(services@),
                forall|a: int|
                    0 <= a < i ==> (#[trigger] before@[a])@.len()
                        == services@[a].spec_before().len(),
                forall|a: int, k: int|
                    0 <= a < i && 0 <= k < before@[a]@.len() ==> (#[trigger] before@[a]@[k])
                        < services@.len() && services@[before@[a]@[k] as int].id@
                        == services@[a].spec_before()[k],
            decreases n - i,
        {
            let target_list: Option<&Vec<String>> = match &services[i].termination {
                Some(t) => match &t.before {
                    Some(list) => Some(list),
                    None => None,
                },
                None => None,
            };
            match target_list {
                Some(list) => {
                    proof {
                        assert(list.deep_view() =~= services@[i as int].spec_before());
                    }
                    match resolve_list(services, list) {
                        Ok(v) => {
                            before.push(v);
                        },
                        Err(k) => {
                            proof {
                                assert(services@[i as int].spec_before().contains(
                                    list@[k as int]@,
                                )) by {
                                    assert(services@[i as int].spec_before()[k as int]
                                        == list@[k as int]@);
                                }
                                assert(!all_refs_resolve(services@)) by {
                                    if all_refs_resolve(services@) {
                                        assert(has_id(
                                            services@,
                                            services@[i as int].spec_before()[k as int],
                                        ));
                                    }
                                }
                            }
                            return Err(DependencyError::NonExistentDependency(
                                services[i].id.clone(),
                                list[k].clone(),
                            ));
                        },
                    }
                },
                None => {
                    before.push(Vec::new());
                    proof {
                        assert(services@[i as int].spec_before() =~= Seq::<Seq<char>>::empty());
                    }
                },
            }
            i += 1;
        }
        proof {
            lemma_represent_resolves(services@, deps@, before@);
        }
        // The ids, owned by the graph.
        let mut ids: Vec<String> = Vec::new();
        let mut i: usize = 0;
        while i < n
            invariant
                n == services@.len(),
                i <= n,
                ids@.len() == i,
                forall|a: int| 0 <= a < i ==> (#[trigger] ids@[a])@ == services@[a].id@
                    && ids@[a] == services@[a].id,
            decreases n - i,
        {
            ids.push(services[i].id.clone());
            i += 1;
        }
        // Walk every node: nothing designates a canonical root.
        let mut path: Vec<usize> = Vec::new();
        let mut on_path: Vec<bool> = Vec::new();
        let mut checked: Vec<bool> = Vec::new();
        let mut order: Vec<usize> = Vec::new();
        let mut i: usize = 0;
        while i < n
            invariant
                i <= n,
                on_path@.len() == i,
                checked@.len() == i,
                forall|a: int| 0 <= a < i ==> !(#[trigger] on_path@[a]),
                forall|a: int| 0 <= a < i ==> !(#[trigger] checked@[a]),
            decreases n - i,
        {
            on_path.push(false);
            checked.push(false);
            i += 1;
        }
        proof {
            assert(dfs_inv(deps@, path@, on_path@, checked@, order@));
        }
        let mut root: usize = 0;
        while root < n
            invariant
                n == services@.len(),
                ids@.len() == n,
                on_path@.len() == n,
                edges_ok(deps@, n as int),
                root <= n,
                path@.len() == 0,
                dfs_inv(deps@, path@, on_path@, checked@, order@),
                forall|a: int| 0 <= a < root ==> (#[trigger] checked@[a]),
                deps_represent(services@, deps@),
                forall|a: int| 0 <= a < n ==> (#[trigger] ids@[a])@ == services@[a].id@
                    && ids@[a] == services@[a].id,
                unique_ids(services@),
                all_refs_resolve(services@),
            decreases n - root,
        {
            if !checked[root] {
                proof {
                    assert(!on_path@[root as int]) by {
                        if on_path@[root as int] {
                            assert(path@.contains(root));
                        }
                    }
                }
                match dfs(&ids, &deps, root, &mut path, &mut on_path, &mut checked, &mut order) {
                    Ok(()) => {},
                    Err(m) => {
                        proof {
                            let w = choose|w: (Seq<usize>, usize)|
                                index_cycle_witness(deps@, w.0, w.1) && m@ == trace_message(
                                    ids@,
                                    w.0,
                                    w.1,
                                );
                            lemma_witness_lift(services@, deps@, w.0, w.1);
                            lemma_witness_cycle(services@, w.0, w.1);
                            assert(ids@ =~= record_ids(services@));
                        }
                        return Err(DependencyError::CyclicDependency(m));
                    },
                }
            }
            root += 1;
        }
        // Invert the ordering: the rank of a node is its position.
        let mut rank: Vec<usize> = Vec::new();
        let mut i: usize = 0;
        while i < n
            invariant
                i <= n,
                rank@.len() == i,
            decreases n - i,
        {
            rank.push(0);
            i += 1;
        }
        let order_len = order.len();
        let mut k: usize = 0;
        while k < order_len
            invariant
                order_len == order@.len(),
                k <= order_len,
                rank@.len() == n,
                forall|a: int| 0 <= a < order@.len() ==> (#[trigger] order@[a]) < n,
                order@.no_duplicates(),
                forall|m: int|
                    0 <= m < k ==> (#[trigger] rank@[order@[m] as int] as int) == m,
            decreases order_len - k,
        {
            let node = order[k];
            let ghost pre_rank = rank@;
            rank.set(node, k);
            proof {
                assert forall|m: int| 0 <= m < k + 1 implies (#[trigger] rank@[order@[m] as int]
                    as int) == m by {
                    if m < k {
                        assert(order@[m] != order@[k as int]);
                        assert(rank@[order@[m] as int] == pre_rank[order@[m] as int]);
                    }
                }
            }
            k += 1;
        }
        let g = DependencyGraph { ids, deps, before, order, rank };
        proof {
            assert forall|x: int| 0 <= x < n implies (#[trigger] g.rank@[x] as int)
                < g.order@.len() && (g.order@[g.rank@[x] as int] as int) == x by {
                assert(checked@[x]);
                assert(order@.contains(x as usize));
                let m = choose|m: int| 0 <= m < order@.len() && order@[m] == x as usize;
                assert((rank@[order@[m] as int] as int) == m);
            }
            assert forall|i2: int, k2: int|
                0 <= i2 < n && 0 <= k2 < g.deps@[i2]@.len() implies (g.rank@[
                #[trigger] g.deps@[i2]@[k2] as int
            ] as int) < g.rank@[i2] as int by {
                let pos = g.rank@[i2] as int;
                assert((g.order@[pos] as int) == i2);
                assert(dep_in_prefix(deps@, order@, pos, k2));
                let m = choose|m: int|
                    0 <= m < pos && order@[m] == deps@[order@[pos] as int]@[k2];
                let d = g.deps@[i2]@[k2];
                assert(order@[m] == d);
                assert((rank@[order@[m] as int] as int) == m);
            }
            assert(g.wf());
            assert(g.represents(services@));
            lemma_wf_no_cycle(g, services@);
            if has_self_lister(services@) {
                let i = choose|i: int|
                    0 <= i < services@.len() && services@[i].spec_dependencies().contains(
                        services@[i].id@,
                    );
                lemma_self_dependency_cycle(services@, i);
            }
        }
        Ok(g)
    }
}

} // verus!
