//! Cycles among struct definitions. A struct that holds, by value, a struct
//! that leads back to it has no finite layout; the dependency graph maps each
//! struct to the structs its fields name, and a depth-first search looks for
//! a cycle in it, reporting the path that closes one.
use vstd::prelude::*;
use crate::codegen::seqs_of;
use crate::strmap::StrMap;
use crate::text::str_eq;

verus! {

/// A dependency graph: each struct name with the names its fields depend on.
pub open spec fn graph_view(deps: StrMap<Vec<String>>) -> Map<Seq<char>, Seq<Seq<char>>> {
    deps.view().map_values(|v: Vec<String>| seqs_of(v@))
}

/// The names `u` depends on (none for a name the graph does not hold).
pub open spec fn succ(g: Map<Seq<char>, Seq<Seq<char>>>, u: Seq<char>) -> Seq<Seq<char>> {
    if g.dom().contains(u) { g[u] } else { Seq::empty() }
}

/// Whether `u` depends on `v`.
pub open spec fn edge(g: Map<Seq<char>, Seq<Seq<char>>>, u: Seq<char>, v: Seq<char>) -> bool {
    succ(g, u).contains(v)
}

/// A walk: each name depends on the next.
pub open spec fn is_walk(g: Map<Seq<char>, Seq<Seq<char>>>, w: Seq<Seq<char>>) -> bool
    decreases w.len(),
{
    if w.len() <= 1 {
        true
    } else {
        is_walk(g, w.drop_last()) && edge(g, w[w.len() - 2], w[w.len() - 1])
    }
}

/// A cycle: a walk of at least one step that ends where it starts.
pub open spec fn is_cycle(g: Map<Seq<char>, Seq<Seq<char>>>, w: Seq<Seq<char>>) -> bool {
    w.len() >= 2 && is_walk(g, w) && w[0] == w.last()
}

/// Whether the graph has a cycle.
pub open spec fn has_dependency_cycle(g: Map<Seq<char>, Seq<Seq<char>>>) -> bool {
    exists|w: Seq<Seq<char>>| is_cycle(g, w)
}

/// A cycle report: a walk whose last name occurs earlier in it, so that its
/// tail from that occurrence is a cycle.
pub open spec fn is_cycle_report(g: Map<Seq<char>, Seq<Seq<char>>>, p: Seq<Seq<char>>) -> bool {
    &&& is_walk(g, p)
    &&& exists|i: int| 0 <= i < p.len() - 1 && p[i] == p.last()
}

/// Names joined by a separator.
pub open spec fn joined(names: Seq<Seq<char>>, sep: Seq<char>) -> Seq<char>
    decreases names.len(),
{
    if names.len() == 0 {
        Seq::empty()
    } else if names.len() == 1 {
        names[0]
    } else {
        joined(names.drop_last(), sep) + sep + names.last()
    }
}

/// The error for a reported cycle.
pub open spec fn cycle_message(p: Seq<Seq<char>>) -> Seq<char> {
    "Circular dependency detected in struct definitions: "@ + joined(p, " -> "@)
}

/// A name that has been searched from completely: visited, and no longer
/// on the search path.
pub open spec fn is_done(vis: Set<Seq<char>>, path: Seq<Seq<char>>, u: Seq<char>) -> bool {
    vis.contains(u) && !path.contains(u)
}

/// The state of the search: the path is a walk of visited names, and the
/// names that are done depend only on names that are done, each of lower
/// rank, so that no cycle goes through them.
pub open spec fn search_state(
    g: Map<Seq<char>, Seq<Seq<char>>>,
    vis: Set<Seq<char>>,
    path: Seq<Seq<char>>,
    rank: Map<Seq<char>, nat>,
    next: nat,
) -> bool {
    &&& forall|i: int| 0 <= i < path.len() ==> vis.contains(#[trigger] path[i])
    &&& is_walk(g, path)
    &&& forall|u: Seq<char>| #[trigger] is_done(vis, path, u) ==> rank.dom().contains(u) && rank[u] < next
    &&& forall|u: Seq<char>, v: Seq<char>| is_done(vis, path, u) && #[trigger] edge(g, u, v)
        ==> is_done(vis, path, v) && rank[v] < rank[u]
}

proof fn lemma_walk_push(g: Map<Seq<char>, Seq<Seq<char>>>, w: Seq<Seq<char>>, x: Seq<char>)
    requires
        is_walk(g, w),
        w.len() > 0 ==> edge(g, w.last(), x),
    ensures
        is_walk(g, w.push(x)),
{
    assert(w.push(x).drop_last() =~= w);
}

/// Along a walk from a name that is done, every name is done and the ranks
/// fall, so the walk cannot come back to where it started.
proof fn lemma_walk_from_done(
    g: Map<Seq<char>, Seq<Seq<char>>>,
    vis: Set<Seq<char>>,
    path: Seq<Seq<char>>,
    rank: Map<Seq<char>, nat>,
    next: nat,
    w: Seq<Seq<char>>,
)
    requires
        search_state(g, vis, path, rank, next),
        is_walk(g, w),
        w.len() >= 1,
        is_done(vis, path, w[0]),
    ensures
        is_done(vis, path, w.last()),
        w.len() >= 2 ==> rank[w.last()] < rank[w[0]],
    decreases w.len(),
{
    if w.len() >= 2 {
        let v = w.drop_last();
        lemma_walk_from_done(g, vis, path, rank, next, v);
        assert(v.last() == w[w.len() - 2]);
        assert(edge(g, w[w.len() - 2], w[w.len() - 1]));
    }
}

/// A name that is done starts no cycle.
proof fn lemma_no_cycle_from_done(
    g: Map<Seq<char>, Seq<Seq<char>>>,
    vis: Set<Seq<char>>,
    path: Seq<Seq<char>>,
    rank: Map<Seq<char>, nat>,
    next: nat,
    x: Seq<char>,
)
    requires
        search_state(g, vis, path, rank, next),
        is_done(vis, path, x),
    ensures
        forall|w: Seq<Seq<char>>| #[trigger] is_cycle(g, w) ==> w[0] != x,
{
    assert forall|w: Seq<Seq<char>>| #[trigger] is_cycle(g, w) implies w[0] != x by {
        if w[0] == x {
            lemma_walk_from_done(g, vis, path, rank, next, w);
        }
    }
}

proof fn lemma_walk_suffix(g: Map<Seq<char>, Seq<Seq<char>>>, w: Seq<Seq<char>>, i: int)
    requires
        is_walk(g, w),
        0 <= i < w.len(),
    ensures
        is_walk(g, w.subrange(i, w.len() as int)),
    decreases w.len(),
{
    if w.len() - i >= 2 {
        lemma_walk_suffix(g, w.drop_last(), i);
        assert(w.subrange(i, w.len() as int).drop_last() =~= w.drop_last().subrange(i, w.len() - 1));
    }
}

/// The tail of a cycle report, from the earlier occurrence of its last
/// name, is a cycle.
pub proof fn lemma_report_is_cycle(g: Map<Seq<char>, Seq<Seq<char>>>, p: Seq<Seq<char>>)
    requires
        is_cycle_report(g, p),
    ensures
        has_dependency_cycle(g),
{
    let i = choose|i: int| 0 <= i < p.len() - 1 && p[i] == p.last();
    lemma_walk_suffix(g, p, i);
    let w = p.subrange(i, p.len() as int);
    assert(is_cycle(g, w));
}

proof fn lemma_walk_prefix(g: Map<Seq<char>, Seq<Seq<char>>>, w: Seq<Seq<char>>, n: int)
    requires
        is_walk(g, w),
        0 <= n <= w.len(),
    ensures
        is_walk(g, w.subrange(0, n)),
    decreases w.len(),
{
    if n < w.len() {
        lemma_walk_prefix(g, w.drop_last(), n);
        assert(w.drop_last().subrange(0, n) =~= w.subrange(0, n));
    } else {
        assert(w.subrange(0, n) =~= w);
    }
}

/// Whether `name` is among `names`.
fn contains_name(names: &Vec<String>, name: &str) -> (r: bool)
    ensures
        r == seqs_of(names@).contains(name@),
{
    let ghost s = seqs_of(names@);
    let mut i: usize = 0;
    while i < names.len()
        invariant
            s == seqs_of(names@),
            i <= names@.len(),
            forall|j: int| 0 <= j < i ==> s[j] != name@,
        decreases names@.len() - i,
    {
        if str_eq(names[i].as_str(), name) {
            assert(s[i as int] == name@);
            return true;
        }
        i = i + 1;
    }
    false
}

/// Names joined by `sep`.
pub fn join_names(names: &Vec<String>, sep: &str) -> (r: String)
    ensures
        r@ == joined(seqs_of(names@), sep@),
{
    let ghost s = seqs_of(names@);
    let mut r = String::new();
    let mut i: usize = 0;
    while i < names.len()
        invariant
            s == seqs_of(names@),
            i <= names@.len(),
            r@ == joined(s.take(i as int), sep@),
        decreases names@.len() - i,
    {
        if i > 0 {
            r.append(sep);
        }
        r.append(names[i].as_str());
        proof {
            assert(s.take(i + 1).drop_last() =~= s.take(i as int));
        }
        i = i + 1;
    }
    assert(s.take(i as int) =~= s);
    r
}

/// Depth-first search for a cycle from `current`. On finding one it leaves
/// the path extended to a cycle report; otherwise `current` and everything
/// it leads to are visited, and the path is as it was.
fn has_cycle(
    dependencies: &StrMap<Vec<String>>,
    current: &str,
    visited: &mut StrMap<()>,
    path: &mut Vec<String>,
    Ghost(rank): Ghost<Map<Seq<char>, nat>>,
    Ghost(next): Ghost<nat>,
    Ghost(budget): Ghost<nat>,
) -> (r: (bool, Ghost<(Map<Seq<char>, nat>, nat)>))
    requires
        search_state(graph_view(*dependencies), old(visited).view().dom(), seqs_of(old(path)@), rank, next),
        seqs_of(old(path)@).len() > 0 ==> edge(graph_view(*dependencies), seqs_of(old(path)@).last(), current@),
        graph_view(*dependencies).dom().finite(),
        graph_view(*dependencies).dom().difference(old(visited).view().dom()).len() <= budget,
    ensures
        r.0 ==> {
            let p = seqs_of(final(path)@);
            &&& is_cycle_report(graph_view(*dependencies), p)
            &&& p.len() > seqs_of(old(path)@).len()
            &&& p.subrange(0, seqs_of(old(path)@).len() as int) == seqs_of(old(path)@)
            &&& p[seqs_of(old(path)@).len() as int] == current@
        },
        !r.0 ==> {
            &&& final(path)@ == old(path)@
            &&& old(visited).view().dom().subset_of(final(visited).view().dom())
            &&& search_state(graph_view(*dependencies), final(visited).view().dom(), seqs_of(old(path)@), r.1@.0, r.1@.1)
            &&& is_done(final(visited).view().dom(), seqs_of(old(path)@), current@)
        },
    decreases budget,
{
    let ghost g = graph_view(*dependencies);
    let ghost p0 = seqs_of(path@);
    if contains_name(path, current) {
        path.push(current.to_owned());
        proof {
            let p = seqs_of(path@);
            assert(p =~= p0.push(current@));
            lemma_walk_push(g, p0, current@);
            let i = choose|i: int| 0 <= i < p0.len() && p0[i] == current@;
            assert(p[i] == p.last());
            assert(p.subrange(0, p0.len() as int) =~= p0);
        }
        return (true, Ghost((rank, next)));
    }
    if visited.contains_key(current) {
        return (false, Ghost((rank, next)));
    }
    let ghost v0 = visited.view().dom();
    visited.insert(current.to_owned(), ());
    path.push(current.to_owned());
    let ghost p1 = seqs_of(path@);
    let ghost pushed = path@;
    proof {
        assert(p1 =~= p0.push(current@));
        lemma_walk_push(g, p0, current@);
        let v1 = visited.view().dom();
        assert(v1 =~= v0.insert(current@));
        assert(p1[p1.len() - 1] == current@);
        assert forall|u: Seq<char>| #[trigger] is_done(v1, p1, u) implies is_done(v0, p0, u) by {
            assert(p1.contains(current@));
            if p0.contains(u) {
                let k = choose|k: int| 0 <= k < p0.len() && p0[k] == u;
                assert(p1[k] == u);
            }
        }
        assert forall|u: Seq<char>, v: Seq<char>| is_done(v1, p1, u) && #[trigger] edge(g, u, v)
            implies is_done(v1, p1, v) && rank[v] < rank[u] by {
            assert(is_done(v0, p0, u));
            assert(is_done(v0, p0, v));
            if p1.contains(v) {
                let k = choose|k: int| 0 <= k < p1.len() && p1[k] == v;
                if k < p0.len() {
                    assert(p0[k] == v);
                }
            }
        }
        assert forall|i: int| 0 <= i < p1.len() implies v1.contains(#[trigger] p1[i]) by {
            if i < p0.len() {
                assert(p0[i] == p1[i]);
            }
        }
    }
    let ghost mut rank1 = rank;
    let ghost mut next1 = next;
    match dependencies.get(current) {
        Some(deps) => {
            proof {
                assert(g.dom().contains(current@));
                assert(g.dom().difference(visited.view().dom()) =~= g.dom().difference(v0).remove(current@));
            }
            assert(pushed.drop_last() =~= old(path)@);
            let mut i: usize = 0;
            while i < deps.len()
                invariant
                    g == graph_view(*dependencies),
                    g.dom().finite(),
                    g.dom().contains(current@),
                    succ(g, current@) == seqs_of(deps@),
                    seqs_of(path@) == p1,
                    path@ == pushed,
                    pushed.drop_last() == old(path)@,
                    p1 == p0.push(current@),
                    !p0.contains(current@),
                    v0.subset_of(visited.view().dom()),
                    visited.view().dom().contains(current@),
                    search_state(g, visited.view().dom(), p1, rank1, next1),
                    g.dom().difference(visited.view().dom()).len() < budget,
                    i <= deps@.len(),
                    forall|j: int| 0 <= j < i ==> is_done(visited.view().dom(), p1, #[trigger] seqs_of(deps@)[j]),
                decreases deps@.len() - i,
            {
                let ghost vb = visited.view().dom();
                proof {
                    assert(seqs_of(deps@)[i as int] == deps@[i as int]@);
                    assert(p1.last() == current@);
                    assert(succ(g, current@).contains(deps@[i as int]@));
                }
                let (found, Ghost(st)) = has_cycle(
                    dependencies,
                    deps[i].as_str(),
                    visited,
                    path,
                    Ghost(rank1),
                    Ghost(next1),
                    Ghost((budget - 1) as nat),
                );
                if found {
                    proof {
                        let p = seqs_of(path@);
                        let q = p.subrange(0, p1.len() as int);
                        assert(q == p1);
                        assert(p.subrange(0, p0.len() as int) =~= p0) by {
                            assert forall|j: int| 0 <= j < p0.len() implies p.subrange(0, p0.len() as int)[j] == p0[j] by {
                                assert(q[j] == p[j]);
                                assert(p1[j] == p0[j]);
                            }
                        }
                        assert(q[p0.len() as int] == p[p0.len() as int]);
                        assert(p1[p0.len() as int] == current@);
                    }
                    return (true, Ghost(st));
                }
                proof {
                    rank1 = st.0;
                    next1 = st.1;
                    let va = visited.view().dom();
                    assert forall|j: int| 0 <= j < i + 1 implies is_done(va, p1, #[trigger] seqs_of(deps@)[j]) by {
                        if j < i {
                            assert(is_done(vb, p1, seqs_of(deps@)[j]));
                        }
                    }
                    assert(g.dom().difference(va).subset_of(g.dom().difference(vb)));
                    vstd::set_lib::lemma_len_subset(g.dom().difference(va), g.dom().difference(vb));
                }
                i = i + 1;
            }
            proof {
                assert forall|v: Seq<char>| #[trigger] edge(g, current@, v) implies is_done(visited.view().dom(), p1, v) by {
                    let k = choose|k: int| 0 <= k < succ(g, current@).len() && succ(g, current@)[k] == v;
                    assert(is_done(visited.view().dom(), p1, seqs_of(deps@)[k]));
                }
            }
        }
        None => {
            proof {
                assert(succ(g, current@) =~= Seq::<Seq<char>>::empty());
            }
        }
    }
    assert(pushed.drop_last() =~= old(path)@);
    path.pop();
    proof {
        assert(path@ =~= old(path)@);
        assert(seqs_of(path@) =~= p0);
        let v2 = visited.view().dom();
        let rank2 = rank1.insert(current@, next1);
        assert forall|u: Seq<char>| #[trigger] is_done(v2, p0, u) implies rank2.dom().contains(u) && rank2[u] < next1 + 1 by {
            if u != current@ {
                if p1.contains(u) {
                    let k = choose|k: int| 0 <= k < p1.len() && p1[k] == u;
                    if k < p0.len() {
                        assert(p0[k] == u);
                    }
                }
                assert(is_done(v2, p1, u));
            }
        }
        assert(p1[p1.len() - 1] == current@);
        assert forall|u: Seq<char>, v: Seq<char>| is_done(v2, p0, u) && #[trigger] edge(g, u, v)
            implies is_done(v2, p0, v) && rank2[v] < rank2[u] by {
            if u == current@ {
                assert(is_done(v2, p1, v));
            } else {
                if p1.contains(u) {
                    let k = choose|k: int| 0 <= k < p1.len() && p1[k] == u;
                    if k < p0.len() {
                        assert(p0[k] == u);
                    }
                }
                assert(is_done(v2, p1, u));
                assert(is_done(v2, p1, v));
            }
            if p0.contains(v) {
                let k = choose|k: int| 0 <= k < p0.len() && p0[k] == v;
                assert(p1[k] == v);
            }
        }
        assert forall|i: int| 0 <= i < p0.len() implies v2.contains(#[trigger] p0[i]) by {
            assert(p1[i] == p0[i]);
        }
        assert(search_state(g, v2, p0, rank2, next1 + 1));
        rank1 = rank2;
        next1 = next1 + 1;
    }
    (false, Ghost((rank1, next1)))
}

/// Looks for a cycle in the dependency graph, searching from each struct in
/// turn. Succeeds exactly when there is none; otherwise the error gives the
/// path that closes a cycle.
pub fn check_dependency_cycles(dependencies: &StrMap<Vec<String>>) -> (r: Result<(), String>)
    ensures
        r is Ok <==> !has_dependency_cycle(graph_view(*dependencies)),
        r matches Err(e) ==> exists|p: Seq<Seq<char>>|
            is_cycle_report(graph_view(*dependencies), p) && e@ == cycle_message(p),
{
    let ghost g = graph_view(*dependencies);
    let n = dependencies.len();
    assert(g.dom() =~= dependencies.view().dom());
    let mut k: usize = 0;
    while k < n
        invariant
            g == graph_view(*dependencies),
            n == dependencies.key_order().len(),
            g.dom().finite(),
            forall|x: Seq<char>| #[trigger] g.dom().contains(x) <==> dependencies.key_order().contains(x),
            k <= n,
            forall|w: Seq<Seq<char>>| #[trigger] is_cycle(g, w) ==> !dependencies.key_order().take(k as int).contains(w[0]),
        decreases n - k,
    {
        let (name, _) = dependencies.entry_at(k);
        let mut visited: StrMap<()> = StrMap::new();
        let mut path: Vec<String> = Vec::new();
        proof {
            assert(seqs_of(path@) =~= Seq::<Seq<char>>::empty());
            assert(g.dom().difference(visited.view().dom()) =~= g.dom());
            assert(search_state(g, visited.view().dom(), seqs_of(path@), Map::empty(), 0));
        }
        let (found, Ghost(st)) = has_cycle(
            dependencies,
            name.as_str(),
            &mut visited,
            &mut path,
            Ghost(Map::empty()),
            Ghost(0),
            Ghost(g.dom().len()),
        );
        if found {
            let mut e = "Circular dependency detected in struct definitions: ".to_owned();
            let joined_path = join_names(&path, " -> ");
            e.append(joined_path.as_str());
            proof {
                lemma_report_is_cycle(g, seqs_of(path@));
                assert(is_cycle_report(g, seqs_of(path@)) && e@ == cycle_message(seqs_of(path@)));
            }
            return Err(e);
        }
        proof {
            lemma_no_cycle_from_done(g, visited.view().dom(), seqs_of(path@), st.0, st.1, name@);
            let ks = dependencies.key_order();
            assert(ks[k as int] == name@);
            assert forall|w: Seq<Seq<char>>| #[trigger] is_cycle(g, w) implies !ks.take(k + 1).contains(w[0]) by {
                assert(!ks.take(k as int).contains(w[0]));
                let t = ks.take(k + 1);
                if t.contains(w[0]) {
                    let j = choose|j: int| 0 <= j < t.len() && t[j] == w[0];
                    if j < k {
                        assert(ks.take(k as int)[j] == w[0]);
                    }
                }
            }
        }
        k = k + 1;
    }
    proof {
        let ks = dependencies.key_order();
        assert(ks.take(n as int) =~= ks);
        assert forall|w: Seq<Seq<char>>| is_cycle(g, w) implies false by {
            assert(w.len() >= 2);
            assert(edge(g, w[0], w[1])) by {
                lemma_walk_prefix(g, w, 2);
                let w2 = w.subrange(0, 2);
                assert(w2.drop_last().len() == 1);
            }
            assert(g.dom().contains(w[0]));
        }
    }
    Ok(())
}

} // verus!
