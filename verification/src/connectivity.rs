//! Connected-component extraction over an atom bond graph, with the
//! breadth-first spanning steps a caller replays to unwrap a fragment
//! across periodic boundaries.

use vstd::prelude::*;

verus! {

/// One connected fragment of the bond graph: its member atom indices in
/// ascending order, the anchor the traversal started from, and the
/// breadth-first steps `(from, to)` that reach every other member from
/// the anchor along graph edges.
pub struct Fragment {
    pub anchor: usize,
    pub indices: Vec<usize>,
    pub steps: Vec<(usize, usize)>,
}

/// Every entry lies below `n`.
pub open spec fn all_below(s: Seq<usize>, n: nat) -> bool {
    forall|i: int| 0 <= i < s.len() ==> (#[trigger] s[i]) < n
}

/// Entries are pairwise distinct.
pub open spec fn distinct_seq(s: Seq<usize>) -> bool {
    forall|i: int, j: int| 0 <= i < j < s.len() ==> s[i] != s[j]
}

/// Entries are strictly ascending.
pub open spec fn strictly_sorted(s: Seq<usize>) -> bool {
    forall|i: int, j: int| 0 <= i < j < s.len() ==> s[i] < s[j]
}

/// Every step's target sits one position further in the discovery
/// order than the step itself.
pub open spec fn comp_steps_linked(comp: Seq<usize>, steps: Seq<(usize, usize)>) -> bool {
    &&& comp.len() == steps.len() + 1
    &&& forall|s: int| 0 <= s < steps.len() ==> (#[trigger] steps[s]).1 == comp[s + 1]
}

/// Every step follows a recorded graph edge.
pub open spec fn steps_edges(steps: Seq<(usize, usize)>, adj: Seq<Seq<usize>>) -> bool {
    forall|s: int|
        0 <= s < steps.len() ==> (#[trigger] steps[s]).0 < adj.len() && adj[steps[s].0 as int]
            .contains(steps[s].1)
}

/// Every step starts at the anchor or at the target of an earlier step,
/// so replaying the steps in order assigns each target a position.
pub open spec fn steps_sources(steps: Seq<(usize, usize)>, anchor: usize) -> bool {
    forall|s: int|
        0 <= s < steps.len() ==> ((#[trigger] steps[s]).0 == anchor || exists|t: int|
            0 <= t < s && steps[t].1 == steps[s].0)
}

/// A well-formed fragment over the adjacency list `adj`.
pub open spec fn frag_wf(fr: Fragment, adj: Seq<Seq<usize>>) -> bool {
    &&& strictly_sorted(fr.indices@)
    &&& all_below(fr.indices@, adj.len())
    &&& fr.indices@.contains(fr.anchor)
    &&& steps_edges(fr.steps@, adj)
    &&& steps_sources(fr.steps@, fr.anchor)
    &&& forall|s: int, t: int|
        0 <= s < t < fr.steps@.len() ==> (#[trigger] fr.steps@[s]).1 != (#[trigger] fr.steps@[t]).1
    &&& forall|s: int| 0 <= s < fr.steps@.len() ==> (#[trigger] fr.steps@[s]).1 != fr.anchor
    &&& forall|s: int|
        0 <= s < fr.steps@.len() ==> fr.indices@.contains((#[trigger] fr.steps@[s]).1)
    &&& forall|i: int|
        0 <= i < fr.indices@.len() ==> ((#[trigger] fr.indices@[i]) == fr.anchor || exists|s: int|
            0 <= s < fr.steps@.len() && fr.steps@[s].1 == fr.indices@[i])
}

/// A symmetric adjacency list on `n` vertices: every listed neighbour
/// is in range and lists the vertex back.
pub open spec fn adj_wf(adj: Seq<Seq<usize>>, n: nat) -> bool {
    &&& adj.len() == n
    &&& forall|i: int, j: int|
        0 <= i < adj.len() && 0 <= j < adj[i].len() ==> (#[trigger] adj[i][j]) < n
    &&& forall|i: int, j: int|
        0 <= i < adj.len() && 0 <= j < adj[i].len() ==> adj[(#[trigger] adj[i][j]) as int]
            .contains(i as usize)
}

/// Every neighbour of `a` is a member of `s`.
pub open spec fn row_closed(adj: Seq<Seq<usize>>, a: usize, s: Seq<usize>) -> bool {
    forall|j: int| 0 <= j < adj[a as int].len() ==> s.contains(#[trigger] adj[a as int][j])
}

/// Every neighbour of a member is itself a member.
pub open spec fn frag_closed(fr: Fragment, adj: Seq<Seq<usize>>) -> bool {
    forall|i: int|
        0 <= i < fr.indices@.len() ==> row_closed(adj, #[trigger] fr.indices@[i], fr.indices@)
}

/// Some fragment holds both vertices.
pub open spec fn same_fragment(frags: Seq<Fragment>, x: usize, y: usize) -> bool {
    exists|f: int|
        0 <= f < frags.len() && (#[trigger] frags[f]).indices@.contains(x) && frags[f].indices@
            .contains(y)
}

/// Each listed fragment member is flagged in `visited`.
pub open spec fn frags_visited(frags: Seq<Fragment>, visited: Seq<bool>) -> bool {
    forall|f: int, i: int|
        0 <= f < frags.len() && 0 <= i < frags[f].indices@.len() ==> (#[trigger] frags[f].indices@[i])
            < visited.len() && visited[frags[f].indices@[i] as int]
}

/// Some fragment lists the vertex.
pub open spec fn appears(frags: Seq<Fragment>, v: usize) -> bool {
    exists|f: int| 0 <= f < frags.len() && (#[trigger] frags[f]).indices@.contains(v)
}

/// Each flagged vertex is listed in some fragment.
pub open spec fn visited_covered(frags: Seq<Fragment>, visited: Seq<bool>) -> bool {
    forall|v: usize| v < visited.len() && visited[v as int] ==> #[trigger] appears(frags, v)
}

/// Distinct fragments share no member.
pub open spec fn frags_disjoint(frags: Seq<Fragment>) -> bool {
    forall|f: int, g: int, v: usize|
        0 <= f < frags.len() && 0 <= g < frags.len() && f != g && #[trigger] frags[f].indices@
            .contains(v) ==> !(#[trigger] frags[g].indices@.contains(v))
}

/// How many entries are still false.
pub closed spec fn count_false(s: Seq<bool>) -> nat
    decreases s.len(),
{
    if s.len() == 0 {
        0
    } else {
        (if s[0] {
            0nat
        } else {
            1nat
        }) + count_false(s.drop_first())
    }
}

proof fn lemma_count_false_update(s: Seq<bool>, i: int)
    requires
        0 <= i < s.len(),
        !s[i],
    ensures
        count_false(s.update(i, true)) + 1 == count_false(s),
    decreases s.len(),
{
    if i == 0 {
        assert(s.update(0, true).drop_first() =~= s.drop_first());
    } else {
        assert(s.update(i, true).drop_first() =~= s.drop_first().update(i - 1, true));
        lemma_count_false_update(s.drop_first(), i - 1);
    }
}

/// A vector of `n` false flags.
fn falses(n: usize) -> (v: Vec<bool>)
    ensures
        v@.len() == n,
        forall|i: int| 0 <= i < n ==> !v@[i],
{
    let mut v: Vec<bool> = Vec::new();
    let mut i: usize = 0;
    while i < n
        invariant
            i <= n,
            v@.len() == i,
            forall|j: int| 0 <= j < i ==> !v@[j],
        decreases n - i,
    {
        v.push(false);
        i = i + 1;
    }
    v
}

proof fn lemma_contains_push(s: Seq<usize>, x: usize, v: usize)
    ensures
        s.push(x).contains(v) <==> (s.contains(v) || v == x),
{
    assert(s.push(x)[s.len() as int] == x);
    if s.contains(v) {
        let i = choose|i: int| 0 <= i < s.len() && s[i] == v;
        assert(s.push(x)[i] == v);
    }
    if s.push(x).contains(v) && v != x {
        let i = choose|i: int| 0 <= i < s.push(x).len() && s.push(x)[i] == v;
        assert(s[i] == v);
    }
}

/// The deep view of a nested vector indexes to the inner views.
proof fn lemma_adj_index(adj: &Vec<Vec<usize>>, i: int)
    requires
        0 <= i < adj@.len(),
    ensures
        adj.deep_view().len() == adj@.len(),
        adj.deep_view()[i] =~= adj@[i]@,
{
    assert(adj.deep_view()[i] =~= adj@[i].deep_view());
    assert(adj@[i].deep_view() =~= adj@[i]@);
}

/// Breadth-first decomposition of the bond graph into connected
/// fragments.  The returned fragments partition the vertex set
/// 0..n (so every bonded atom is covered and no atom is assigned
/// twice), two bonded atoms always land in the same fragment, each
/// fragment is listed in ascending index order, and each carries the
/// spanning steps used to position its members from the anchor.
#[verifier::loop_isolation(false)]
pub fn find_fragments(n: usize, adj: &Vec<Vec<usize>>) -> (frags: Vec<Fragment>)
    requires
        adj_wf(adj.deep_view(), n as nat),
    ensures
        forall|f: int| 0 <= f < frags@.len() ==> frag_wf(#[trigger] frags@[f], adj.deep_view()),
        forall|f: int| 0 <= f < frags@.len() ==> frag_closed(#[trigger] frags@[f], adj.deep_view()),
        forall|v: usize| v < n ==> #[trigger] appears(frags@, v),
        frags_disjoint(frags@),
        forall|a: int, j: int|
            0 <= a < n && 0 <= j < adj.deep_view()[a].len() ==> same_fragment(
                frags@,
                a as usize,
                #[trigger] adj.deep_view()[a][j],
            ),
{
    let ghost adjv = adj.deep_view();
    let mut visited: Vec<bool> = falses(n);
    let mut frags: Vec<Fragment> = Vec::new();
    let mut start: usize = 0;
    while start < n
        invariant
            adj_wf(adjv, n as nat),
            adjv == adj.deep_view(),
            start <= n,
            visited@.len() == n,
            forall|w: int| 0 <= w < start ==> visited@[w],
            frags_visited(frags@, visited@),
            visited_covered(frags@, visited@),
            frags_disjoint(frags@),
            forall|f: int| 0 <= f < frags@.len() ==> frag_wf(#[trigger] frags@[f], adjv),
            forall|f: int| 0 <= f < frags@.len() ==> frag_closed(#[trigger] frags@[f], adjv),
        decreases n - start,
    {
        if !visited[start] {
            let ghost snap = visited@;
            proof {
                assert(frags_visited(frags@, snap));
                assert(visited_covered(frags@, snap));
            }
            let mut comp: Vec<usize> = Vec::new();
            let mut steps: Vec<(usize, usize)> = Vec::new();
            let mut mark: Vec<bool> = falses(n);
            visited.set(start, true);
            mark.set(start, true);
            comp.push(start);
            proof {
                lemma_count_false_update(snap, start as int);
                assert(comp@[0] == start);
                assert forall|v: int| 0 <= v < n implies (visited@[v] <==> (snap[v]
                    || comp@.contains(v as usize))) by {
                    if v == start as int {
                        assert(comp@[0] == start);
                    } else {
                        if comp@.contains(v as usize) {
                            let i = choose|i: int| 0 <= i < comp@.len() && comp@[i] == v as usize;
                            assert(i == 0);
                        }
                    }
                };
                assert forall|v: int| 0 <= v < n && mark@[v] implies comp@.contains(v as usize) by {
                    assert(v == start as int);
                    assert(comp@[0] == start);
                };
            }
            let mut qhead: usize = 0;
            while qhead < comp.len()
                invariant
                    adj_wf(adjv, n as nat),
                    adjv == adj.deep_view(),
                    visited@.len() == n,
                    mark@.len() == n,
                    snap.len() == n,
                    qhead <= comp@.len(),
                    comp@.len() > 0,
                    comp@[0] == start,
                    start < n,
                    comp_steps_linked(comp@, steps@),
                    distinct_seq(comp@),
                    all_below(comp@, n as nat),
                    forall|i: int|
                        0 <= i < comp@.len() ==> visited@[(#[trigger] comp@[i]) as int] && mark@[comp@[i] as int],
                    forall|i: int| 0 <= i < comp@.len() ==> !snap[(#[trigger] comp@[i]) as int],
                    forall|v: int|
                        0 <= v < n ==> (visited@[v] <==> (snap[v] || comp@.contains(v as usize))),
                    forall|v: int| 0 <= v < n && mark@[v] ==> comp@.contains(v as usize),
                    steps_edges(steps@, adjv),
                    steps_sources(steps@, start),
                    forall|qi: int|
                        0 <= qi < qhead ==> row_closed(adjv, #[trigger] comp@[qi], comp@),
                decreases count_false(visited@), comp@.len() - qhead,
            {
                let cur = comp[qhead];
                let ghost visited0 = visited@;
                let ghost comp0 = comp@;
                proof {
                    lemma_adj_index(adj, cur as int);
                }
                let deg = adj[cur].len();
                let mut ai: usize = 0;
                while ai < deg
                    invariant
                        adj_wf(adjv, n as nat),
                        adjv == adj.deep_view(),
                        visited@.len() == n,
                        mark@.len() == n,
                        snap.len() == n,
                        qhead < comp@.len(),
                        comp@[0] == start,
                        start < n,
                        cur == comp@[qhead as int],
                        cur < n,
                        deg == adjv[cur as int].len(),
                        ai <= deg,
                        comp_steps_linked(comp@, steps@),
                        distinct_seq(comp@),
                        all_below(comp@, n as nat),
                        forall|i: int|
                            0 <= i < comp@.len() ==> visited@[(#[trigger] comp@[i]) as int] && mark@[comp@[i] as int],
                        forall|i: int| 0 <= i < comp@.len() ==> !snap[(#[trigger] comp@[i]) as int],
                        forall|v: int|
                            0 <= v < n ==> (visited@[v] <==> (snap[v] || comp@.contains(
                                v as usize,
                            ))),
                        forall|v: int| 0 <= v < n && mark@[v] ==> comp@.contains(v as usize),
                        steps_edges(steps@, adjv),
                        steps_sources(steps@, start),
                        forall|qi: int|
                            0 <= qi < qhead ==> row_closed(adjv, #[trigger] comp@[qi], comp@),
                        forall|j: int| 0 <= j < ai ==> comp@.contains(#[trigger] adjv[cur as int][j]),
                        (visited@ == visited0 && comp@ == comp0) || count_false(visited@)
                            < count_false(visited0),
                    decreases deg - ai,
                {
                    proof {
                        lemma_adj_index(adj, cur as int);
                    }
                    let nb = adj[cur][ai];
                    assert(nb == adjv[cur as int][ai as int]);
                    assert(nb < n);
                    if !visited[nb] {
                        let ghost comp_pre = comp@;
                        let ghost steps_pre = steps@;
                        proof {
                            assert forall|i: int| 0 <= i < comp@.len() implies (#[trigger] comp@[i])
                                != nb by {
                                assert(visited@[comp@[i] as int]);
                            }
                            assert(!comp@.contains(nb));
                            lemma_count_false_update(visited@, nb as int);
                        }
                        visited.set(nb, true);
                        mark.set(nb, true);
                        steps.push((cur, nb));
                        comp.push(nb);
                        proof {
                            assert(comp@ == comp_pre.push(nb));
                            assert(comp@[comp_pre.len() as int] == nb);
                            assert(steps@[steps_pre.len() as int] == (cur, nb));
                            assert forall|v: int| 0 <= v < n implies (visited@[v] <==> (snap[v]
                                || comp@.contains(v as usize))) by {
                                lemma_contains_push(comp_pre, nb, v as usize);
                            };
                            assert forall|v: int| 0 <= v < n && mark@[v] implies comp@.contains(
                                v as usize,
                            ) by {
                                lemma_contains_push(comp_pre, nb, v as usize);
                            };
                            assert forall|i: int| 0 <= i < comp@.len() implies visited@[(
                            #[trigger] comp@[i]) as int] && mark@[comp@[i] as int] by {
                                if i < comp_pre.len() {
                                    assert(comp@[i] == comp_pre[i]);
                                }
                            };
                            assert(adjv[cur as int].contains(nb)) by {
                                assert(adjv[cur as int][ai as int] == nb);
                            };
                            assert(steps_edges(steps@, adjv)) by {
                                assert forall|s: int| 0 <= s < steps@.len() implies (
                                #[trigger] steps@[s]).0 < adjv.len() && adjv[steps@[s].0 as int]
                                    .contains(steps@[s].1) by {
                                    if s < steps_pre.len() {
                                        assert(steps@[s] == steps_pre[s]);
                                    } else {
                                        assert(steps@[s] == (cur, nb));
                                    }
                                };
                            };
                            assert forall|s: int| 0 <= s < steps@.len() implies ((
                            #[trigger] steps@[s]).0 == start || exists|t: int|
                                0 <= t < s && steps@[t].1 == steps@[s].0) by {
                                if s < steps_pre.len() {
                                    assert(steps@[s] == steps_pre[s]);
                                    if steps_pre[s].0 != start {
                                        let t = choose|t: int|
                                            0 <= t < s && steps_pre[t].1 == steps_pre[s].0;
                                        assert(steps@[t] == steps_pre[t]);
                                        assert(steps@[t].1 == steps@[s].0);
                                    }
                                } else {
                                    assert(steps@[s] == (cur, nb));
                                    if qhead > 0 {
                                        assert(steps_pre[qhead - 1].1 == comp_pre[qhead as int]);
                                        assert(steps@[qhead - 1] == steps_pre[qhead - 1]);
                                        assert(steps@[qhead - 1].1 == steps@[s].0);
                                        assert(qhead - 1 < s);
                                    } else {
                                        assert(cur == comp@[0]);
                                    }
                                }
                            };
                        }
                        assert forall|qi: int| 0 <= qi < qhead implies row_closed(
                            adjv,
                            #[trigger] comp@[qi],
                            comp@,
                        ) by {
                            assert(comp@[qi] == comp_pre[qi]);
                            assert(row_closed(adjv, comp_pre[qi], comp_pre));
                            assert forall|j: int|
                                0 <= j < adjv[comp@[qi] as int].len() implies comp@.contains(
                                #[trigger] adjv[comp@[qi] as int][j],
                            ) by {
                                lemma_contains_push(comp_pre, nb, adjv[comp@[qi] as int][j]);
                            }
                        };
                        assert forall|j: int| 0 <= j <= ai implies comp@.contains(
                            #[trigger] adjv[cur as int][j],
                        ) by {
                            if j < ai {
                                lemma_contains_push(comp_pre, nb, adjv[cur as int][j]);
                            } else {
                                assert(comp@[comp_pre.len() as int] == nb);
                            }
                        };
                    } else {
                        proof {
                            if !comp@.contains(nb) {
                                assert(snap[nb as int]);
                                assert(appears(frags@, nb));
                                let g = choose|f: int|
                                    0 <= f < frags@.len() && (#[trigger] frags@[f]).indices@
                                        .contains(nb);
                                assert(adjv[nb as int].contains(cur));
                                let jj = choose|j: int|
                                    0 <= j < adjv[nb as int].len() && adjv[nb as int][j] == cur;
                                let ii = choose|i: int|
                                    0 <= i < frags@[g].indices@.len() && frags@[g].indices@[i]
                                        == nb;
                                assert(row_closed(adjv, nb, frags@[g].indices@));
                                assert(frags@[g].indices@.contains(adjv[nb as int][jj]));
                                assert(frags@[g].indices@.contains(cur));
                                let kk = choose|i: int|
                                    0 <= i < frags@[g].indices@.len() && frags@[g].indices@[i]
                                        == cur;
                                assert(snap[cur as int]);
                                assert(comp@[qhead as int] == cur);
                                assert(!snap[cur as int]);
                            }
                            assert(comp@.contains(nb));
                        }
                    }
                    ai = ai + 1;
                }
                proof {
                    assert(row_closed(adjv, cur, comp@));
                    assert(comp@[qhead as int] == cur);
                }
                qhead = qhead + 1;
            }
            // Collect the members in ascending order via the marks.
            let mut indices: Vec<usize> = Vec::new();
            let mut w: usize = 0;
            while w < n
                invariant
                    w <= n,
                    mark@.len() == n,
                    strictly_sorted(indices@),
                    forall|i: int| 0 <= i < indices@.len() ==> (#[trigger] indices@[i]) < w,
                    forall|i: int|
                        0 <= i < indices@.len() ==> mark@[(#[trigger] indices@[i]) as int],
                    forall|v: int| 0 <= v < w && mark@[v] ==> indices@.contains(v as usize),
                decreases n - w,
            {
                if mark[w] {
                    let ghost indices_pre = indices@;
                    indices.push(w);
                    proof {
                        assert forall|v: int| 0 <= v < w + 1 && mark@[v] implies indices@.contains(
                            v as usize,
                        ) by {
                            lemma_contains_push(indices_pre, w, v as usize);
                        };
                    }
                }
                w = w + 1;
            }
            let fragment = Fragment { anchor: start, indices, steps };
            proof {
                // Members and marks coincide with the discovery order.
                assert forall|v: usize| fragment.indices@.contains(v) implies comp@.contains(v)
                    && !snap[v as int] && visited@[v as int] by {
                    let i = choose|i: int|
                        0 <= i < fragment.indices@.len() && fragment.indices@[i] == v;
                    assert(mark@[v as int]);
                    let j = choose|j: int| 0 <= j < comp@.len() && comp@[j] == v;
                    assert(visited@[comp@[j] as int]);
                    assert(!snap[comp@[j] as int]);
                };
                assert forall|v: usize| comp@.contains(v) implies fragment.indices@.contains(v) by {
                    let j = choose|j: int| 0 <= j < comp@.len() && comp@[j] == v;
                    assert(mark@[v as int]);
                    assert(v < n);
                };
                assert(comp@.contains(start));
                assert(fragment.indices@.contains(fragment.anchor));
                // Step targets are distinct, differ from the anchor,
                // and together with the anchor cover the members.
                assert forall|s: int, t: int| 0 <= s < t < fragment.steps@.len() implies (
                #[trigger] fragment.steps@[s]).1 != (#[trigger] fragment.steps@[t]).1 by {
                    assert(fragment.steps@[s].1 == comp@[s + 1]);
                    assert(fragment.steps@[t].1 == comp@[t + 1]);
                };
                assert forall|s: int| 0 <= s < fragment.steps@.len() implies (
                #[trigger] fragment.steps@[s]).1 != fragment.anchor by {
                    assert(fragment.steps@[s].1 == comp@[s + 1]);
                    assert(comp@[0] == start);
                };
                assert forall|s: int| 0 <= s < fragment.steps@.len() implies fragment.indices@
                    .contains((#[trigger] fragment.steps@[s]).1) by {
                    assert(fragment.steps@[s].1 == comp@[s + 1]);
                    assert(comp@.contains(comp@[s + 1]));
                };
                assert forall|i: int| 0 <= i < fragment.indices@.len() implies ((
                #[trigger] fragment.indices@[i]) == fragment.anchor || exists|s: int|
                    0 <= s < fragment.steps@.len() && fragment.steps@[s].1
                        == fragment.indices@[i]) by {
                    let v = fragment.indices@[i];
                    assert(fragment.indices@.contains(v));
                    assert(comp@.contains(v));
                    let j = choose|j: int| 0 <= j < comp@.len() && comp@[j] == v;
                    if j > 0 {
                        assert(fragment.steps@[j - 1].1 == comp@[j]);
                    }
                };
                assert(frag_wf(fragment, adjv));
                assert forall|i: int| 0 <= i < fragment.indices@.len() implies row_closed(
                    adjv,
                    #[trigger] fragment.indices@[i],
                    fragment.indices@,
                ) by {
                    let a = fragment.indices@[i];
                    assert(fragment.indices@.contains(a));
                    assert(comp@.contains(a));
                    let qi = choose|q: int| 0 <= q < comp@.len() && comp@[q] == a;
                    assert(row_closed(adjv, comp@[qi], comp@));
                    assert forall|j: int|
                        0 <= j < adjv[a as int].len() implies fragment.indices@.contains(
                        #[trigger] adjv[a as int][j],
                    ) by {
                        assert(comp@.contains(adjv[a as int][j]));
                    }
                };
                assert(frag_closed(fragment, adjv));
            }
            let ghost frags0 = frags@;
            frags.push(fragment);
            proof {
                assert forall|f: int| 0 <= f < frags@.len() implies frag_wf(
                    #[trigger] frags@[f],
                    adjv,
                ) by {
                    if f < frags0.len() {
                        assert(frags@[f] == frags0[f]);
                    }
                };
                assert forall|f: int| 0 <= f < frags@.len() implies frag_closed(
                    #[trigger] frags@[f],
                    adjv,
                ) by {
                    if f < frags0.len() {
                        assert(frags@[f] == frags0[f]);
                    } else {
                        assert(frags@[f] == fragment);
                    }
                };
                // Fresh members were not visited before this pass, so
                // they cannot sit in an earlier fragment.
                assert forall|f: int, g: int, v: usize|
                    0 <= f < frags@.len() && 0 <= g < frags@.len() && f != g && #[trigger] frags@[f].indices@.contains(
                        v,
                    ) implies !(#[trigger] frags@[g].indices@.contains(v)) by {
                    if f < frags0.len() && g < frags0.len() {
                    } else if f == frags0.len() {
                        if frags@[g].indices@.contains(v) {
                            assert(snap[v as int]);
                            assert(!snap[v as int]);
                        }
                    } else {
                        assert(g == frags0.len());
                        if frags@[g].indices@.contains(v) {
                            assert(snap[v as int]);
                            assert(!snap[v as int]);
                        }
                    }
                };
                assert(frags_visited(frags@, visited@));
                assert forall|v: usize| v < n && visited@[v as int] implies #[trigger] appears(
                    frags@,
                    v,
                ) by {
                    if snap[v as int] {
                        assert(appears(frags0, v));
                        let f = choose|f: int|
                            0 <= f < frags0.len() && (#[trigger] frags0[f]).indices@.contains(v);
                        assert(frags@[f] == frags0[f]);
                        assert(frags@[f].indices@.contains(v));
                    } else {
                        assert(comp@.contains(v));
                        let g = frags@.len() - 1;
                        assert(frags@[g].indices@.contains(v));
                    }
                };
                assert forall|w: int| 0 <= w < start + 1 implies visited@[w] by {
                    if w < start {
                        assert(snap[w]);
                    } else {
                        assert(comp@[0] == start);
                        assert(comp@.contains(start));
                    }
                };
            }
        }
        start = start + 1;
    }
    proof {
        assert forall|a: int, j: int|
            0 <= a < n && 0 <= j < adjv[a].len() implies same_fragment(
            frags@,
            a as usize,
            #[trigger] adjv[a][j],
        ) by {
            assert(appears(frags@, a as usize));
            let f = choose|f: int|
                0 <= f < frags@.len() && (#[trigger] frags@[f]).indices@.contains(a as usize);
            let ii = choose|i: int|
                0 <= i < frags@[f].indices@.len() && frags@[f].indices@[i] == a as usize;
            assert(row_closed(adjv, a as usize, frags@[f].indices@));
            assert(frags@[f].indices@.contains(adjv[a][j]));
        }
    }
    frags
}

} // verus!
