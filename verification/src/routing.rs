//! Shortest-hop routing over the directed link graph.
//!
//! Reachability is specified by `reach_in`: a directed walk of at most
//! `n` hops.  `hop_distance` computes the exact shortest hop count by
//! breadth-first search, and `next_hop_in_links` resolves the first hop
//! of a shortest path, breaking ties among equal-length paths by link
//! insertion order.

use vstd::prelude::*;
use vstd::set_lib::lemma_len_subset;

use crate::topology::NetworkLink;

verus! {

/// There is a directed walk from `a` to `b` of at most `n` hops.
/// Stated by recursion on the walk's last edge.
pub open spec fn reach_in(links: Seq<NetworkLink>, a: usize, b: usize, n: nat) -> bool
    decreases n,
{
    if a == b {
        true
    } else if n == 0 {
        false
    } else {
        exists|i: int|
            0 <= i < links.len() && links[i].to == b && reach_in(
                links,
                a,
                links[i].from,
                (n - 1) as nat,
            )
    }
}

/// `b` is reachable from `a` in some number of hops.
pub open spec fn spec_reachable(links: Seq<NetworkLink>, a: usize, b: usize) -> bool {
    exists|n: nat| reach_in(links, a, b, n)
}

/// `n` is the exact shortest hop count from `a` to `b`.
pub open spec fn is_min_dist(links: Seq<NetworkLink>, a: usize, b: usize, n: nat) -> bool {
    &&& reach_in(links, a, b, n)
    &&& (n == 0 || !reach_in(links, a, b, (n - 1) as nat))
}

/// A walk of at most `n` hops is also a walk of at most `n + 1` hops.
pub proof fn lemma_reach_succ(links: Seq<NetworkLink>, a: usize, b: usize, n: nat)
    requires
        reach_in(links, a, b, n),
    ensures
        reach_in(links, a, b, n + 1),
    decreases n,
{
    if a != b {
        let i = choose|i: int|
            0 <= i < links.len() && links[i].to == b && reach_in(
                links,
                a,
                links[i].from,
                (n - 1) as nat,
            );
        lemma_reach_succ(links, a, links[i].from, (n - 1) as nat);
        assert(0 <= i < links.len() && links[i].to == b && reach_in(
            links,
            a,
            links[i].from,
            ((n + 1) - 1) as nat,
        ));
    }
}

/// Hop bounds are monotone: a walk within `m` hops is a walk within
/// any larger bound `n`.
pub proof fn lemma_reach_le(links: Seq<NetworkLink>, a: usize, b: usize, m: nat, n: nat)
    requires
        reach_in(links, a, b, m),
        m <= n,
    ensures
        reach_in(links, a, b, n),
    decreases n - m,
{
    if m < n {
        lemma_reach_succ(links, a, b, m);
        lemma_reach_le(links, a, b, m + 1, n);
    }
}

/// Extending a walk by one edge at its end.
pub proof fn lemma_reach_step(links: Seq<NetworkLink>, a: usize, n: nat, i: int)
    requires
        0 <= i < links.len(),
        reach_in(links, a, links[i].from, n),
    ensures
        reach_in(links, a, links[i].to, n + 1),
{
    if a != links[i].to {
        assert(0 <= i < links.len() && links[i].to == links[i].to && reach_in(
            links,
            a,
            links[i].from,
            ((n + 1) - 1) as nat,
        ));
    }
}

/// Extending a walk by one edge at its start.
pub proof fn lemma_reach_prepend(links: Seq<NetworkLink>, b: usize, n: nat, i: int)
    requires
        0 <= i < links.len(),
        reach_in(links, links[i].to, b, n),
    ensures
        reach_in(links, links[i].from, b, n + 1),
    decreases n,
{
    let a = links[i].from;
    let h = links[i].to;
    if a != b {
        if h == b {
            assert(0 <= i < links.len() && links[i].to == b && reach_in(
                links,
                a,
                links[i].from,
                ((n + 1) - 1) as nat,
            ));
        } else {
            let k = choose|k: int|
                0 <= k < links.len() && links[k].to == b && reach_in(
                    links,
                    h,
                    links[k].from,
                    (n - 1) as nat,
                );
            lemma_reach_prepend(links, links[k].from, (n - 1) as nat, i);
            assert(0 <= k < links.len() && links[k].to == b && reach_in(
                links,
                a,
                links[k].from,
                ((n + 1) - 1) as nat,
            ));
        }
    }
}

/// A walk from `a` to a distinct node `b` starts with some link out
/// of `a`, whose far end reaches `b` in one hop fewer.
pub proof fn lemma_first_hop(links: Seq<NetworkLink>, a: usize, b: usize, n: nat)
    requires
        reach_in(links, a, b, n),
        a != b,
    ensures
        n >= 1,
        exists|i: int|
            0 <= i < links.len() && links[i].from == a && reach_in(
                links,
                links[i].to,
                b,
                (n - 1) as nat,
            ),
    decreases n,
{
    let j = choose|j: int|
        0 <= j < links.len() && links[j].to == b && reach_in(links, a, links[j].from, (n - 1) as nat);
    let u = links[j].from;
    if u == a {
        assert(0 <= j < links.len() && links[j].from == a && reach_in(
            links,
            links[j].to,
            b,
            (n - 1) as nat,
        ));
    } else {
        lemma_first_hop(links, a, u, (n - 1) as nat);
        let i = choose|i: int|
            0 <= i < links.len() && links[i].from == a && reach_in(
                links,
                links[i].to,
                u,
                (n - 2) as nat,
            );
        lemma_reach_step(links, links[i].to, (n - 2) as nat, j);
        assert(0 <= i < links.len() && links[i].from == a && reach_in(
            links,
            links[i].to,
            b,
            (n - 1) as nat,
        ));
    }
}

/// Every reachable pair has an exact shortest hop count, no larger
/// than any witnessed bound.
pub proof fn lemma_min_exists(links: Seq<NetworkLink>, a: usize, b: usize, n: nat)
    requires
        reach_in(links, a, b, n),
    ensures
        exists|m: nat| m <= n && is_min_dist(links, a, b, m),
    decreases n,
{
    if n == 0 {
        assert(is_min_dist(links, a, b, 0));
    } else if reach_in(links, a, b, (n - 1) as nat) {
        lemma_min_exists(links, a, b, (n - 1) as nat);
        let m = choose|m: nat| m <= n - 1 && is_min_dist(links, a, b, m);
        assert(m <= n && is_min_dist(links, a, b, m));
    } else {
        assert(is_min_dist(links, a, b, n));
    }
}

/// The shortest hop count is unique.
pub proof fn lemma_min_unique(links: Seq<NetworkLink>, a: usize, b: usize, m1: nat, m2: nat)
    requires
        is_min_dist(links, a, b, m1),
        is_min_dist(links, a, b, m2),
    ensures
        m1 == m2,
{
    if m1 < m2 {
        lemma_reach_le(links, a, b, m1, (m2 - 1) as nat);
    } else if m2 < m1 {
        lemma_reach_le(links, a, b, m2, (m1 - 1) as nat);
    }
}

/// Once a breadth-first level adds no node, no longer walk reaches
/// anything new: every walk collapses to the stable level.
pub proof fn lemma_level_collapse(
    links: Seq<NetworkLink>,
    src: usize,
    lvl: nat,
    v: usize,
    m: nat,
)
    requires
        forall|w: usize|
            reach_in(links, src, w, lvl + 1) ==> #[trigger] reach_in(links, src, w, lvl),
        reach_in(links, src, v, m),
    ensures
        reach_in(links, src, v, lvl),
    decreases m,
{
    if m <= lvl {
        lemma_reach_le(links, src, v, m, lvl);
    } else if v == src {
        assert(reach_in(links, src, v, lvl));
    } else {
        let i = choose|i: int|
            0 <= i < links.len() && links[i].to == v && reach_in(
                links,
                src,
                links[i].from,
                (m - 1) as nat,
            );
        lemma_level_collapse(links, src, lvl, links[i].from, (m - 1) as nat);
        lemma_reach_step(links, src, lvl, i);
        assert(reach_in(links, src, v, lvl + 1));
    }
}

/// `h` sits one hop along some shortest path from `from` to `to`:
/// its own shortest hop count to `to` is exactly one less.
pub open spec fn advances(links: Seq<NetworkLink>, from: usize, to: usize, h: usize) -> bool {
    exists|d: nat|
        is_min_dist(links, from, to, d) && d >= 1 && is_min_dist(links, h, to, (d - 1) as nat)
}

/// Link `i` is the first link in insertion order that leaves `from`
/// toward a node one hop closer to `to`.
pub open spec fn is_first_shortest_link(
    links: Seq<NetworkLink>,
    from: usize,
    to: usize,
    i: int,
) -> bool {
    &&& 0 <= i < links.len()
    &&& links[i].from == from
    &&& advances(links, from, to, links[i].to)
    &&& forall|j: int|
        #![trigger links[j].from]
        0 <= j < i ==> !(links[j].from == from && advances(links, from, to, links[j].to))
}

/// The routing policy, exactly: no hop for a node to itself or an
/// unreachable destination, otherwise the far end of the first link
/// (in insertion order) that advances along a shortest path.
pub open spec fn next_hop_post(
    links: Seq<NetworkLink>,
    from: usize,
    to: usize,
    r: Option<usize>,
) -> bool {
    match r {
        None => from == to || !spec_reachable(links, from, to),
        Some(h) => {
            &&& from != to
            &&& spec_reachable(links, from, to)
            &&& exists|i: int| #[trigger]
                is_first_shortest_link(links, from, to, i) && links[i].to == h
        },
    }
}

/// Link `j` runs from `from` to `to`.
pub open spec fn link_matches(links: Seq<NetworkLink>, j: int, from: usize, to: usize) -> bool {
    0 <= j < links.len() && links[j].from == from && links[j].to == to
}

/// Link `j` is the first link, in insertion order, from `from` to `to`.
pub open spec fn is_first_link(links: Seq<NetworkLink>, from: usize, to: usize, j: int) -> bool {
    &&& link_matches(links, j, from, to)
    &&& forall|k: int| 0 <= k < j ==> !link_matches(links, k, from, to)
}

/// Any matching link yields a first matching link.
pub proof fn lemma_first_link_exists(links: Seq<NetworkLink>, from: usize, to: usize, j0: int)
    requires
        link_matches(links, j0, from, to),
    ensures
        exists|j: int| is_first_link(links, from, to, j),
    decreases j0,
{
    if exists|k: int| 0 <= k < j0 && link_matches(links, k, from, to) {
        let k = choose|k: int| 0 <= k < j0 && link_matches(links, k, from, to);
        lemma_first_link_exists(links, from, to, k);
    } else {
        assert(is_first_link(links, from, to, j0));
    }
}

/// The first matching link is unique.
pub proof fn lemma_first_link_unique(
    links: Seq<NetworkLink>,
    from: usize,
    to: usize,
    j1: int,
    j2: int,
)
    requires
        is_first_link(links, from, to, j1),
        is_first_link(links, from, to, j2),
    ensures
        j1 == j2,
{
    if j1 < j2 {
        assert(!link_matches(links, j1, from, to));
    } else if j2 < j1 {
        assert(!link_matches(links, j2, from, to));
    }
}

/// Index of the first link from `from` to `to`; meaningful only when
/// some such link exists.
pub open spec fn spec_first_link(links: Seq<NetworkLink>, from: usize, to: usize) -> int {
    choose|j: int| is_first_link(links, from, to, j)
}

/// The first advancing link is unique.
pub proof fn lemma_first_shortest_unique(
    links: Seq<NetworkLink>,
    from: usize,
    to: usize,
    i1: int,
    i2: int,
)
    requires
        is_first_shortest_link(links, from, to, i1),
        is_first_shortest_link(links, from, to, i2),
    ensures
        i1 == i2,
{
    if i1 < i2 {
        assert(!(links[i1].from == from && advances(links, from, to, links[i1].to)));
    } else if i2 < i1 {
        assert(!(links[i2].from == from && advances(links, from, to, links[i2].to)));
    }
}

/// The routing function: what `next_hop_in_links` returns, as a spec
/// value.  `None` for a node routing to itself or to an unreachable
/// destination; otherwise the far end of the first advancing link.
pub open spec fn spec_next_hop(links: Seq<NetworkLink>, from: usize, to: usize) -> Option<usize> {
    if from != to && spec_reachable(links, from, to) {
        Some(links[choose|i: int| is_first_shortest_link(links, from, to, i)].to)
    } else {
        None
    }
}

/// The relational postcondition pins the routing function's value.
pub proof fn lemma_next_hop_fun(
    links: Seq<NetworkLink>,
    from: usize,
    to: usize,
    r: Option<usize>,
)
    requires
        next_hop_post(links, from, to, r),
    ensures
        r == spec_next_hop(links, from, to),
{
    match r {
        None => {},
        Some(h) => {
            let i = choose|i: int| #[trigger]
                is_first_shortest_link(links, from, to, i) && links[i].to == h;
            let i2 = choose|i2: int| is_first_shortest_link(links, from, to, i2);
            assert(is_first_shortest_link(links, from, to, i2));
            lemma_first_shortest_unique(links, from, to, i, i2);
        },
    }
}

/// Finds the first link, in insertion order, from `from` to `to`.
pub fn find_first_link(links: &Vec<NetworkLink>, from: usize, to: usize) -> (r: Option<usize>)
    ensures
        match r {
            Some(j) => is_first_link(links@, from, to, j as int),
            None => forall|j: int| !link_matches(links@, j, from, to),
        },
{
    let mut i: usize = 0;
    while i < links.len()
        invariant
            0 <= i <= links@.len(),
            forall|k: int| 0 <= k < i ==> !link_matches(links@, k, from, to),
        decreases links@.len() - i,
    {
        if links[i].from == from && links[i].to == to {
            return Some(i);
        }
        i += 1;
    }
    None
}

/// Shortest hop count as a spec value; meaningful only for reachable
/// pairs.
pub open spec fn spec_min_dist(links: Seq<NetworkLink>, a: usize, b: usize) -> nat {
    choose|n: nat| is_min_dist(links, a, b, n)
}

/// Any witnessed exact distance equals `spec_min_dist`.
pub proof fn lemma_spec_min_dist(links: Seq<NetworkLink>, a: usize, b: usize, n: nat)
    requires
        is_min_dist(links, a, b, n),
    ensures
        spec_min_dist(links, a, b) == n,
{
    let m = choose|m: nat| is_min_dist(links, a, b, m);
    assert(is_min_dist(links, a, b, m));
    lemma_min_unique(links, a, b, m, n);
}

/// Reachability and hop counts depend only on the links' endpoints,
/// not on their delays or queue state.
pub open spec fn same_edges(a: Seq<NetworkLink>, b: Seq<NetworkLink>) -> bool {
    &&& a.len() == b.len()
    &&& forall|k: int|
        0 <= k < a.len() ==> (#[trigger] b[k]).from == a[k].from && b[k].to == a[k].to
}

/// A walk transfers between link sequences with the same endpoints.
pub proof fn lemma_reach_same_edges(
    a: Seq<NetworkLink>,
    b: Seq<NetworkLink>,
    x: usize,
    y: usize,
    n: nat,
)
    requires
        same_edges(a, b),
        reach_in(a, x, y, n),
    ensures
        reach_in(b, x, y, n),
    decreases n,
{
    if x != y {
        let i = choose|i: int|
            0 <= i < a.len() && a[i].to == y && reach_in(a, x, a[i].from, (n - 1) as nat);
        lemma_reach_same_edges(a, b, x, a[i].from, (n - 1) as nat);
        assert(0 <= i < b.len() && b[i].to == y && reach_in(b, x, b[i].from, (n - 1) as nat));
    }
}

/// Exact hop counts transfer between link sequences with the same
/// endpoints.
pub proof fn lemma_min_dist_same_edges(
    a: Seq<NetworkLink>,
    b: Seq<NetworkLink>,
    x: usize,
    y: usize,
    n: nat,
)
    requires
        same_edges(a, b),
        is_min_dist(a, x, y, n),
    ensures
        is_min_dist(b, x, y, n),
{
    lemma_reach_same_edges(a, b, x, y, n);
    if n > 0 && reach_in(b, x, y, (n - 1) as nat) {
        lemma_reach_same_edges(b, a, x, y, (n - 1) as nat);
    }
}

/// Linear membership scan over a list of node ids.
fn contains_id(ids: &Vec<usize>, x: usize) -> (r: bool)
    ensures
        r == ids@.contains(x),
{
    let mut i: usize = 0;
    while i < ids.len()
        invariant
            0 <= i <= ids@.len(),
            forall|j: int| 0 <= j < i ==> ids@[j] != x,
        decreases ids@.len() - i,
    {
        if ids[i] == x {
            return true;
        }
        i += 1;
    }
    false
}

/// The node ids a search from `src` can ever discover: `src` and the
/// far end of every link.
pub open spec fn candidate_ids(links: Seq<NetworkLink>, src: usize) -> Set<usize> {
    links.map_values(|l: NetworkLink| l.to).to_set().insert(src)
}

/// Exact shortest hop count from `src` to `dst`, or `None` when no
/// directed walk connects them.  Breadth-first search, one frontier
/// level at a time.
pub fn hop_distance(links: &Vec<NetworkLink>, src: usize, dst: usize) -> (r: Option<usize>)
    ensures
        match r {
            Some(d) => is_min_dist(links@, src, dst, d as nat),
            None => !spec_reachable(links@, src, dst),
        },
{
    if src == dst {
        return Some(0);
    }
    let mut visited: Vec<usize> = Vec::new();
    visited.push(src);
    let mut frontier: Vec<usize> = Vec::new();
    frontier.push(src);
    let mut level: usize = 0;
    proof {
        assert(reach_in(links@, src, src, 0));
        assert(visited@[0] == src);
        assert(frontier@[0] == src);
        assert forall|v: usize| #[trigger] visited@.contains(v) implies reach_in(
            links@,
            src,
            v,
            0,
        ) by {
            let p = choose|p: int| 0 <= p < visited@.len() && visited@[p] == v;
            assert(v == src);
        }
        assert forall|v: usize| #[trigger] reach_in(links@, src, v, 0) implies visited@.contains(
            v,
        ) by {
            assert(v == src);
        }
        assert forall|v: usize| #[trigger] frontier@.contains(v) implies is_min_dist(
            links@,
            src,
            v,
            0,
        ) by {
            let p = choose|p: int| 0 <= p < frontier@.len() && frontier@[p] == v;
            assert(v == src);
        }
        assert forall|v: usize| #[trigger] is_min_dist(links@, src, v, 0) implies frontier@
            .contains(v) by {
            assert(v == src);
        }
        assert(visited@.to_set() <= candidate_ids(links@, src)) by {
            assert forall|x: usize| visited@.to_set().contains(x) implies candidate_ids(
                links@,
                src,
            ).contains(x) by {
                let p = choose|p: int| 0 <= p < visited@.len() && visited@[p] == x;
                assert(x == src);
            }
        }
        assert(!visited@.contains(dst)) by {
            if visited@.contains(dst) {
                let p = choose|p: int| 0 <= p < visited@.len() && visited@[p] == dst;
            }
        }
    }
    loop
        invariant
            src != dst,
            level + 1 <= visited@.len(),
            visited@.len() <= links@.len() + 1,
            visited@.no_duplicates(),
            visited@.to_set() <= candidate_ids(links@, src),
            !visited@.contains(dst),
            forall|v: usize| #[trigger]
                visited@.contains(v) ==> reach_in(links@, src, v, level as nat),
            forall|v: usize| #[trigger]
                reach_in(links@, src, v, level as nat) ==> visited@.contains(v),
            forall|v: usize| #[trigger]
                frontier@.contains(v) ==> is_min_dist(links@, src, v, level as nat),
            forall|v: usize| #[trigger]
                is_min_dist(links@, src, v, level as nat) ==> frontier@.contains(v),
        decreases links@.len() + 1 - visited@.len(),
    {
        let ghost vis0 = visited@;
        let mut next: Vec<usize> = Vec::new();
        let mut fi: usize = 0;
        while fi < frontier.len()
            invariant
                0 <= fi <= frontier@.len(),
                visited@ == vis0 + next@,
                visited@.no_duplicates(),
                visited@.to_set() <= candidate_ids(links@, src),
                forall|v: usize| #[trigger]
                    frontier@.contains(v) ==> is_min_dist(links@, src, v, level as nat),
                forall|v: usize| #[trigger]
                    vis0.contains(v) ==> reach_in(links@, src, v, level as nat),
                forall|v: usize| #[trigger]
                    reach_in(links@, src, v, level as nat) ==> vis0.contains(v),
                forall|w: usize| #[trigger]
                    next@.contains(w) ==> is_min_dist(links@, src, w, (level + 1) as nat),
                forall|j: int, k: int|
                    #![trigger frontier@[j], links@[k].to]
                    0 <= j < fi && 0 <= k < links@.len() && links@[k].from == frontier@[j]
                        ==> visited@.contains(links@[k].to),
            decreases frontier@.len() - fi,
        {
            let f = frontier[fi];
            proof {
                assert(frontier@.contains(f));
            }
            let mut li: usize = 0;
            while li < links.len()
                invariant
                    0 <= li <= links@.len(),
                    0 <= fi < frontier@.len(),
                    f == frontier@[fi as int],
                    frontier@.contains(f),
                    is_min_dist(links@, src, f, level as nat),
                    visited@ == vis0 + next@,
                    visited@.no_duplicates(),
                    visited@.to_set() <= candidate_ids(links@, src),
                    forall|v: usize| #[trigger]
                        vis0.contains(v) ==> reach_in(links@, src, v, level as nat),
                    forall|v: usize| #[trigger]
                        reach_in(links@, src, v, level as nat) ==> vis0.contains(v),
                    forall|w: usize| #[trigger]
                        next@.contains(w) ==> is_min_dist(links@, src, w, (level + 1) as nat),
                    forall|j: int, k: int|
                        #![trigger frontier@[j], links@[k].to]
                        0 <= j < fi && 0 <= k < links@.len() && links@[k].from == frontier@[j]
                            ==> visited@.contains(links@[k].to),
                    forall|k: int|
                        0 <= k < li && links@[k].from == f ==> visited@.contains(
                            #[trigger] links@[k].to,
                        ),
                decreases links@.len() - li,
            {
                let ghost vbefore = visited@;
                let ghost nbefore = next@;
                if links[li].from == f {
                    let w = links[li].to;
                    if !contains_id(&visited, w) {
                        proof {
                            lemma_reach_step(links@, src, level as nat, li as int);
                            assert(reach_in(links@, src, w, (level + 1) as nat));
                            assert(!vis0.contains(w)) by {
                                if vis0.contains(w) {
                                    let p = choose|p: int| 0 <= p < vis0.len() && vis0[p] == w;
                                    assert((vis0 + next@)[p] == w);
                                    assert(visited@.contains(w));
                                }
                            }
                            assert(!reach_in(links@, src, w, level as nat));
                            assert(is_min_dist(links@, src, w, (level + 1) as nat));
                            assert(candidate_ids(links@, src).contains(w)) by {
                                assert(links@.map_values(|l: NetworkLink| l.to)[li as int] == w);
                                assert(links@.map_values(|l: NetworkLink| l.to).contains(w));
                                assert(links@.map_values(|l: NetworkLink| l.to).to_set().contains(
                                    w,
                                ));
                            }
                        }
                        visited.push(w);
                        next.push(w);
                        proof {
                            assert(visited@ =~= vis0 + next@);
                            assert(visited@.no_duplicates()) by {
                                assert forall|p: int, q: int|
                                    0 <= p < q < visited@.len() implies visited@[p] != visited@[q]
                                    by {
                                    if q == visited@.len() - 1 {
                                        assert(vbefore.contains(vbefore[p]));
                                    }
                                }
                            }
                            assert(visited@.to_set() <= candidate_ids(links@, src)) by {
                                assert forall|x: usize|
                                    visited@.to_set().contains(x) implies candidate_ids(
                                    links@,
                                    src,
                                ).contains(x) by {
                                    if x != w {
                                        let p = choose|p: int|
                                            0 <= p < visited@.len() && visited@[p] == x;
                                        assert(vbefore[p] == x);
                                        assert(vbefore.contains(x));
                                        assert(vbefore.to_set().contains(x));
                                    }
                                }
                            }
                            assert forall|x: usize| #[trigger]
                                next@.contains(x) implies is_min_dist(
                                links@,
                                src,
                                x,
                                (level + 1) as nat,
                            ) by {
                                let p = choose|p: int| 0 <= p < next@.len() && next@[p] == x;
                                if p < nbefore.len() {
                                    assert(nbefore[p] == x);
                                    assert(nbefore.contains(x));
                                }
                            }
                        }
                    }
                    proof {
                        // The far end of link `li` is visited either way:
                        // it was just pushed, or it already was a member.
                        assert(visited@.contains(links@[li as int].to)) by {
                            if visited@.len() == vbefore.len() + 1 {
                                assert(visited@[visited@.len() - 1] == w);
                            }
                        }
                    }
                }
                proof {
                    // `visited` only grew, so earlier membership facts
                    // carry over.
                    assert forall|x: usize| #[trigger]
                        vbefore.contains(x) implies visited@.contains(x) by {
                        let p = choose|p: int| 0 <= p < vbefore.len() && vbefore[p] == x;
                        assert(visited@[p] == x);
                    }
                    assert forall|j: int, k: int|
                        #![trigger frontier@[j], links@[k].to]
                        0 <= j < fi && 0 <= k < links@.len() && links@[k].from
                            == frontier@[j] implies visited@.contains(links@[k].to) by {
                        assert(vbefore.contains(links@[k].to));
                    }
                    assert forall|k: int|
                        0 <= k < li + 1 && links@[k].from == f implies visited@.contains(
                        #[trigger] links@[k].to,
                    ) by {
                        if k < li {
                            assert(vbefore.contains(links@[k].to));
                        }
                    }
                }
                li += 1;
            }
            fi += 1;
        }
        // Every node at exactly level + 1 is now in `next`, and
        // nothing else is.
        proof {
            assert forall|w: usize| #[trigger]
                is_min_dist(links@, src, w, (level + 1) as nat) implies next@.contains(w) by {
                assert(reach_in(links@, src, src, level as nat));
                assert(w != src);
                assert(reach_in(links@, src, w, (level + 1) as nat));
                assert(!reach_in(links@, src, w, level as nat));
                let k = choose|k: int|
                    0 <= k < links@.len() && links@[k].to == w && reach_in(
                        links@,
                        src,
                        links@[k].from,
                        ((level + 1) - 1) as nat,
                    );
                let u = links@[k].from;
                assert(reach_in(links@, src, u, level as nat));
                if level > 0 && reach_in(links@, src, u, (level - 1) as nat) {
                    lemma_reach_step(links@, src, (level - 1) as nat, k);
                    assert(reach_in(links@, src, w, level as nat));
                    assert(false);
                }
                assert(is_min_dist(links@, src, u, level as nat));
                assert(frontier@.contains(u));
                let j = choose|j: int| 0 <= j < frontier@.len() && frontier@[j] == u;
                assert(frontier@[j] == u && 0 <= j < frontier@.len());
                assert(visited@.contains(links@[k].to));
                assert(!vis0.contains(w));
                assert((vis0 + next@).contains(w));
                let p = choose|p: int| 0 <= p < (vis0 + next@).len() && (vis0 + next@)[p] == w;
                if p < vis0.len() {
                    assert(vis0.contains(w));
                } else {
                    assert(next@[p - vis0.len()] == w);
                }
                assert(next@.contains(w));
            }
        }
        let vlen = visited.len();
        proof {
            assert(visited@ == vis0 + next@);
            assert(level + 1 <= vis0.len());
            assert(level + 1 <= vlen);
        }
        if contains_id(&next, dst) {
            proof {
                assert(is_min_dist(links@, src, dst, (level + 1) as nat));
            }
            return Some(level + 1);
        }
        if next.len() == 0 {
            proof {
                assert forall|n: nat| !reach_in(links@, src, dst, n) by {
                    if reach_in(links@, src, dst, n) {
                        assert forall|w: usize|
                            reach_in(links@, src, w, (level as nat) + 1) implies #[trigger]
                            reach_in(links@, src, w, level as nat) by {
                            if !reach_in(links@, src, w, level as nat) {
                                assert(is_min_dist(links@, src, w, (level + 1) as nat));
                                assert(next@.contains(w));
                            }
                        }
                        lemma_level_collapse(links@, src, level as nat, dst, n);
                        assert(visited@.contains(dst));
                    }
                }
            }
            return None;
        }
        proof {
            visited@.unique_seq_to_set();
            assert(candidate_ids(links@, src).len() <= links@.len() + 1) by {
                links@.map_values(|l: NetworkLink| l.to).lemma_cardinality_of_set();
            }
            lemma_len_subset(visited@.to_set(), candidate_ids(links@, src));
            assert(visited@.len() <= links@.len() + 1);
            // The next level is nonempty, so at least one node was
            // appended to `visited` this round.
            assert(next@.len() >= 1);
            assert(visited@.len() == vis0.len() + next@.len());
        }
        let ghost nxt = next@;
        frontier = next;
        level += 1;
        proof {
            assert(!visited@.contains(dst)) by {
                if visited@.contains(dst) {
                    let p = choose|p: int| 0 <= p < visited@.len() && visited@[p] == dst;
                    if p < vis0.len() {
                        assert(vis0.contains(dst));
                    } else {
                        assert(nxt[p - vis0.len()] == dst);
                        assert(nxt.contains(dst));
                    }
                }
            }
            assert forall|v: usize| #[trigger]
                visited@.contains(v) implies reach_in(links@, src, v, level as nat) by {
                let p = choose|p: int| 0 <= p < visited@.len() && visited@[p] == v;
                if p < vis0.len() {
                    assert(vis0.contains(v));
                    assert(reach_in(links@, src, v, (level - 1) as nat));
                    lemma_reach_le(links@, src, v, (level - 1) as nat, level as nat);
                } else {
                    assert(nxt[p - vis0.len()] == v);
                    assert(nxt.contains(v));
                    assert(is_min_dist(links@, src, v, ((level - 1) + 1) as nat));
                }
            }
            assert forall|v: usize| #[trigger]
                reach_in(links@, src, v, level as nat) implies visited@.contains(v) by {
                if !reach_in(links@, src, v, (level - 1) as nat) {
                    assert(is_min_dist(links@, src, v, ((level - 1) + 1) as nat));
                    assert(nxt.contains(v));
                    let p = choose|p: int| 0 <= p < nxt.len() && nxt[p] == v;
                    assert(visited@[vis0.len() + p] == v);
                } else {
                    assert(vis0.contains(v));
                    let p = choose|p: int| 0 <= p < vis0.len() && vis0[p] == v;
                    assert(visited@[p] == v);
                }
            }
            assert forall|v: usize| #[trigger]
                frontier@.contains(v) implies is_min_dist(links@, src, v, level as nat) by {
                assert(is_min_dist(links@, src, v, ((level - 1) + 1) as nat));
            }
            assert forall|v: usize| #[trigger]
                is_min_dist(links@, src, v, level as nat) implies frontier@.contains(v) by {
                assert(is_min_dist(links@, src, v, ((level - 1) + 1) as nat));
            }
        }
    }
}

/// Resolves the next hop from `from` toward `to`: breadth-first
/// search gives the shortest hop count, and the first link in
/// insertion order that advances along some shortest path supplies
/// the hop.  `None` when `from == to` or no directed path exists.
pub fn next_hop_in_links(links: &Vec<NetworkLink>, from: usize, to: usize) -> (r: Option<usize>)
    ensures
        next_hop_post(links@, from, to, r),
{
    if from == to {
        return None;
    }
    let d = match hop_distance(links, from, to) {
        None => {
            return None;
        },
        Some(d) => d,
    };
    proof {
        assert(d >= 1) by {
            if d == 0 {
                assert(reach_in(links@, from, to, 0));
            }
        }
        assert(spec_reachable(links@, from, to));
    }
    let mut i: usize = 0;
    while i < links.len()
        invariant
            from != to,
            is_min_dist(links@, from, to, d as nat),
            d >= 1,
            0 <= i <= links@.len(),
            spec_reachable(links@, from, to),
            forall|j: int|
                #![trigger links@[j].from]
                0 <= j < i ==> !(links@[j].from == from && advances(links@, from, to, links@[j].to)),
        decreases links@.len() - i,
    {
        if links[i].from == from {
            let h = links[i].to;
            match hop_distance(links, h, to) {
                Some(dh) => {
                    if dh == d - 1 {
                        proof {
                            assert(is_min_dist(links@, from, to, d as nat) && d as nat >= 1
                                && is_min_dist(links@, h, to, (d as nat - 1) as nat));
                            assert(advances(links@, from, to, h));
                            assert(is_first_shortest_link(links@, from, to, i as int));
                        }
                        return Some(h);
                    }
                    proof {
                        assert(!advances(links@, from, to, h)) by {
                            if advances(links@, from, to, h) {
                                let d0 = choose|d0: nat|
                                    is_min_dist(links@, from, to, d0) && d0 >= 1 && is_min_dist(
                                        links@,
                                        h,
                                        to,
                                        (d0 - 1) as nat,
                                    );
                                lemma_min_unique(links@, from, to, d0, d as nat);
                                lemma_min_unique(links@, h, to, (d0 - 1) as nat, dh as nat);
                            }
                        }
                    }
                },
                None => {
                    proof {
                        assert(!advances(links@, from, to, h)) by {
                            if advances(links@, from, to, h) {
                                let d0 = choose|d0: nat|
                                    is_min_dist(links@, from, to, d0) && d0 >= 1 && is_min_dist(
                                        links@,
                                        h,
                                        to,
                                        (d0 - 1) as nat,
                                    );
                                assert(reach_in(links@, h, to, (d0 - 1) as nat));
                                assert(spec_reachable(links@, h, to));
                            }
                        }
                    }
                },
            }
        }
        i += 1;
    }
    // Never reached: a shortest path exists, so its first link is an
    // advancing link out of `from`, which the scan would have taken.
    proof {
        lemma_first_hop(links@, from, to, d as nat);
        let i0 = choose|i0: int|
            0 <= i0 < links@.len() && links@[i0].from == from && reach_in(
                links@,
                links@[i0].to,
                to,
                (d - 1) as nat,
            );
        let h0 = links@[i0].to;
        lemma_min_exists(links@, h0, to, (d - 1) as nat);
        let m = choose|m: nat| m <= d - 1 && is_min_dist(links@, h0, to, m);
        if m < d - 1 {
            lemma_reach_prepend(links@, to, m, i0);
            lemma_reach_le(links@, from, to, m + 1, (d - 1) as nat);
            assert(false);
        }
        assert(is_min_dist(links@, h0, to, (d as nat - 1) as nat));
        assert(advances(links@, from, to, h0));
        assert(links@[i0].from == from && advances(links@, from, to, links@[i0].to));
        assert(false);
    }
    None
}

} // verus!
