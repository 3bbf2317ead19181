//! The graph of dependencies between interfaces, with the interfaces as
//! numbers, and what can be reached in it.

use vstd::prelude::*;

verus! {

/// How one interface depends on another.
#[derive(Clone, Copy, Debug, PartialEq, Eq, Structural)]
pub enum DependencyKind {
    /// It takes objects of the other, which exist already: any version of the
    /// other will do.
    Weak,
    /// It creates objects of the other, which so have its own version.
    Strong,
}

/// A dependency of the interface `from` on the interface `to`.
#[derive(Clone, Copy, Debug, PartialEq, Eq, Structural)]
pub struct Edge {
    pub from: usize,
    pub to: usize,
    pub kind: DependencyKind,
}

/// Whether an edge may be walked: every edge, or the strong ones only.
pub open spec fn walkable(edge: Edge, strong_only: bool) -> bool {
    strong_only ==> edge.kind == DependencyKind::Strong
}

/// Whether a walkable edge leads from `a` to `b`.
pub open spec fn steps(edges: Seq<Edge>, a: int, b: int, strong_only: bool) -> bool {
    exists|k: int|
        0 <= k < edges.len() && (#[trigger] edges[k]).from == a && edges[k].to == b && walkable(
            edges[k],
            strong_only,
        )
}

/// Whether `walk` is a walk: at least one node, and a walkable edge from each
/// node to the next.
pub open spec fn is_walk(edges: Seq<Edge>, walk: Seq<int>, strong_only: bool) -> bool {
    &&& walk.len() >= 1
    &&& forall|i: int|
        0 <= i < walk.len() - 1 ==> steps(edges, #[trigger] walk[i], walk[i + 1], strong_only)
}

/// Whether a walk leads from `a` to `b`. Every node reaches itself.
pub open spec fn reaches(edges: Seq<Edge>, a: int, b: int, strong_only: bool) -> bool {
    exists|walk: Seq<int>|
        #[trigger] is_walk(edges, walk, strong_only) && walk[0] == a && walk.last() == b
}

/// Whether a walk leads from one of the seeds to `x`.
#[verifier::opaque]
pub open spec fn reached(edges: Seq<Edge>, seeds: Seq<bool>, x: int, strong_only: bool) -> bool {
    exists|s: int| 0 <= s < seeds.len() && seeds[s] && #[trigger] reaches(edges, s, x, strong_only)
}

/// The number of nodes that are marked.
pub open spec fn count(marks: Seq<bool>) -> nat
    decreases marks.len(),
{
    if marks.len() == 0 {
        0
    } else {
        count(marks.drop_last()) + if marks.last() {
            1nat
        } else {
            0nat
        }
    }
}

/// No more nodes are marked than there are.
pub proof fn lemma_count_bound(marks: Seq<bool>)
    ensures
        count(marks) <= marks.len(),
    decreases marks.len(),
{
    if marks.len() > 0 {
        lemma_count_bound(marks.drop_last());
    }
}

/// Marking one more node makes the count one more.
pub proof fn lemma_count_mark(marks: Seq<bool>, at: int)
    requires
        0 <= at < marks.len(),
        !marks[at],
    ensures
        count(marks.update(at, true)) == count(marks) + 1,
    decreases marks.len(),
{
    let after = marks.update(at, true);
    if at == marks.len() - 1 {
        assert(after.drop_last() =~= marks.drop_last());
    } else {
        assert(after.drop_last() =~= marks.drop_last().update(at, true));
        lemma_count_mark(marks.drop_last(), at);
    }
}

/// Every node reaches itself.
pub proof fn lemma_reaches_itself(edges: Seq<Edge>, a: int, strong_only: bool)
    ensures
        reaches(edges, a, a, strong_only),
{
    let walk = seq![a];
    assert(is_walk(edges, walk, strong_only));
    assert(walk[0] == a && walk.last() == a);
}

/// A walk goes on along an edge.
pub proof fn lemma_reaches_on(edges: Seq<Edge>, a: int, b: int, c: int, strong_only: bool)
    requires
        reaches(edges, a, b, strong_only),
        steps(edges, b, c, strong_only),
    ensures
        reaches(edges, a, c, strong_only),
{
    let walk = choose|walk: Seq<int>|
        #[trigger] is_walk(edges, walk, strong_only) && walk[0] == a && walk.last() == b;
    let longer = walk.push(c);
    assert forall|i: int| 0 <= i < longer.len() - 1 implies steps(
        edges,
        #[trigger] longer[i],
        longer[i + 1],
        strong_only,
    ) by {
        if i < walk.len() - 1 {
            assert(longer[i] == walk[i]);
            assert(longer[i + 1] == walk[i + 1]);
        }
    }
    assert(is_walk(edges, longer, strong_only));
    assert(longer[0] == a && longer.last() == c);
}

/// Marks that hold of a walk's start and go along every walkable edge hold of
/// every node of the walk.
proof fn lemma_closed_walk(edges: Seq<Edge>, marks: Seq<bool>, walk: Seq<int>, i: int, strong_only: bool)
    requires
        is_walk(edges, walk, strong_only),
        0 <= i < walk.len(),
        0 <= walk[0] < marks.len(),
        marks[walk[0]],
        forall|k: int|
            0 <= k < edges.len() ==> 0 <= (#[trigger] edges[k]).from < marks.len() && 0
                <= edges[k].to < marks.len(),
        forall|k: int|
            0 <= k < edges.len() && walkable(#[trigger] edges[k], strong_only)
                && marks[edges[k].from as int] ==> marks[edges[k].to as int],
    ensures
        0 <= walk[i] < marks.len(),
        marks[walk[i]],
    decreases i,
{
    if i > 0 {
        lemma_closed_walk(edges, marks, walk, i - 1, strong_only);
        assert(steps(edges, walk[i - 1], walk[i - 1 + 1], strong_only));
    }
}

/// Whether all edges are between nodes below `n`.
pub open spec fn within(edges: Seq<Edge>, n: int) -> bool {
    forall|k: int| 0 <= k < edges.len() ==> (#[trigger] edges[k]).from < n && edges[k].to < n
}

/// Whether the marks go along every walkable edge.
pub open spec fn closed(edges: Seq<Edge>, marks: Seq<bool>, strong_only: bool) -> bool {
    forall|k: int|
        0 <= k < edges.len() && walkable(#[trigger] edges[k], strong_only)
            && marks[edges[k].from as int] ==> marks[edges[k].to as int]
}

/// A seed is reached.
pub proof fn lemma_seed_reached(edges: Seq<Edge>, seeds: Seq<bool>, x: int, strong_only: bool)
    requires
        0 <= x < seeds.len(),
        seeds[x],
    ensures
        reached(edges, seeds, x, strong_only),
{
    reveal(reached);
    lemma_reaches_itself(edges, x, strong_only);
}

/// What a walkable edge leads to from a node that is reached, is reached.
pub proof fn lemma_reached_on(edges: Seq<Edge>, seeds: Seq<bool>, k: int, strong_only: bool)
    requires
        0 <= k < edges.len(),
        walkable(edges[k], strong_only),
        reached(edges, seeds, edges[k].from as int, strong_only),
    ensures
        reached(edges, seeds, edges[k].to as int, strong_only),
{
    reveal(reached);
    let from = edges[k].from as int;
    let to = edges[k].to as int;
    let s = choose|s: int|
        0 <= s < seeds.len() && seeds[s] && #[trigger] reaches(edges, s, from, strong_only);
    assert(steps(edges, from, to, strong_only));
    lemma_reaches_on(edges, s, from, to, strong_only);
}

/// Marks that hold of the seeds and go along every walkable edge hold of
/// every node that is reached.
pub proof fn lemma_closed_reached(edges: Seq<Edge>, seeds: Seq<bool>, marks: Seq<bool>, x: int, strong_only: bool)
    requires
        marks.len() == seeds.len(),
        within(edges, seeds.len() as int),
        closed(edges, marks, strong_only),
        forall|s: int| 0 <= s < seeds.len() && seeds[s] ==> marks[s],
        reached(edges, seeds, x, strong_only),
    ensures
        0 <= x < marks.len(),
        marks[x],
{
    reveal(reached);
    let s = choose|s: int|
        0 <= s < seeds.len() && seeds[s] && #[trigger] reaches(edges, s, x, strong_only);
    let walk = choose|walk: Seq<int>|
        #[trigger] is_walk(edges, walk, strong_only) && walk[0] == s && walk.last() == x;
    lemma_closed_walk(edges, marks, walk, walk.len() - 1, strong_only);
}

/// The nodes that are reached from the seeds, along every edge or along the
/// strong ones only.
pub fn closure(edges: &Vec<Edge>, seeds: &Vec<bool>, strong_only: bool) -> (seen: Vec<bool>)
    requires
        within(edges@, seeds@.len() as int),
    ensures
        seen@.len() == seeds@.len(),
        forall|x: int|
            0 <= x < seen@.len() ==> #[trigger] seen@[x] == reached(
                edges@,
                seeds@,
                x,
                strong_only,
            ),
{
    let n: usize = seeds.len();
    let mut seen: Vec<bool> = Vec::new();
    let mut i: usize = 0;
    while i < n
        invariant
            i <= n,
            n == seeds@.len(),
            seen@ == seeds@.subrange(0, i as int),
        decreases n - i,
    {
        seen.push(seeds[i]);
        assert(seen@ =~= seeds@.subrange(0, i + 1));
        i += 1;
    }
    assert(seen@ =~= seeds@);
    proof {
        assert forall|x: int| 0 <= x < n && #[trigger] seen@[x] implies reached(
            edges@,
            seeds@,
            x,
            strong_only,
        ) by {
            lemma_seed_reached(edges@, seeds@, x, strong_only);
        }
    }
    loop
        invariant
            n == seeds@.len(),
            seen@.len() == n,
            within(edges@, n as int),
            forall|x: int| 0 <= x < n && seeds@[x] ==> #[trigger] seen@[x],
            forall|x: int|
                0 <= x < n && #[trigger] seen@[x] ==> reached(edges@, seeds@, x, strong_only),
        ensures
            seen@.len() == n,
            forall|x: int| 0 <= x < n && seeds@[x] ==> #[trigger] seen@[x],
            forall|x: int|
                0 <= x < n && #[trigger] seen@[x] ==> reached(edges@, seeds@, x, strong_only),
            closed(edges@, seen@, strong_only),
        decreases n - count(seen@),
    {
        let ghost before = seen@;
        let mut changed: bool = false;
        let mut k: usize = 0;
        while k < edges.len()
            invariant
                k <= edges@.len(),
                n == seeds@.len(),
                seen@.len() == n,
                within(edges@, n as int),
                forall|x: int| 0 <= x < n && seeds@[x] ==> #[trigger] seen@[x],
                forall|x: int|
                    0 <= x < n && #[trigger] seen@[x] ==> reached(edges@, seeds@, x, strong_only),
                !changed ==> seen@ == before,
                changed ==> count(seen@) > count(before),
                !changed ==> closed(edges@.subrange(0, k as int), seen@, strong_only),
            decreases edges@.len() - k,
        {
            let edge: Edge = edges[k];
            let usable: bool = !strong_only || edge.kind == DependencyKind::Strong;
            let ghost marks = seen@;
            if usable && seen[edge.from] && !seen[edge.to] {
                proof {
                    lemma_reached_on(edges@, seeds@, k as int, strong_only);
                    lemma_count_mark(seen@, edge.to as int);
                }
                seen.set(edge.to, true);
                changed = true;
            } else {
                proof {
                    if !changed {
                        let upto = edges@.subrange(0, k + 1);
                        assert forall|j: int|
                            0 <= j < upto.len() && walkable(#[trigger] upto[j], strong_only)
                                && seen@[upto[j].from as int] implies seen@[upto[j].to as int] by {
                            if j < k {
                                assert(edges@.subrange(0, k as int)[j] == upto[j]);
                            }
                        }
                    }
                }
            }
            k += 1;
        }
        proof {
            lemma_count_bound(seen@);
            assert(edges@.subrange(0, k as int) =~= edges@);
        }
        if !changed {
            break ;
        }
    }
    proof {
        assert forall|x: int| 0 <= x < n && reached(edges@, seeds@, x, strong_only) implies seen@[x] by {
            lemma_closed_reached(edges@, seeds@, seen@, x, strong_only);
        }
    }
    seen
}

} // verus!
