//! The order in which `core:init` reaches the plugins: a topological order
//! of their dependency graph in which, among the plugins that are ready, the
//! one mounted first goes first.
//!
//! The graph is given by index: `g[i]` lists the plugins that plugin `i`
//! depends on, and plugins are numbered in mount order.
use vstd::prelude::*;

verus! {

/// Every dependency names a plugin of the graph.
pub open spec fn deps_in_range(g: Seq<Seq<usize>>) -> bool {
    forall|i: int, k: int| 0 <= i < g.len() && 0 <= k < g[i].len() ==> #[trigger] g[i][k] < g.len()
}

/// `o` runs every plugin once, each after all of its dependencies.
pub open spec fn is_topological(g: Seq<Seq<usize>>, o: Seq<usize>) -> bool {
    &&& o.len() == g.len()
    &&& o.no_duplicates()
    &&& forall|p: int| 0 <= p < o.len() ==> #[trigger] o[p] < g.len()
    &&& forall|p: int, k: int|
        0 <= p < o.len() && 0 <= k < g[o[p] as int].len() ==> o.subrange(0, p).contains(
            #[trigger] g[o[p] as int][k],
        )
}

/// The dependency graph has no cycle: some order runs every plugin after
/// its dependencies.
pub open spec fn acyclic(g: Seq<Seq<usize>>) -> bool {
    exists|o: Seq<usize>| is_topological(g, o)
}

/// Plugin `i` has not run yet, and all of its dependencies have.
pub open spec fn ready(g: Seq<Seq<usize>>, placed: Seq<usize>, i: int) -> bool {
    &&& !placed.contains(i as usize)
    &&& forall|k: int| 0 <= k < g[i].len() ==> placed.contains(#[trigger] g[i][k])
}

/// The first plugin, from `from` on, that is ready.
pub open spec fn first_ready_from(g: Seq<Seq<usize>>, placed: Seq<usize>, from: int) -> Option<
    usize,
>
    decreases g.len() - from,
{
    if from < 0 || from >= g.len() {
        None
    } else if ready(g, placed, from) {
        Some(from as usize)
    } else {
        first_ready_from(g, placed, from + 1)
    }
}

/// Extends `placed` by always running the first ready plugin next; `None`
/// when none is ready before all have run.
pub open spec fn order_from(g: Seq<Seq<usize>>, placed: Seq<usize>) -> Option<Seq<usize>>
    decreases g.len() - placed.len(),
{
    if placed.len() >= g.len() {
        Some(placed)
    } else {
        match first_ready_from(g, placed, 0) {
            None => None,
            Some(i) => order_from(g, placed.push(i)),
        }
    }
}

/// The init order of the graph, if it has one.
pub open spec fn init_order(g: Seq<Seq<usize>>) -> Option<Seq<usize>> {
    order_from(g, Seq::empty())
}

/// `placed` is a valid beginning of a topological order.
pub open spec fn valid_prefix(g: Seq<Seq<usize>>, placed: Seq<usize>) -> bool {
    &&& g.len() <= usize::MAX
    &&& placed.len() <= g.len()
    &&& placed.no_duplicates()
    &&& forall|p: int| 0 <= p < placed.len() ==> #[trigger] placed[p] < g.len()
    &&& forall|p: int, k: int|
        0 <= p < placed.len() && 0 <= k < g[placed[p] as int].len() ==> placed.subrange(
            0,
            p,
        ).contains(#[trigger] g[placed[p] as int][k])
}

proof fn lemma_first_ready(g: Seq<Seq<usize>>, placed: Seq<usize>, from: int)
    requires
        0 <= from,
        g.len() <= usize::MAX,
    ensures
        first_ready_from(g, placed, from) matches Some(i) ==> from <= i < g.len() && ready(
            g,
            placed,
            i as int,
        ),
        first_ready_from(g, placed, from) is None ==> forall|j: int|
            from <= j < g.len() ==> !ready(g, placed, j),
    decreases g.len() - from,
{
    if from < g.len() && !ready(g, placed, from) {
        lemma_first_ready(g, placed, from + 1);
    }
}

proof fn lemma_push_prefix(g: Seq<Seq<usize>>, placed: Seq<usize>, i: usize)
    requires
        valid_prefix(g, placed),
        placed.len() < g.len(),
        i < g.len(),
        ready(g, placed, i as int),
    ensures
        valid_prefix(g, placed.push(i)),
{
    let q = placed.push(i);
    assert(q.no_duplicates()) by {
        assert forall|a: int, b: int| 0 <= a < b < q.len() implies q[a] != q[b] by {
            if b == placed.len() {
                assert(placed.contains(placed[a]));
            }
        }
    }
    assert forall|p: int, k: int| 0 <= p < q.len() && 0 <= k < g[q[p] as int].len() implies q.subrange(
        0,
        p,
    ).contains(#[trigger] g[q[p] as int][k]) by {
        if p == placed.len() {
            assert(q.subrange(0, p) =~= placed);
            assert(q[p] == i);
            assert(placed.contains(g[i as int][k]));
        } else {
            assert(q.subrange(0, p) =~= placed.subrange(0, p));
            assert(q[p] == placed[p]);
            assert(placed.subrange(0, p).contains(g[placed[p] as int][k]));
        }
    }
}

/// The greedy order, when it exists, is topological.
proof fn lemma_order_from_sound(g: Seq<Seq<usize>>, placed: Seq<usize>)
    requires
        valid_prefix(g, placed),
    ensures
        order_from(g, placed) matches Some(o) ==> is_topological(g, o),
    decreases g.len() - placed.len(),
{
    if placed.len() < g.len() {
        lemma_first_ready(g, placed, 0);
        if let Some(i) = first_ready_from(g, placed, 0) {
            lemma_push_prefix(g, placed, i);
            lemma_order_from_sound(g, placed.push(i));
        }
    }
}

/// When no plugin is ready before all have run, no topological order
/// exists: every plugin of such an order would have run already.
proof fn lemma_stuck(g: Seq<Seq<usize>>, placed: Seq<usize>, o: Seq<usize>)
    requires
        valid_prefix(g, placed),
        placed.len() < g.len(),
        forall|j: int| 0 <= j < g.len() ==> !ready(g, placed, j),
    ensures
        !is_topological(g, o),
{
    if !is_topological(g, o) {
        return;
    }
    assert forall|p: int| 0 <= p < o.len() implies placed.contains(#[trigger] o[p]) by {
        lemma_stuck_prefix(g, placed, o, p);
    }
    assert(o.to_set().subset_of(placed.to_set())) by {
        assert forall|x: usize| o.to_set().contains(x) implies placed.to_set().contains(x) by {
            assert(o.contains(x));
            let p = choose|p: int| 0 <= p < o.len() && o[p] == x;
            assert(placed.contains(o[p]));
        }
    }
    o.unique_seq_to_set();
    placed.unique_seq_to_set();
    vstd::set_lib::lemma_len_subset(o.to_set(), placed.to_set());
}

proof fn lemma_stuck_prefix(g: Seq<Seq<usize>>, placed: Seq<usize>, o: Seq<usize>, p: int)
    requires
        valid_prefix(g, placed),
        forall|j: int| 0 <= j < g.len() ==> !ready(g, placed, j),
        is_topological(g, o),
        0 <= p < o.len(),
    ensures
        placed.contains(o[p]),
    decreases p,
{
    let i = o[p] as int;
    assert forall|k: int| 0 <= k < g[i].len() implies placed.contains(#[trigger] g[i][k]) by {
        assert(o.subrange(0, p).contains(g[i][k]));
        let q = choose|q: int| 0 <= q < p && o.subrange(0, p)[q] == g[i][k];
        lemma_stuck_prefix(g, placed, o, q);
    }
    assert(!ready(g, placed, i));
}

/// When the greedy order does not exist, no topological order does.
proof fn lemma_order_from_complete(g: Seq<Seq<usize>>, placed: Seq<usize>)
    requires
        valid_prefix(g, placed),
    ensures
        order_from(g, placed) is None ==> !acyclic(g),
    decreases g.len() - placed.len(),
{
    if placed.len() < g.len() {
        lemma_first_ready(g, placed, 0);
        match first_ready_from(g, placed, 0) {
            None => {
                if acyclic(g) {
                    let o = choose|o: Seq<usize>| is_topological(g, o);
                    lemma_stuck(g, placed, o);
                    assert(false);
                }
            },
            Some(i) => {
                lemma_push_prefix(g, placed, i);
                lemma_order_from_complete(g, placed.push(i));
            },
        }
    }
}

/// The init order exists exactly when the dependency graph is acyclic, and
/// then it runs every plugin once, after all of its dependencies.
pub proof fn lemma_init_order(g: Seq<Seq<usize>>)
    requires
        g.len() <= usize::MAX,
    ensures
        init_order(g) is Some <==> acyclic(g),
        init_order(g) matches Some(o) ==> is_topological(g, o),
{
    let e = Seq::<usize>::empty();
    assert(valid_prefix(g, e));
    lemma_order_from_sound(g, e);
    lemma_order_from_complete(g, e);
}

/// The graph of a dependency table, by index.
pub open spec fn graph_of(deps: Seq<Vec<usize>>) -> Seq<Seq<usize>> {
    deps.map_values(|d: Vec<usize>| d@)
}

/// The first plugin in mount order that is ready, given which plugins have
/// run (`done`, in step with `placed`).
fn first_ready(deps: &Vec<Vec<usize>>, done: &Vec<bool>, placed: Ghost<Seq<usize>>) -> (r: Option<usize>)
    requires
        deps_in_range(graph_of(deps@)),
        done@.len() == deps@.len(),
        forall|x: int| 0 <= x < deps@.len() ==> (done@[x] <==> placed@.contains(x as usize)),
    ensures
        r == first_ready_from(graph_of(deps@), placed@, 0),
{
    let ghost g = graph_of(deps@);
    let n = deps.len();
    let mut i: usize = 0;
    while i < n
        invariant
            n == deps@.len(),
            g == graph_of(deps@),
            g.len() == n,
            deps_in_range(g),
            done@.len() == n,
            forall|x: int| 0 <= x < n ==> (done@[x] <==> placed@.contains(x as usize)),
            i <= n,
            first_ready_from(g, placed@, 0) == first_ready_from(g, placed@, i as int),
        decreases n - i,
    {
        if !done[i] {
            let d = &deps[i];
            let mut k: usize = 0;
            let mut all = true;
            while k < d.len()
                invariant
                    d@ == g[i as int],
                    deps_in_range(g),
                    i < n,
                    n == g.len(),
                    done@.len() == n,
                    forall|x: int| 0 <= x < n ==> (done@[x] <==> placed@.contains(x as usize)),
                    k <= d@.len(),
                    all <==> forall|m: int| 0 <= m < k ==> placed@.contains(#[trigger] g[i as int][m]),
                decreases d@.len() - k,
            {
                let dep = d[k];
                assert(dep == g[i as int][k as int]);
                if !done[dep] {
                    all = false;
                }
                k = k + 1;
            }
            if all {
                assert(ready(g, placed@, i as int));
                return Some(i);
            }
        }
        assert(!ready(g, placed@, i as int));
        i = i + 1;
    }
    None
}

/// Computes [`init_order`]: repeatedly runs the first plugin, in mount
/// order, whose dependencies have all run.
pub fn mount_order(deps: &Vec<Vec<usize>>) -> (r: Option<Vec<usize>>)
    requires
        deps_in_range(graph_of(deps@)),
    ensures
        r is Some <==> init_order(graph_of(deps@)) is Some,
        r matches Some(o) ==> init_order(graph_of(deps@)) == Some(o@),
{
    let ghost g = graph_of(deps@);
    let n = deps.len();
    let mut order: Vec<usize> = Vec::new();
    let mut done: Vec<bool> = Vec::new();
    let mut j: usize = 0;
    while j < n
        invariant
            j <= n,
            done@.len() == j,
            forall|x: int| 0 <= x < j ==> !done@[x],
        decreases n - j,
    {
        done.push(false);
        j = j + 1;
    }
    assert(order@ =~= Seq::<usize>::empty());
    while order.len() < n
        invariant
            n == deps@.len(),
            g == graph_of(deps@),
            g.len() == n,
            deps_in_range(g),
            order@.len() <= n,
            done@.len() == n,
            forall|x: int| 0 <= x < n ==> (done@[x] <==> order@.contains(x as usize)),
            init_order(g) == order_from(g, order@),
        decreases n - order@.len(),
    {
        let next = first_ready(deps, &done, Ghost(order@));
        let i = match next {
            None => {
                return None;
            },
            Some(i) => i,
        };
        proof {
            lemma_first_ready(g, order@, 0);
        }
        let ghost prev = order@;
        order.push(i);
        done.set(i, true);
        assert forall|x: int| 0 <= x < n implies (done@[x] <==> order@.contains(x as usize)) by {
            if order@.contains(x as usize) && x != i {
                let q = choose|q: int| 0 <= q < order@.len() && order@[q] == x as usize;
                assert(prev[q] == x as usize);
            }
            if prev.contains(x as usize) {
                let q = choose|q: int| 0 <= q < prev.len() && prev[q] == x as usize;
                assert(order@[q] == x as usize);
            }
            assert(order@[prev.len() as int] == i);
        }
    }
    Some(order)
}

} // verus!
