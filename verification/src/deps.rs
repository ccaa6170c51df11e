//! Start-up ordering of services from their `Before`, `After` and `Requires`
//! declarations (a topological sort by Kahn's algorithm).

use vstd::prelude::*;
use vstd::set_lib::*;

verus! {

/// The dependency declarations of one service.
#[derive(Debug, Clone)]
pub struct ServiceDependencies {
    pub before: Vec<String>,
    pub after: Vec<String>,
    pub requires: Vec<String>,
    pub required_by: Vec<String>,
}

impl ServiceDependencies {
    /// A service that declares no dependency.
    pub fn new() -> (r: Self)
        ensures
            r.before@.len() == 0,
            r.after@.len() == 0,
            r.requires@.len() == 0,
            r.required_by@.len() == 0,
    {
        ServiceDependencies {
            before: Vec::new(),
            after: Vec::new(),
            requires: Vec::new(),
            required_by: Vec::new(),
        }
    }
}

/// The character sequences of a list of strings.
pub open spec fn str_views(v: Seq<String>) -> Seq<Seq<char>> {
    v.map_values(|s: String| s@)
}

/// Service `u` has to be started before service `v`: `v` is declared
/// `After` or `Requires` `u`, or `u` is declared `Before` `v`.
pub open spec fn must_precede(
    names: Seq<Seq<char>>,
    deps: Seq<ServiceDependencies>,
    u: int,
    v: int,
) -> bool {
    ||| str_views(deps[v].after@).contains(names[u])
    ||| str_views(deps[u].before@).contains(names[v])
    ||| str_views(deps[v].requires@).contains(names[u])
}

/// `ord` lists every service index exactly once, and every service comes
/// after all the services it has to follow.
pub open spec fn is_valid_order(
    names: Seq<Seq<char>>,
    deps: Seq<ServiceDependencies>,
    ord: Seq<usize>,
) -> bool {
    &&& ord.len() == names.len()
    &&& ord.no_duplicates()
    &&& forall|k: int| 0 <= k < ord.len() ==> (#[trigger] ord[k]) < names.len()
    &&& forall|p: int, q: int|
        #![trigger ord[p], ord[q]]
        0 <= p < ord.len() && 0 <= q < ord.len() && must_precede(
            names,
            deps,
            ord[p] as int,
            ord[q] as int,
        ) ==> p < q
}

/// Some order of the services satisfies all their declarations.
pub open spec fn has_valid_order(names: Seq<Seq<char>>, deps: Seq<ServiceDependencies>) -> bool {
    exists|ord: Seq<usize>| is_valid_order(names, deps, ord)
}

/// `c` is a cycle of declarations: each service in it has to be started
/// before the next, and the last before the first.
pub open spec fn is_cycle(names: Seq<Seq<char>>, deps: Seq<ServiceDependencies>, c: Seq<usize>) -> bool {
    &&& c.len() > 0
    &&& forall|k: int| 0 <= k < c.len() ==> (#[trigger] c[k]) < names.len()
    &&& forall|k: int|
        #![trigger c[k]]
        0 <= k < c.len() - 1 ==> must_precede(names, deps, c[k] as int, c[k + 1] as int)
    &&& must_precede(names, deps, c.last() as int, c[0] as int)
}

/// The declarations are circular.
pub open spec fn has_cycle(names: Seq<Seq<char>>, deps: Seq<ServiceDependencies>) -> bool {
    exists|c: Seq<usize>| is_cycle(names, deps, c)
}

/// Every service that some service requires is among `names`.
pub open spec fn requirements_met(names: Seq<Seq<char>>, deps: Seq<ServiceDependencies>) -> bool {
    forall|s: int, k: int|
        #![trigger deps[s].requires@[k]]
        0 <= s < names.len() && 0 <= k < deps[s].requires@.len() ==> names.contains(
            deps[s].requires@[k]@,
        )
}

/// The names at the given indices.
pub open spec fn names_at(names: Seq<Seq<char>>, ord: Seq<usize>) -> Seq<Seq<char>> {
    ord.map_values(|i: usize| names[i as int])
}

/// Number of edges into `v` whose source is not yet `done`.
pub open spec fn indeg(edges: Seq<(usize, usize)>, done: Seq<bool>, v: int) -> nat
    decreases edges.len(),
{
    if edges.len() == 0 {
        0
    } else {
        indeg(edges.drop_last(), done, v) + (if edges.last().1 as int == v
            && !done[edges.last().0 as int] {
            1nat
        } else {
            0nat
        })
    }
}

/// Number of edges from `u` to `w`.
pub open spec fn from_to(edges: Seq<(usize, usize)>, u: int, w: int) -> nat
    decreases edges.len(),
{
    if edges.len() == 0 {
        0
    } else {
        from_to(edges.drop_last(), u, w) + (if edges.last().0 as int == u && edges.last().1 as int
            == w {
            1nat
        } else {
            0nat
        })
    }
}

pub open spec fn edges_in_range(edges: Seq<(usize, usize)>, n: int) -> bool {
    forall|k: int| 0 <= k < edges.len() ==> (#[trigger] edges[k]).0 < n && edges[k].1 < n
}

proof fn lemma_indeg_mark_done(edges: Seq<(usize, usize)>, done: Seq<bool>, u: int, w: int)
    requires
        0 <= u < done.len(),
        !done[u],
        edges_in_range(edges, done.len() as int),
    ensures
        indeg(edges, done.update(u, true), w) + from_to(edges, u, w) == indeg(edges, done, w),
    decreases edges.len(),
{
    if edges.len() > 0 {
        let e = edges.last();
        assert(edges[edges.len() - 1] == e);
        assert(edges_in_range(edges.drop_last(), done.len() as int)) by {
            assert forall|k: int| 0 <= k < edges.drop_last().len() implies (
            #[trigger] edges.drop_last()[k]).0 < done.len() && edges.drop_last()[k].1
                < done.len() by {
                assert(edges.drop_last()[k] == edges[k]);
            }
        }
        lemma_indeg_mark_done(edges.drop_last(), done, u, w);
    }
}

proof fn lemma_from_to_le_indeg(edges: Seq<(usize, usize)>, done: Seq<bool>, u: int, w: int)
    requires
        0 <= u < done.len(),
        !done[u],
    ensures
        from_to(edges, u, w) <= indeg(edges, done, w),
    decreases edges.len(),
{
    if edges.len() > 0 {
        lemma_from_to_le_indeg(edges.drop_last(), done, u, w);
    }
}

proof fn lemma_from_to_take(edges: Seq<(usize, usize)>, k: int, u: int, w: int)
    requires
        0 <= k < edges.len(),
    ensures
        from_to(edges.take(k + 1), u, w) == from_to(edges.take(k), u, w) + (if edges[k].0 as int
            == u && edges[k].1 as int == w {
            1nat
        } else {
            0nat
        }),
{
    assert(edges.take(k + 1).drop_last() =~= edges.take(k));
}

proof fn lemma_from_to_prefix_le(edges: Seq<(usize, usize)>, k: int, u: int, w: int)
    requires
        0 <= k <= edges.len(),
    ensures
        from_to(edges.take(k), u, w) <= from_to(edges, u, w),
    decreases edges.len() - k,
{
    if k < edges.len() {
        lemma_from_to_take(edges, k, u, w);
        lemma_from_to_prefix_le(edges, k + 1, u, w);
    } else {
        assert(edges.take(k) =~= edges);
    }
}

proof fn lemma_indeg_positive(edges: Seq<(usize, usize)>, done: Seq<bool>, v: int) -> (k: int)
    requires
        indeg(edges, done, v) > 0,
    ensures
        0 <= k < edges.len(),
        edges[k].1 as int == v,
        !done[edges[k].0 as int],
    decreases edges.len(),
{
    if indeg(edges.drop_last(), done, v) > 0 {
        let k = lemma_indeg_positive(edges.drop_last(), done, v);
        assert(edges.drop_last()[k] == edges[k]);
        k
    } else {
        edges.len() - 1
    }
}

proof fn lemma_indeg_push(edges: Seq<(usize, usize)>, e: (usize, usize), done: Seq<bool>, v: int)
    ensures
        indeg(edges.push(e), done, v) == indeg(edges, done, v) + (if e.1 as int == v
            && !done[e.0 as int] {
            1nat
        } else {
            0nat
        }),
{
    assert(edges.push(e).drop_last() =~= edges);
}

proof fn lemma_indeg_le_len(edges: Seq<(usize, usize)>, done: Seq<bool>, v: int)
    ensures
        indeg(edges, done, v) <= edges.len(),
    decreases edges.len(),
{
    if edges.len() > 0 {
        lemma_indeg_le_len(edges.drop_last(), done, v);
    }
}

/// A duplicate-free sequence of `n` indices below `n` holds every index below `n`.
proof fn lemma_covers(s: Seq<usize>, n: int)
    requires
        s.len() == n,
        s.no_duplicates(),
        forall|k: int| 0 <= k < s.len() ==> (#[trigger] s[k]) < n,
    ensures
        forall|v: usize| (v as int) < n ==> #[trigger] s.contains(v),
{
    let si = s.map_values(|x: usize| x as int);
    assert(si.no_duplicates()) by {
        assert forall|i: int, j: int|
            0 <= i < si.len() && 0 <= j < si.len() && i != j implies si[i] != si[j] by {
            assert(s[i] != s[j]);
        }
    }
    si.unique_seq_to_set();
    lemma_int_range(0, n);
    assert(si.to_set().subset_of(set_int_range(0, n))) by {
        assert forall|x: int| si.to_set().contains(x) implies set_int_range(0, n).contains(x) by {
            assert(si.contains(x));
            let k = choose|k: int| 0 <= k < si.len() && si[k] == x;
            assert(s[k] < n);
        }
    }
    lemma_subset_equality(si.to_set(), set_int_range(0, n));
    assert forall|v: usize| (v as int) < n implies #[trigger] s.contains(v) by {
        assert(set_int_range(0, n).contains(v as int));
        assert(si.to_set().contains(v as int));
        assert(si.contains(v as int));
        let k = choose|k: int| 0 <= k < si.len() && si[k] == v as int;
        assert(s[k] == v);
    }
}

/// A duplicate-free sequence of fewer than `n` indices misses some index below `n`.
proof fn lemma_misses(s: Seq<usize>, n: int) -> (v: usize)
    requires
        s.len() < n,
        n <= usize::MAX,
        s.no_duplicates(),
    ensures
        (v as int) < n,
        !s.contains(v),
{
    if forall|v: usize| (v as int) < n ==> #[trigger] s.contains(v) {
        let si = s.map_values(|x: usize| x as int);
        si.lemma_cardinality_of_set();
        lemma_int_range(0, n);
        assert(set_int_range(0, n).subset_of(si.to_set())) by {
            assert forall|x: int| set_int_range(0, n).contains(x) implies si.to_set().contains(
                x,
            ) by {
                assert(0 <= x < n);
                assert(s.contains(x as usize));
                let k = choose|k: int| 0 <= k < s.len() && s[k] == x as usize;
                assert(si[k] == x);
            }
        }
        lemma_len_subset(set_int_range(0, n), si.to_set());
        assert(false);
        0
    } else {
        choose|v: usize| (v as int) < n && !s.contains(v)
    }
}

/// The least position of `ord` whose element is not in `q`, given one such position `p`.
proof fn lemma_first_outside(ord: Seq<usize>, q: Seq<usize>, p: int) -> (m: int)
    requires
        0 <= p < ord.len(),
        !q.contains(ord[p]),
    ensures
        0 <= m <= p,
        !q.contains(ord[m]),
        forall|i: int| 0 <= i < m ==> q.contains(#[trigger] ord[i]),
    decreases p,
{
    if exists|i: int| 0 <= i < p && !q.contains(ord[i]) {
        let i = choose|i: int| 0 <= i < p && !q.contains(ord[i]);
        lemma_first_outside(ord, q, i)
    } else {
        p
    }
}

/// A duplicate-free sequence of indices below `n` has at most `n` elements.
proof fn lemma_distinct_bounded(s: Seq<usize>, n: int)
    requires
        0 <= n,
        s.no_duplicates(),
        forall|k: int| 0 <= k < s.len() ==> (#[trigger] s[k]) < n,
    ensures
        s.len() <= n,
{
    let si = s.map_values(|x: usize| x as int);
    assert(si.no_duplicates()) by {
        assert forall|i: int, j: int|
            0 <= i < si.len() && 0 <= j < si.len() && i != j implies si[i] != si[j] by {
            assert(s[i] != s[j]);
        }
    }
    si.unique_seq_to_set();
    lemma_int_range(0, n);
    assert(si.to_set().subset_of(set_int_range(0, n))) by {
        assert forall|x: int| si.to_set().contains(x) implies set_int_range(0, n).contains(x) by {
            assert(si.contains(x));
            let k = choose|k: int| 0 <= k < si.len() && si[k] == x;
            assert(s[k] < n);
        }
    }
    lemma_len_subset(si.to_set(), set_int_range(0, n));
}

/// When no edge into `v` has a pending source, every edge into `v` has a done source.
proof fn lemma_indeg_zero(edges: Seq<(usize, usize)>, done: Seq<bool>, v: int)
    requires
        indeg(edges, done, v) == 0,
    ensures
        forall|k: int|
            0 <= k < edges.len() && (#[trigger] edges[k]).1 as int == v ==> done[edges[k].0 as int],
    decreases edges.len(),
{
    if edges.len() > 0 {
        lemma_indeg_zero(edges.drop_last(), done, v);
        assert forall|k: int|
            0 <= k < edges.len() && (#[trigger] edges[k]).1 as int == v implies done[edges[k].0 as int] by {
            if k < edges.len() - 1 {
                assert(edges.drop_last()[k] == edges[k]);
            }
        }
    }
}

/// The position of `v` in `ord`.
pub open spec fn pos_in(ord: Seq<usize>, v: usize) -> int {
    choose|p: int| 0 <= p < ord.len() && ord[p] == v
}

proof fn lemma_pos_chain(names: Seq<Seq<char>>, deps: Seq<ServiceDependencies>, ord: Seq<usize>, c: Seq<usize>, k: int)
    requires
        is_valid_order(names, deps, ord),
        is_cycle(names, deps, c),
        forall|v: usize| (v as int) < names.len() ==> #[trigger] ord.contains(v),
        0 <= k < c.len(),
    ensures
        0 <= pos_in(ord, c[k]) < ord.len(),
        ord[pos_in(ord, c[k])] == c[k],
        pos_in(ord, c[0]) <= pos_in(ord, c[k]),
    decreases k,
{
    assert(ord.contains(c[k]));
    assert(ord.contains(c[0]));
    if k > 0 {
        lemma_pos_chain(names, deps, ord, c, k - 1);
        let p = pos_in(ord, c[k - 1]);
        let r = pos_in(ord, c[k]);
        assert(must_precede(names, deps, c[k - 1] as int, c[k] as int));
        assert(must_precede(names, deps, ord[p] as int, ord[r] as int));
    }
}

/// A valid start-up order leaves no room for circular declarations: along
/// a cycle every service would come strictly later than the one before it.
pub proof fn lemma_valid_order_no_cycle(names: Seq<Seq<char>>, deps: Seq<ServiceDependencies>, ord: Seq<usize>)
    requires
        is_valid_order(names, deps, ord),
    ensures
        !has_cycle(names, deps),
{
    lemma_covers(ord, names.len() as int);
    assert forall|c: Seq<usize>| !is_cycle(names, deps, c) by {
        if is_cycle(names, deps, c) {
            let l = c.len() - 1;
            lemma_pos_chain(names, deps, ord, c, l);
            lemma_pos_chain(names, deps, ord, c, 0);
            assert(c.last() == c[l]);
            let p = pos_in(ord, c[l]);
            let r = pos_in(ord, c[0]);
            assert(must_precede(names, deps, ord[p] as int, ord[r] as int));
        }
    }
}

/// Following, from a service left out of `q`, a predecessor that is also
/// left out, `k` times.
pub open spec fn walk_back(pred: spec_fn(usize) -> usize, start: usize, k: nat) -> usize
    decreases k,
{
    if k == 0 {
        start
    } else {
        pred(walk_back(pred, start, (k - 1) as nat))
    }
}

/// When every service left out of `q` has a predecessor that is also left
/// out, and some service is left out, the declarations are circular.
proof fn lemma_cycle_from_preds(
    names: Seq<Seq<char>>,
    deps: Seq<ServiceDependencies>,
    q: Seq<usize>,
    pred: spec_fn(usize) -> usize,
    start: usize,
)
    requires
        start < names.len(),
        !q.contains(start),
        forall|x: usize|
            x < names.len() && !q.contains(x) ==> #[trigger] pred(x) < names.len() && !q.contains(pred(x))
                && must_precede(names, deps, pred(x) as int, x as int),
    ensures
        has_cycle(names, deps),
{
    let n = names.len() as int;
    assert forall|k: nat| #[trigger] walk_back(pred, start, k) < n && !q.contains(walk_back(pred, start, k)) by {
        lemma_walk_back(names, deps, q, pred, start, k);
    }
    let ws = Seq::new((n + 1) as nat, |i: int| walk_back(pred, start, i as nat));
    assert forall|k: int| 0 <= k < ws.len() implies (#[trigger] ws[k]) < n by {
        assert(walk_back(pred, start, k as nat) < n);
    }
    if ws.no_duplicates() {
        lemma_distinct_bounded(ws, n);
        assert(false);
    }
    let (i, j) = choose|i: int, j: int| 0 <= i < ws.len() && 0 <= j < ws.len() && i != j && ws[i] == ws[j];
    let (a, b) = if i < j { (i, j) } else { (j, i) };
    assert(ws[a] == ws[b]);
    let c = Seq::new((b - a) as nat, |k: int| walk_back(pred, start, (b - k) as nat));
    assert forall|k: int| 0 <= k < c.len() implies (#[trigger] c[k]) < names.len() by {
        assert(walk_back(pred, start, (b - k) as nat) < n);
    }
    assert forall|k: int| 0 <= k < c.len() - 1 implies must_precede(names, deps, #[trigger] c[k] as int, c[k + 1] as int) by {
        let x = walk_back(pred, start, (b - k - 1) as nat);
        assert(x < n && !q.contains(x));
        assert(walk_back(pred, start, (b - k) as nat) == pred(x));
        assert(c[k] == pred(x));
        assert(c[k + 1] == x);
    }
    let x = walk_back(pred, start, a as nat);
    assert(x < n && !q.contains(x));
    assert(walk_back(pred, start, (a + 1) as nat) == pred(x));
    assert(c.last() == c[c.len() - 1]);
    assert(c[c.len() - 1] == pred(x));
    assert(c[0] == walk_back(pred, start, b as nat));
    assert(ws[b] == c[0] && ws[a] == x);
    assert(is_cycle(names, deps, c));
}

proof fn lemma_walk_back(
    names: Seq<Seq<char>>,
    deps: Seq<ServiceDependencies>,
    q: Seq<usize>,
    pred: spec_fn(usize) -> usize,
    start: usize,
    k: nat,
)
    requires
        start < names.len(),
        !q.contains(start),
        forall|x: usize|
            x < names.len() && !q.contains(x) ==> #[trigger] pred(x) < names.len() && !q.contains(pred(x))
                && must_precede(names, deps, pred(x) as int, x as int),
    ensures
        walk_back(pred, start, k) < names.len(),
        !q.contains(walk_back(pred, start, k)),
    decreases k,
{
    if k > 0 {
        lemma_walk_back(names, deps, q, pred, start, (k - 1) as nat);
    }
}


/// An edge from `u` to `v` is in the list.
pub open spec fn edge_present(edges: Seq<(usize, usize)>, u: int, v: int) -> bool {
    exists|k: int| 0 <= k < edges.len() && edges[k].0 as int == u && edges[k].1 as int == v
}

/// Every edge of the list joins services that must be ordered that way.
pub open spec fn edges_sound(
    names: Seq<Seq<char>>,
    deps: Seq<ServiceDependencies>,
    edges: Seq<(usize, usize)>,
) -> bool {
    forall|k: int|
        0 <= k < edges.len() ==> must_precede(
            names,
            deps,
            (#[trigger] edges[k]).0 as int,
            edges[k].1 as int,
        )
}

/// Every pair of services that must be ordered is joined by an edge.
pub open spec fn edges_complete(
    names: Seq<Seq<char>>,
    deps: Seq<ServiceDependencies>,
    edges: Seq<(usize, usize)>,
) -> bool {
    forall|u: int, v: int|
        0 <= u < names.len() && 0 <= v < names.len() && #[trigger] must_precede(names, deps, u, v)
            ==> edge_present(edges, u, v)
}

/// Kahn's algorithm: repeatedly takes a service none of whose predecessors is pending.
/// The services taken, in order; all of them exactly when some valid order exists.
fn kahn_order(
    n: usize,
    edges: &Vec<(usize, usize)>,
    in_degree: Vec<usize>,
    Ghost(names): Ghost<Seq<Seq<char>>>,
    Ghost(deps): Ghost<Seq<ServiceDependencies>>,
) -> (order: Vec<usize>)
    requires
        names.len() == n,
        deps.len() == n,
        in_degree@.len() == n,
        edges_in_range(edges@, n as int),
        edges_sound(names, deps, edges@),
        edges_complete(names, deps, edges@),
        forall|v: int|
            0 <= v < n ==> in_degree@[v] == indeg(edges@, Seq::new(n as nat, |i: int| false), v),
    ensures
        order@.len() <= n,
        order@.no_duplicates(),
        forall|k: int| 0 <= k < order@.len() ==> (#[trigger] order@[k]) < n,
        order@.len() == n ==> is_valid_order(names, deps, order@),
        order@.len() < n ==> !has_valid_order(names, deps),
        order@.len() < n ==> has_cycle(names, deps),
{
    let ghost nodone = Seq::new(n as nat, |i: int| false);
    let mut in_deg = in_degree;
    let mut queue: Vec<usize> = Vec::new();
    let mut v: usize = 0;
    while v < n
        invariant
            v <= n,
            in_deg@.len() == n,
            edges_in_range(edges@, n as int),
            forall|x: int| 0 <= x < n ==> in_deg@[x] == indeg(edges@, nodone, x),
            queue@.no_duplicates(),
            forall|k: int| 0 <= k < queue@.len() ==> (#[trigger] queue@[k]) < v,
            forall|x: usize| x < v ==> (in_deg@[x as int] == 0 <==> #[trigger] queue@.contains(x)),
        decreases n - v,
    {
        let ghost old_q = queue@;
        if in_deg[v] == 0 {
            queue.push(v);
        }
        proof {
            assert forall|x: usize| x < v + 1 implies (in_deg@[x as int] == 0 <==> #[trigger] queue@.contains(x)) by {
                if x < v {
                    if old_q.contains(x) {
                        let i = choose|i: int| 0 <= i < old_q.len() && old_q[i] == x;
                        assert(queue@[i] == x);
                    }
                    if queue@.contains(x) {
                        let i = choose|i: int| 0 <= i < queue@.len() && queue@[i] == x;
                        if i < old_q.len() {
                            assert(old_q[i] == x);
                        }
                    }
                } else {
                    if in_deg@[x as int] == 0 {
                        assert(queue@[old_q.len() as int] == x);
                    }
                    if queue@.contains(x) {
                        let i = choose|i: int| 0 <= i < queue@.len() && queue@[i] == x;
                        if i < old_q.len() {
                            assert(old_q[i] < v);
                        }
                    }
                }
            }
        }
        v = v + 1;
    }
    let ghost mut done = nodone;
    proof {
        assert forall|p: int, k: int|
            0 <= p < queue@.len() && 0 <= k < edges@.len() && (#[trigger] edges@[k]).1
                == #[trigger] queue@[p] implies queue@.take(p).contains(edges@[k].0) by {
            let w = queue@[p];
            assert(queue@.contains(w));
            lemma_indeg_zero(edges@, nodone, w as int);
            assert(done[edges@[k].0 as int]);
        }
        lemma_distinct_bounded(queue@, n as int);
        assert forall|x: usize| x < n implies (done[x as int] <==> #[trigger] queue@.take(0).contains(x)) by {}
    }
    let mut qh: usize = 0;
    while qh < queue.len()
        invariant
            in_deg@.len() == n,
            done.len() == n,
            names.len() == n,
            deps.len() == n,
            edges_in_range(edges@, n as int),
            edges_sound(names, deps, edges@),
            edges_complete(names, deps, edges@),
            queue@.len() <= n,
            qh <= queue@.len(),
            queue@.no_duplicates(),
            forall|k: int| 0 <= k < queue@.len() ==> (#[trigger] queue@[k]) < n,
            forall|x: usize| x < n ==> (done[x as int] <==> #[trigger] queue@.take(qh as int).contains(x)),
            forall|x: int| 0 <= x < n ==> in_deg@[x] == indeg(edges@, done, x),
            forall|x: usize| x < n ==> (in_deg@[x as int] == 0 <==> #[trigger] queue@.contains(x)),
            forall|p: int, k: int|
                0 <= p < queue@.len() && 0 <= k < edges@.len() && (#[trigger] edges@[k]).1
                    == #[trigger] queue@[p] ==> queue@.take(p).contains(edges@[k].0),
        decreases n - qh,
    {
        let u = queue[qh];
        let ghost prev = done;
        proof {
            assert(!queue@.take(qh as int).contains(u)) by {
                if queue@.take(qh as int).contains(u) {
                    let j = choose|j: int| 0 <= j < qh && queue@.take(qh as int)[j] == u;
                    assert(queue@[j] == queue@[qh as int]);
                }
            }
            assert(!prev[u as int]);
            done = prev.update(u as int, true);
            assert(queue@.take(qh + 1) =~= queue@.take(qh as int).push(u));
            assert forall|x: usize| x < n implies (done[x as int] <==> #[trigger] queue@.take(qh + 1).contains(x)) by {
                let t = queue@.take(qh as int);
                if x == u {
                    assert(queue@.take(qh + 1)[qh as int] == u);
                } else {
                    if t.contains(x) {
                        let i = choose|i: int| 0 <= i < t.len() && t[i] == x;
                        assert(queue@.take(qh + 1)[i] == x);
                    }
                    let t1 = queue@.take(qh + 1);
                    if t1.contains(x) {
                        let i = choose|i: int| 0 <= i < t1.len() && t1[i] == x;
                        assert(i < qh);
                        assert(t[i] == x);
                    }
                }
            }
            assert forall|w: int| 0 <= w < n implies indeg(edges@, done, w) + from_to(edges@, u as int, w) == indeg(edges@, prev, w) by {
                lemma_indeg_mark_done(edges@, prev, u as int, w);
            }
        }
        qh = qh + 1;
        let mut k: usize = 0;
        while k < edges.len()
            invariant
                in_deg@.len() == n,
                done.len() == n,
                prev.len() == n,
                0 < qh <= queue@.len(),
                u == queue@[qh - 1],
                u < n,
                !prev[u as int],
                done == prev.update(u as int, true),
                k <= edges@.len(),
                edges_in_range(edges@, n as int),
                queue@.len() <= n,
                queue@.no_duplicates(),
                forall|j: int| 0 <= j < queue@.len() ==> (#[trigger] queue@[j]) < n,
                forall|x: usize| x < n ==> (done[x as int] <==> #[trigger] queue@.take(qh as int).contains(x)),
                forall|w: int| 0 <= w < n ==> indeg(edges@, done, w) + from_to(edges@, u as int, w) == indeg(edges@, prev, w),
                forall|w: int| 0 <= w < n ==> in_deg@[w] + from_to(edges@.take(k as int), u as int, w) == indeg(edges@, prev, w),
                forall|x: usize| x < n ==> (in_deg@[x as int] == 0 <==> #[trigger] queue@.contains(x)),
                forall|p: int, j: int|
                    0 <= p < queue@.len() && 0 <= j < edges@.len() && (#[trigger] edges@[j]).1
                        == #[trigger] queue@[p] ==> queue@.take(p).contains(edges@[j].0),
            decreases edges@.len() - k,
        {
            let (x, w) = edges[k];
            proof {
                assert forall|z: int| 0 <= z < n implies from_to(edges@.take(k + 1), u as int, z) == from_to(edges@.take(k as int), u as int, z) + (if x == u && w as int == z { 1nat } else { 0nat }) by {
                    lemma_from_to_take(edges@, k as int, u as int, z);
                }
            }
            if x == u {
                proof {
                    lemma_from_to_prefix_le(edges@, k + 1, u as int, w as int);
                    lemma_from_to_le_indeg(edges@, prev, u as int, w as int);
                }
                let d = in_deg[w] - 1;
                in_deg.set(w, d);
                if d == 0 {
                    proof {
                        assert(!queue@.contains(w));
                        assert(indeg(edges@, done, w as int) == 0);
                        lemma_indeg_zero(edges@, done, w as int);
                        let old_q = queue@;
                        assert forall|j: int| 0 <= j < edges@.len() && (#[trigger] edges@[j]).1 == w implies old_q.take(old_q.len() as int).contains(edges@[j].0) by {
                            let src = edges@[j].0;
                            assert(done[src as int]);
                            assert(queue@.take(qh as int).contains(src));
                            let i = choose|i: int| 0 <= i < qh && queue@.take(qh as int)[i] == src;
                            assert(old_q.take(old_q.len() as int)[i] == src);
                        }
                    }
                    let ghost old_q = queue@;
                    queue.push(w);
                    proof {
                        assert(queue@.take(qh as int) =~= old_q.take(qh as int));
                        assert forall|p: int| 0 <= p < old_q.len() implies #[trigger] queue@.take(p) =~= old_q.take(p) by {}
                        assert(queue@.take(old_q.len() as int) =~= old_q.take(old_q.len() as int));
                        assert(queue@.no_duplicates()) by {
                            assert forall|a: int, b: int| 0 <= a < queue@.len() && 0 <= b < queue@.len() && a != b implies queue@[a] != queue@[b] by {
                                if a == old_q.len() as int {
                                    assert(!old_q.contains(w));
                                    assert(old_q[b] != w);
                                } else if b == old_q.len() as int {
                                    assert(old_q[a] != w);
                                } else {
                                    assert(old_q[a] != old_q[b]);
                                }
                            }
                        }
                        lemma_distinct_bounded(queue@, n as int);
                        assert forall|p: int, j: int|
                            0 <= p < queue@.len() && 0 <= j < edges@.len() && (#[trigger] edges@[j]).1
                                == #[trigger] queue@[p] implies queue@.take(p).contains(edges@[j].0) by {
                            if p < old_q.len() {
                                assert(queue@.take(p) =~= old_q.take(p));
                            }
                        }
                        assert forall|y: usize| y < n implies (in_deg@[y as int] == 0 <==> #[trigger] queue@.contains(y)) by {
                            if y != w {
                                assert(old_q.contains(y) ==> queue@.contains(y)) by {
                                    if old_q.contains(y) {
                                        let i = choose|i: int| 0 <= i < old_q.len() && old_q[i] == y;
                                        assert(queue@[i] == y);
                                    }
                                }
                                assert(queue@.contains(y) ==> old_q.contains(y)) by {
                                    if queue@.contains(y) {
                                        let i = choose|i: int| 0 <= i < queue@.len() && queue@[i] == y;
                                        assert(i < old_q.len());
                                        assert(old_q[i] == y);
                                    }
                                }
                            } else {
                                assert(queue@[old_q.len() as int] == w);
                            }
                        }
                    }
                }
            }
            k = k + 1;
        }
        proof {
            assert(edges@.take(edges@.len() as int) =~= edges@);
            assert forall|x: int| 0 <= x < n implies in_deg@[x] == indeg(edges@, done, x) by {
                assert(in_deg@[x] + from_to(edges@.take(edges@.len() as int), u as int, x) == indeg(edges@, prev, x));
                assert(indeg(edges@, done, x) + from_to(edges@, u as int, x) == indeg(edges@, prev, x));
            }
        }
    }
    proof {
        assert(queue@.take(qh as int) =~= queue@);
        if queue@.len() == n {
            assert forall|p: int, q: int|
                #![trigger queue@[p], queue@[q]]
                0 <= p < queue@.len() && 0 <= q < queue@.len() && must_precede(
                    names,
                    deps,
                    queue@[p] as int,
                    queue@[q] as int,
                ) implies p < q by {
                assert(edge_present(edges@, queue@[p] as int, queue@[q] as int));
                let j = choose|j: int| 0 <= j < edges@.len() && edges@[j].0 as int == queue@[p] as int && edges@[j].1 as int == queue@[q] as int;
                assert(queue@.take(q).contains(edges@[j].0));
                let i = choose|i: int| 0 <= i < q && queue@.take(q)[i] == edges@[j].0;
                assert(queue@[i] == queue@[p]);
            }
        } else {
            assert forall|ord: Seq<usize>| !is_valid_order(names, deps, ord) by {
                if is_valid_order(names, deps, ord) {
                    lemma_covers(ord, n as int);
                    let v = lemma_misses(queue@, n as int);
                    assert(ord.contains(v));
                    let pv = choose|i: int| 0 <= i < ord.len() && ord[i] == v;
                    let m = lemma_first_outside(ord, queue@, pv);
                    let x = ord[m];
                    assert(in_deg@[x as int] != 0);
                    let j = lemma_indeg_positive(edges@, done, x as int);
                    let y = edges@[j].0;
                    assert(must_precede(names, deps, y as int, x as int));
                    assert(!queue@.take(qh as int).contains(y));
                    assert(ord.contains(y));
                    let py = choose|i: int| 0 <= i < ord.len() && ord[i] == y;
                    assert(py < m);
                    assert(queue@.contains(ord[py]));
                }
            }
            let q = queue@;
            let pred = |x: usize|
                edges@[choose|j: int|
                    0 <= j < edges@.len() && edges@[j].1 as int == x as int && !done[edges@[j].0 as int]].0;
            assert forall|x: usize|
                x < names.len() && !q.contains(x) implies #[trigger] pred(x) < names.len() && !q.contains(pred(x))
                    && must_precede(names, deps, pred(x) as int, x as int) by {
                assert(in_deg@[x as int] != 0);
                let j0 = lemma_indeg_positive(edges@, done, x as int);
                let j = choose|j: int|
                    0 <= j < edges@.len() && edges@[j].1 as int == x as int && !done[edges@[j].0 as int];
                let y = edges@[j].0;
                assert(pred(x) == y);
                assert(y < n);
                assert(!queue@.take(qh as int).contains(y));
            }
            let start = lemma_misses(queue@, n as int);
            lemma_cycle_from_preds(names, deps, q, pred, start);
        }
    }
    queue
}

/// The message for a service that requires an unknown one.
pub open spec fn missing_requirement_message(service: Seq<char>, required: Seq<char>) -> Seq<char> {
    "Service '"@ + service + "' requires '"@ + required + "' which does not exist"@
}

fn missing_requirement(service: &String, required: &String) -> (m: String)
    ensures
        m@ == missing_requirement_message(service@, required@),
{
    let mut m = String::new();
    m.append("Service '");
    m.append(service.as_str());
    m.append("' requires '");
    m.append(required.as_str());
    m.append("' which does not exist");
    proof {
        assert(m@ =~= missing_requirement_message(service@, required@));
    }
    m
}

/// Resolves the start-up order of a set of named services.
pub struct DependencyResolver {
    services: Vec<(String, ServiceDependencies)>,
}

impl DependencyResolver {
    #[verifier::type_invariant]
    spec fn names_unique(self) -> bool {
        self.names().no_duplicates()
    }

    /// The names of the registered services, in registration order.
    pub closed spec fn names(self) -> Seq<Seq<char>> {
        self.services@.map_values(|e: (String, ServiceDependencies)| e.0@)
    }

    /// The declarations of the registered services, index for index with `names`.
    pub closed spec fn deps(self) -> Seq<ServiceDependencies> {
        self.services@.map_values(|e: (String, ServiceDependencies)| e.1)
    }

    /// A resolver with no service.
    pub fn new() -> (r: Self)
        ensures
            r.names().len() == 0,
            r.deps().len() == 0,
    {
        let r = DependencyResolver { services: Vec::new() };
        assert(r.names() =~= Seq::<Seq<char>>::empty());
        r
    }

    /// The position of a registered service name.
    fn find(services: &Vec<(String, ServiceDependencies)>, name: &String) -> (r: Option<usize>)
        ensures
            match r {
                Some(i) => i < services@.len() && services@[i as int].0@ == name@,
                None => forall|i: int|
                    0 <= i < services@.len() ==> (#[trigger] services@[i]).0@ != name@,
            },
    {
        let mut i: usize = 0;
        while i < services.len()
            invariant
                i <= services@.len(),
                forall|j: int| 0 <= j < i ==> (#[trigger] services@[j]).0@ != name@,
            decreases services@.len() - i,
        {
            if services[i].0 == *name {
                return Some(i);
            }
            i = i + 1;
        }
        None
    }

    /// Registers a service, replacing the declarations of a service of the same name.
    pub fn add_service(&mut self, name: String, deps: ServiceDependencies)
        ensures
            old(self).names().contains(name@) ==> {
                &&& final(self).names() == old(self).names()
                &&& final(self).deps() == old(self).deps().update(
                    old(self).names().index_of(name@),
                    deps,
                )
            },
            !old(self).names().contains(name@) ==> {
                &&& final(self).names() == old(self).names().push(name@)
                &&& final(self).deps() == old(self).deps().push(deps)
            },
    {
        proof {
            use_type_invariant(&*self);
        }
        let ghost old_names = self.names();
        let ghost old_deps = self.deps();
        let mut services: Vec<(String, ServiceDependencies)> = Vec::new();
        std::mem::swap(&mut services, &mut self.services);
        assert(services@.map_values(|e: (String, ServiceDependencies)| e.0@) == old_names);
        match Self::find(&services, &name) {
            Some(i) => {
                let ghost nm = name@;
                services.set(i, (name, deps));
                proof {
                    let nn = services@.map_values(|e: (String, ServiceDependencies)| e.0@);
                    assert(nn =~= old_names);
                    assert(old_names.contains(nm)) by {
                        assert(old_names[i as int] == nm);
                    }
                    assert(old_names.index_of(nm) == i) by {
                        let j = old_names.index_of(nm);
                        assert(old_names[j] == nm);
                        assert(old_names[i as int] == nm);
                    }
                    assert(services@.map_values(|e: (String, ServiceDependencies)| e.1)
                        =~= old_deps.update(i as int, deps));
                }
                self.services = services;
            },
            None => {
                let ghost nm = name@;
                services.push((name, deps));
                proof {
                    let nn = services@.map_values(|e: (String, ServiceDependencies)| e.0@);
                    assert(nn =~= old_names.push(nm));
                    assert(!old_names.contains(nm)) by {
                        if old_names.contains(nm) {
                            let j = choose|j: int| 0 <= j < old_names.len() && old_names[j] == nm;
                            assert(services@[j].0@ == nm);
                        }
                    }
                    assert(nn.no_duplicates()) by {
                        assert forall|a: int, b: int|
                            0 <= a < nn.len() && 0 <= b < nn.len() && a != b implies nn[a]
                            != nn[b] by {
                            if a < old_names.len() && b < old_names.len() {
                                assert(nn[a] == old_names[a]);
                                assert(nn[b] == old_names[b]);
                            } else if a < old_names.len() {
                                assert(nn[a] == old_names[a]);
                            } else if b < old_names.len() {
                                assert(nn[b] == old_names[b]);
                            }
                        }
                    }
                    assert(services@.map_values(|e: (String, ServiceDependencies)| e.1)
                        =~= old_deps.push(deps));
                }
                self.services = services;
            },
        }
    }

    /// The precedence edges of the registered services, and the number of edges into each.
    fn build_graph(&self) -> (r: (Vec<(usize, usize)>, Vec<usize>))
        ensures
            r.1@.len() == self.names().len(),
            edges_in_range(r.0@, self.names().len() as int),
            edges_sound(self.names(), self.deps(), r.0@),
            edges_complete(self.names(), self.deps(), r.0@),
            forall|v: int|
                0 <= v < self.names().len() ==> r.1@[v] == indeg(
                    r.0@,
                    Seq::new(self.names().len(), |i: int| false),
                    v,
                ),
    {
        proof {
            use_type_invariant(self);
        }
        let n = self.services.len();
        let ghost names = self.names();
        let ghost deps = self.deps();
        let ghost nodone = Seq::new(n as nat, |i: int| false);
        let mut edges: Vec<(usize, usize)> = Vec::new();
        let mut in_degree: Vec<usize> = Vec::new();
        let mut i: usize = 0;
        while i < n
            invariant
                i <= n,
                in_degree@.len() == i,
                forall|x: int| 0 <= x < i ==> in_degree@[x] == 0,
            decreases n - i,
        {
            in_degree.push(0);
            i = i + 1;
        }
        let mut s: usize = 0;
        while s < n
            invariant
                n == names.len(),
                n == deps.len(),
                names == self.names(),
                deps == self.deps(),
                names.no_duplicates(),
                nodone == Seq::new(n as nat, |i: int| false),
                s <= n,
                in_degree@.len() == n,
                edges_in_range(edges@, n as int),
                edges_sound(names, deps, edges@),
                forall|x: int| 0 <= x < n ==> in_degree@[x] == indeg(edges@, nodone, x),
                forall|u: int, v: int|
                    0 <= u < n && 0 <= v < s && #[trigger] must_precede(names, deps, u, v)
                        && !str_views(deps[u].before@).contains(names[v]) ==> edge_present(edges@, u, v),
                forall|u: int, v: int|
                    0 <= u < s && 0 <= v < n && #[trigger] str_views(deps[u].before@).contains(names[v])
                        ==> edge_present(edges@, u, v),
            decreases n - s,
        {
            let d = &self.services[s].1;
            assert(*d == deps[s as int]);
            // `After`: this service starts after the named one.
            let mut a: usize = 0;
            while a < d.after.len()
                invariant
                    n == names.len(),
                    n == deps.len(),
                    names == self.names(),
                    deps == self.deps(),
                    names.no_duplicates(),
                    nodone == Seq::new(n as nat, |i: int| false),
                nodone == Seq::new(n as nat, |i: int| false),
                    s < n,
                    *d == deps[s as int],
                    a <= d.after@.len(),
                    in_degree@.len() == n,
                    edges_in_range(edges@, n as int),
                    edges_sound(names, deps, edges@),
                    forall|x: int| 0 <= x < n ==> in_degree@[x] == indeg(edges@, nodone, x),
                    forall|u: int, v: int|
                        0 <= u < n && 0 <= v < s && #[trigger] must_precede(names, deps, u, v)
                            && !str_views(deps[u].before@).contains(names[v]) ==> edge_present(edges@, u, v),
                    forall|u: int, v: int|
                        0 <= u < s && 0 <= v < n && #[trigger] str_views(deps[u].before@).contains(names[v])
                            ==> edge_present(edges@, u, v),
                    forall|u: int, j: int|
                        #![trigger d.after@[j], names[u]]
                        0 <= u < n && 0 <= j < a && d.after@[j]@ == names[u] ==> edge_present(edges@, u, s as int),
                decreases d.after@.len() - a,
            {
                match Self::find(&self.services, &d.after[a]) {
                    Some(j) => {
                        let ghost old_e = edges@;
                        edges.push((j, s));
                        let m = edges.len();
                        proof {
                            assert(names[j as int] == d.after@[a as int]@);
                            assert(str_views(deps[s as int].after@)[a as int] == names[j as int]);
                            self.lemma_edges_grow(old_e, (j, s), n as int);
                            assert forall|x: int| 0 <= x < n implies in_degree@[x] + (if x == s { 1int } else { 0int }) == indeg(edges@, nodone, x) by {
                                lemma_indeg_push(old_e, (j, s), nodone, x);
                                assert(edges@ == old_e.push((j, s)));
                                assert(!nodone[j as int]);
                            }
                            lemma_indeg_le_len(old_e, nodone, s as int);
                            assert(edge_present(edges@, j as int, s as int)) by {
                                assert(edges@[old_e.len() as int] == (j, s));
                            }
                            assert forall|u: int, jj: int|
                                #![trigger d.after@[jj], names[u]]
                                0 <= u < n && 0 <= jj < a + 1 && d.after@[jj]@ == names[u] implies edge_present(edges@, u, s as int) by {
                                if jj == a {
                                    assert(names[u] == names[j as int]);
                                }
                            }
                        }
                        let c = in_degree[s] + 1;
                        in_degree.set(s, c);
                    },
                    None => {
                    },
                }
                a = a + 1;
            }
            // `Before`: the named service starts after this one.
            let mut b: usize = 0;
            while b < d.before.len()
                invariant
                    n == names.len(),
                    n == deps.len(),
                    names == self.names(),
                    deps == self.deps(),
                    names.no_duplicates(),
                    nodone == Seq::new(n as nat, |i: int| false),
                nodone == Seq::new(n as nat, |i: int| false),
                    s < n,
                    *d == deps[s as int],
                    b <= d.before@.len(),
                    in_degree@.len() == n,
                    edges_in_range(edges@, n as int),
                    edges_sound(names, deps, edges@),
                    forall|x: int| 0 <= x < n ==> in_degree@[x] == indeg(edges@, nodone, x),
                    forall|u: int, v: int|
                        0 <= u < n && 0 <= v < s && #[trigger] must_precede(names, deps, u, v)
                            && !str_views(deps[u].before@).contains(names[v]) ==> edge_present(edges@, u, v),
                    forall|u: int, v: int|
                        0 <= u < s && 0 <= v < n && #[trigger] str_views(deps[u].before@).contains(names[v])
                            ==> edge_present(edges@, u, v),
                    forall|u: int|
                        0 <= u < n && #[trigger] str_views(d.after@).contains(names[u]) ==> edge_present(edges@, u, s as int),
                    forall|v: int, j: int|
                        #![trigger d.before@[j], names[v]]
                        0 <= v < n && 0 <= j < b && d.before@[j]@ == names[v] ==> edge_present(edges@, s as int, v),
                decreases d.before@.len() - b,
            {
                match Self::find(&self.services, &d.before[b]) {
                    Some(j) => {
                        let ghost old_e = edges@;
                        edges.push((s, j));
                        let m = edges.len();
                        proof {
                            assert(names[j as int] == d.before@[b as int]@);
                            assert(str_views(deps[s as int].before@)[b as int] == names[j as int]);
                            self.lemma_edges_grow(old_e, (s, j), n as int);
                            assert forall|x: int| 0 <= x < n implies in_degree@[x] + (if x == j { 1int } else { 0int }) == indeg(edges@, nodone, x) by {
                                lemma_indeg_push(old_e, (s, j), nodone, x);
                                assert(edges@ == old_e.push((s, j)));
                                assert(!nodone[s as int]);
                            }
                            lemma_indeg_le_len(old_e, nodone, j as int);
                            assert(edge_present(edges@, s as int, j as int)) by {
                                assert(edges@[old_e.len() as int] == (s, j));
                            }
                            assert forall|v: int, jj: int|
                                #![trigger d.before@[jj], names[v]]
                                0 <= v < n && 0 <= jj < b + 1 && d.before@[jj]@ == names[v] implies edge_present(edges@, s as int, v) by {
                                if jj == b {
                                    assert(names[v] == names[j as int]);
                                }
                            }
                        }
                        let c = in_degree[j] + 1;
                        in_degree.set(j, c);
                    },
                    None => {
                    },
                }
                b = b + 1;
            }
            // `Requires`: this service starts after the required one.
            let mut r: usize = 0;
            while r < d.requires.len()
                invariant
                    n == names.len(),
                    n == deps.len(),
                    names == self.names(),
                    deps == self.deps(),
                    names.no_duplicates(),
                    nodone == Seq::new(n as nat, |i: int| false),
                nodone == Seq::new(n as nat, |i: int| false),
                    s < n,
                    *d == deps[s as int],
                    r <= d.requires@.len(),
                    in_degree@.len() == n,
                    edges_in_range(edges@, n as int),
                    edges_sound(names, deps, edges@),
                    forall|x: int| 0 <= x < n ==> in_degree@[x] == indeg(edges@, nodone, x),
                    forall|u: int, v: int|
                        0 <= u < n && 0 <= v < s && #[trigger] must_precede(names, deps, u, v)
                            && !str_views(deps[u].before@).contains(names[v]) ==> edge_present(edges@, u, v),
                    forall|u: int, v: int|
                        0 <= u < s && 0 <= v < n && #[trigger] str_views(deps[u].before@).contains(names[v])
                            ==> edge_present(edges@, u, v),
                    forall|u: int|
                        0 <= u < n && #[trigger] str_views(d.after@).contains(names[u]) ==> edge_present(edges@, u, s as int),
                    forall|v: int|
                        0 <= v < n && #[trigger] str_views(d.before@).contains(names[v]) ==> edge_present(edges@, s as int, v),
                    forall|u: int, j: int|
                        #![trigger d.requires@[j], names[u]]
                        0 <= u < n && 0 <= j < r && d.requires@[j]@ == names[u] ==> edge_present(edges@, u, s as int),
                decreases d.requires@.len() - r,
            {
                match Self::find(&self.services, &d.requires[r]) {
                    Some(j) => {
                        let ghost old_e = edges@;
                        edges.push((j, s));
                        let m = edges.len();
                        proof {
                            assert(names[j as int] == d.requires@[r as int]@);
                            assert(str_views(deps[s as int].requires@)[r as int] == names[j as int]);
                            self.lemma_edges_grow(old_e, (j, s), n as int);
                            assert forall|x: int| 0 <= x < n implies in_degree@[x] + (if x == s { 1int } else { 0int }) == indeg(edges@, nodone, x) by {
                                lemma_indeg_push(old_e, (j, s), nodone, x);
                                assert(edges@ == old_e.push((j, s)));
                                assert(!nodone[j as int]);
                            }
                            lemma_indeg_le_len(old_e, nodone, s as int);
                            assert(edge_present(edges@, j as int, s as int)) by {
                                assert(edges@[old_e.len() as int] == (j, s));
                            }
                            assert forall|u: int, jj: int|
                                #![trigger d.requires@[jj], names[u]]
                                0 <= u < n && 0 <= jj < r + 1 && d.requires@[jj]@ == names[u] implies edge_present(edges@, u, s as int) by {
                                if jj == r {
                                    assert(names[u] == names[j as int]);
                                }
                            }
                        }
                        let c = in_degree[s] + 1;
                        in_degree.set(s, c);
                    },
                    None => {
                    },
                }
                r = r + 1;
            }
            proof {
                assert forall|u: int, v: int|
                    0 <= u < n && 0 <= v < s + 1 && #[trigger] must_precede(names, deps, u, v)
                        && !str_views(deps[u].before@).contains(names[v]) implies edge_present(edges@, u, v) by {
                    if v == s {
                        if str_views(d.after@).contains(names[u]) {
                        } else {
                            assert(str_views(d.requires@).contains(names[u]));
                            let j = choose|j: int| 0 <= j < str_views(d.requires@).len() && str_views(d.requires@)[j] == names[u];
                            assert(d.requires@[j]@ == names[u]);
                        }
                    }
                }
                assert forall|u: int, v: int|
                    0 <= u < s + 1 && 0 <= v < n && #[trigger] str_views(deps[u].before@).contains(names[v])
                        implies edge_present(edges@, u, v) by {
                }
            }
            s = s + 1;
        }
        proof {
            assert forall|u: int, v: int|
                0 <= u < n && 0 <= v < n && #[trigger] must_precede(names, deps, u, v)
                    implies edge_present(edges@, u, v) by {
                if str_views(deps[u].before@).contains(names[v]) {
                }
            }
            assert(nodone =~= Seq::new(self.names().len(), |i: int| false));
        }
        (edges, in_degree)
    }

    /// A start-up order in which every service follows those it is declared to
    /// follow, or an error when the declarations are circular.
    pub fn compute_startup_order(&self) -> (r: Result<Vec<String>, String>)
        ensures
            r is Ok <==> has_valid_order(self.names(), self.deps()),
            r is Ok <==> !has_cycle(self.names(), self.deps()),
            r matches Ok(order) ==> exists|ord: Seq<usize>|
                is_valid_order(self.names(), self.deps(), ord) && str_views(order@) == names_at(
                    self.names(),
                    ord,
                ),
            r matches Err(e) ==> e@ == "Circular dependency detected in service definitions"@,
    {
        broadcast use vstd::string::group_string_axioms;

        proof {
            use_type_invariant(self);
        }
        let n = self.services.len();
        let (edges, in_degree) = self.build_graph();
        let order = kahn_order(n, &edges, in_degree, Ghost(self.names()), Ghost(self.deps()));
        let mut result: Vec<String> = Vec::new();
        let mut i: usize = 0;
        while i < order.len()
            invariant
                i <= order@.len(),
                order@.len() <= n,
                n == self.services@.len(),
                forall|k: int| 0 <= k < order@.len() ==> (#[trigger] order@[k]) < n,
                str_views(result@) == names_at(self.names(), order@.take(i as int)),
            decreases order@.len() - i,
        {
            let name = self.services[order[i]].0.clone();
            proof {
                assert(name@ == self.names()[order@[i as int] as int]);
            }
            let ghost old_r = result@;
            result.push(name);
            proof {
                assert(str_views(result@) =~= str_views(old_r).push(name@));
                assert(order@.take(i + 1) =~= order@.take(i as int).push(order@[i as int]));
                assert(names_at(self.names(), order@.take(i + 1)) =~= names_at(self.names(), order@.take(i as int)).push(self.names()[order@[i as int] as int]));
            }
            i = i + 1;
        }
        proof {
            assert(order@.take(i as int) =~= order@);
        }
        if result.len() != self.services.len() {
            proof {
                assert(order@.len() < n);
            }
            return Err("Circular dependency detected in service definitions".to_string());
        }
        proof {
            lemma_valid_order_no_cycle(self.names(), self.deps(), order@);
        }
        Ok(result)
    }

    /// Checks that every required service is registered; the error names the
    /// first service, in registration order, that requires an unknown one.
    pub fn validate_dependencies(&self) -> (r: Result<(), String>)
        ensures
            r is Ok <==> requirements_met(self.names(), self.deps()),
            r matches Err(e) ==> exists|s: int, k: int|
                #![trigger self.deps()[s].requires@[k]]
                0 <= s < self.names().len() && 0 <= k < self.deps()[s].requires@.len()
                    && !self.names().contains(self.deps()[s].requires@[k]@) && e@ == missing_requirement_message(
                    self.names()[s],
                    self.deps()[s].requires@[k]@,
                ),
    {
        let n = self.services.len();
        let mut s: usize = 0;
        while s < n
            invariant
                s <= n,
                n == self.names().len(),
                forall|t: int, k: int|
                    #![trigger self.deps()[t].requires@[k]]
                    0 <= t < s && 0 <= k < self.deps()[t].requires@.len()
                        ==> self.names().contains(self.deps()[t].requires@[k]@),
            decreases n - s,
        {
            let d = &self.services[s].1;
            assert(*d == self.deps()[s as int]);
            let mut k: usize = 0;
            while k < d.requires.len()
                invariant
                    s < n,
                    n == self.names().len(),
                    *d == self.deps()[s as int],
                    k <= d.requires@.len(),
                    forall|t: int, j: int|
                        #![trigger self.deps()[t].requires@[j]]
                        0 <= t < s && 0 <= j < self.deps()[t].requires@.len()
                            ==> self.names().contains(self.deps()[t].requires@[j]@),
                    forall|j: int| 0 <= j < k ==> self.names().contains(#[trigger] d.requires@[j]@),
                decreases d.requires@.len() - k,
            {
                match Self::find(&self.services, &d.requires[k]) {
                    Some(j) => {
                        proof {
                            assert(self.names()[j as int] == d.requires@[k as int]@);
                        }
                    },
                    None => {
                        let msg = missing_requirement(&self.services[s].0, &d.requires[k]);
                        proof {
                            assert(!self.names().contains(d.requires@[k as int]@)) by {
                                if self.names().contains(d.requires@[k as int]@) {
                                    let i = choose|i: int| 0 <= i < self.names().len() && self.names()[i] == d.requires@[k as int]@;
                                    assert(self.services@[i].0@ == d.requires@[k as int]@);
                                }
                            }
                            assert(self.deps()[s as int].requires@[k as int] == d.requires@[k as int]);
                        }
                        return Err(msg);
                    },
                }
                k = k + 1;
            }
            s = s + 1;
        }
        Ok(())
    }

    proof fn lemma_edges_grow(self, old_e: Seq<(usize, usize)>, e: (usize, usize), n: int)
        ensures
            forall|u: int, v: int| edge_present(old_e, u, v) ==> #[trigger] edge_present(old_e.push(e), u, v),
    {
        assert forall|u: int, v: int| edge_present(old_e, u, v) implies #[trigger] edge_present(old_e.push(e), u, v) by {
            let k = choose|k: int| 0 <= k < old_e.len() && old_e[k].0 as int == u && old_e[k].1 as int == v;
            assert(old_e.push(e)[k] == old_e[k]);
        }
    }
}

} // verus!
