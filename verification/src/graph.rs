//! The weighted travel graph over the generated towns.
//!
//! The builder draws one distance per unordered town pair, sorts the pairs
//! ascending by distance (stable, so ties keep enumeration order), runs a
//! disjoint-set scan over them to lay down a minimum-weight spanning
//! structure — which makes the graph connected with exactly one edge less
//! than there are towns — and then adds the rejected pairs, still in sorted
//! order, until the configured connection budget is reached.
use vstd::prelude::*;

use crate::config::GenConfig;
use crate::connectivity::{
    connected, edge_links, has_edge, lemma_connected_mono_edges, lemma_connected_refl,
    lemma_connected_sym, lemma_connected_trans, lemma_edge_connected, lemma_reaches_push,
};
use crate::entities::{Edge, JourneyInfo, Town, TownM};
use crate::rng::{spec_draw_distance, stdrng_state};

verus! {

/// A candidate connection: two vertex positions and a drawn distance.
pub type Pair = (usize, usize, u32);

/// The travel graph: the towns in vertex order, and the undirected weighted
/// edges between vertex positions.
#[derive(Debug, PartialEq)]
pub struct TownGraph {
    pub towns: Vec<Town>,
    pub edges: Vec<Edge>,
}

/// Model of a `TownGraph`.
pub ghost struct TownGraphM {
    pub towns: Seq<TownM>,
    pub edges: Seq<Edge>,
}

impl DeepView for TownGraph {
    type V = TownGraphM;

    open spec fn deep_view(&self) -> TownGraphM {
        TownGraphM { towns: self.towns.deep_view(), edges: self.edges@ }
    }
}

impl View for TownGraph {
    type V = TownGraphM;

    open spec fn view(&self) -> TownGraphM {
        self.deep_view()
    }
}

impl TownGraphM {
    /// Structural soundness: every edge joins two distinct existing vertices.
    pub open spec fn wf(self) -> bool {
        forall|k: int|
            0 <= k < self.edges.len() ==> (#[trigger] self.edges[k]).source < self.towns.len()
                && self.edges[k].target < self.towns.len() && self.edges[k].source
                != self.edges[k].target
    }

    /// One connected component spanning every town.
    pub open spec fn is_connected(self) -> bool {
        forall|i: usize, j: usize|
            i < self.towns.len() && j < self.towns.len() ==> connected(self.edges, i, j)
    }
}

/// Every edge carries `cost == distance * cost_multiplier`, exactly.
pub open spec fn edge_costs_ok(es: Seq<Edge>, cost_multiplier: u32) -> bool {
    forall|k: int|
        0 <= k < es.len() ==> (#[trigger] es[k]).info.cost == es[k].info.distance
            * cost_multiplier
}

/// Distance draws for the pairs `(i, i+1) .. (i, n-1)`, appended to `acc`.
pub open spec fn spec_pairs_inner(
    cfg: GenConfig,
    n: usize,
    i: usize,
    j: usize,
    st: int,
    acc: Seq<Pair>,
) -> (Seq<Pair>, int)
    decreases n - j,
    when j <= n
{
    if j >= n {
        (acc, st)
    } else {
        let (s2, d) = spec_draw_distance(st, cfg.min_distance, cfg.max_distance);
        spec_pairs_inner(cfg, n, i, (j + 1) as usize, s2, acc.push((i, j, d)))
    }
}

/// Distance draws for every unordered pair with first component `>= i`, in
/// enumeration order, appended to `acc`.
pub open spec fn spec_pairs_outer(cfg: GenConfig, n: usize, i: usize, st: int, acc: Seq<Pair>) -> (
    Seq<Pair>,
    int,
)
    decreases n - i,
    when i <= n
{
    if i >= n {
        (acc, st)
    } else {
        let (acc2, s2) = spec_pairs_inner(cfg, n, i, (i + 1) as usize, st, acc);
        spec_pairs_outer(cfg, n, (i + 1) as usize, s2, acc2)
    }
}

/// One distance draw per unordered town pair, in enumeration order.
pub open spec fn spec_pair_distances(cfg: GenConfig, n: usize, st: int) -> (Seq<Pair>, int) {
    spec_pairs_outer(cfg, n, 0, st, Seq::empty())
}

/// Insert a candidate pair into a distance-sorted list, after every pair of
/// equal or smaller distance — a stable insertion.
pub open spec fn spec_insert_pair(x: Pair, s: Seq<Pair>) -> Seq<Pair>
    decreases s.len(),
{
    if s.len() == 0 {
        seq![x]
    } else if x.2 < s[0].2 {
        seq![x] + s
    } else {
        seq![s[0]] + spec_insert_pair(x, s.drop_first())
    }
}

/// Stable insertion sort of the candidate pairs, ascending by distance.
pub open spec fn spec_sort_rec(acc: Seq<Pair>, s: Seq<Pair>, i: int) -> Seq<Pair>
    decreases s.len() - i,
    when 0 <= i <= s.len()
{
    if i >= s.len() {
        acc
    } else {
        spec_sort_rec(spec_insert_pair(s[i], acc), s, i + 1)
    }
}

/// The candidate pairs sorted ascending by distance, ties keeping their
/// enumeration order.
pub open spec fn spec_sort_pairs(s: Seq<Pair>) -> Seq<Pair> {
    spec_sort_rec(Seq::empty(), s, 0)
}

/// Whether the pair `(a, b)` occurs among the candidates.
pub open spec fn pair_covered(pairs: Seq<Pair>, a: usize, b: usize) -> bool {
    exists|k: int| 0 <= k < pairs.len() && (#[trigger] pairs[k]).0 == a && pairs[k].1 == b
}

/// Ascending by distance.
pub open spec fn sorted_by_distance(s: Seq<Pair>) -> bool {
    forall|a: int, b: int| 0 <= a <= b < s.len() ==> (#[trigger] s[a]).2 <= (#[trigger] s[b]).2
}

/// What a stable insertion does, elementwise: the result is the input split
/// at the first strictly greater distance, with `x` in between.
pub proof fn lemma_insert_pair_split(x: Pair, s: Seq<Pair>, p: int)
    requires
        0 <= p <= s.len(),
        forall|q: int| 0 <= q < p ==> (#[trigger] s[q]).2 <= x.2,
        p < s.len() ==> x.2 < s[p].2,
    ensures
        spec_insert_pair(x, s) == s.take(p) + seq![x] + s.skip(p),
    decreases s.len(),
{
    if s.len() == 0 {
        assert(spec_insert_pair(x, s) =~= s.take(p) + seq![x] + s.skip(p));
    } else if x.2 < s[0].2 {
        assert(p == 0);
        assert(s.take(0) =~= Seq::<Pair>::empty());
        assert(s.skip(0) =~= s);
        assert(spec_insert_pair(x, s) =~= s.take(p) + seq![x] + s.skip(p));
    } else {
        assert(p >= 1);
        lemma_insert_pair_split(x, s.drop_first(), p - 1);
        assert(s.drop_first().take(p - 1) =~= s.take(p).drop_first());
        assert(s.drop_first().skip(p - 1) =~= s.skip(p));
        assert(spec_insert_pair(x, s) =~= s.take(p) + seq![x] + s.skip(p));
    }
}

/// Insert one candidate pair into a distance-sorted vector, keeping it
/// sorted and stable.
pub fn insert_pair(v: &Vec<Pair>, x: Pair) -> (r: Vec<Pair>)
    ensures
        r@ == spec_insert_pair(x, v@),
        r@.len() == v@.len() + 1,
        forall|y: Pair| r@.contains(y) <==> v@.contains(y) || y == x,
        sorted_by_distance(v@) ==> sorted_by_distance(r@),
{
    let mut p: usize = 0;
    while p < v.len() && v[p].2 <= x.2
        invariant
            p <= v@.len(),
            forall|q: int| 0 <= q < p ==> (#[trigger] v@[q]).2 <= x.2,
        decreases v@.len() - p,
    {
        p = p + 1;
    }
    let mut r: Vec<Pair> = Vec::new();
    let mut k: usize = 0;
    while k < p
        invariant
            p <= v@.len(),
            k <= p,
            r@ == v@.take(k as int),
        decreases p - k,
    {
        r.push(v[k]);
        proof {
            assert(v@.take(k + 1) =~= v@.take(k as int).push(v@[k as int]));
        }
        k = k + 1;
    }
    r.push(x);
    let mut k2: usize = p;
    while k2 < v.len()
        invariant
            p <= k2 <= v@.len(),
            r@ == v@.take(p as int) + seq![x] + v@.subrange(p as int, k2 as int),
        decreases v@.len() - k2,
    {
        r.push(v[k2]);
        proof {
            assert(v@.subrange(p as int, k2 + 1) =~= v@.subrange(p as int, k2 as int).push(
                v@[k2 as int],
            ));
            assert((v@.take(p as int) + seq![x] + v@.subrange(p as int, k2 as int)).push(
                v@[k2 as int],
            ) =~= v@.take(p as int) + seq![x] + v@.subrange(p as int, k2 + 1));
        }
        k2 = k2 + 1;
    }
    proof {
        assert(r@ == v@.take(p as int) + seq![x] + v@.skip(p as int)) by {
            assert(v@.subrange(p as int, v@.len() as int) =~= v@.skip(p as int));
            if p == v@.len() {
                assert(r@ =~= v@.take(p as int) + seq![x] + v@.skip(p as int));
            }
        }
        lemma_insert_pair_split(x, v@, p as int);
        // contents: everything of `v` plus `x`
        assert forall|y: Pair| r@.contains(y) <==> v@.contains(y) || y == x by {
            if r@.contains(y) {
                let k = choose|k: int| 0 <= k < r@.len() && r@[k] == y;
                if k < p {
                    assert(v@[k] == y);
                } else if k > p {
                    assert(v@[k - 1] == y);
                }
            }
            if v@.contains(y) {
                let k = choose|k: int| 0 <= k < v@.len() && v@[k] == y;
                if k < p {
                    assert(r@[k] == y);
                } else {
                    assert(r@[k + 1] == y);
                }
            }
            if y == x {
                assert(r@[p as int] == y);
            }
        }
    }
    r
}

/// Sort the candidate pairs ascending by drawn distance; the sort is stable
/// and keeps exactly the same pairs.
pub fn sort_pairs(pairs: &Vec<Pair>) -> (r: Vec<Pair>)
    ensures
        r@ == spec_sort_pairs(pairs@),
        r@.len() == pairs@.len(),
        forall|y: Pair| r@.contains(y) <==> pairs@.contains(y),
        sorted_by_distance(r@),
{
    let mut out: Vec<Pair> = Vec::new();
    let mut i: usize = 0;
    proof {
        assert(out@ =~= Seq::<Pair>::empty());
    }
    while i < pairs.len()
        invariant
            i <= pairs@.len(),
            spec_sort_pairs(pairs@) == spec_sort_rec(out@, pairs@, i as int),
            out@.len() == i,
            forall|y: Pair| out@.contains(y) <==> pairs@.take(i as int).contains(y),
            sorted_by_distance(out@),
        decreases pairs@.len() - i,
    {
        let ghost out_before = out@;
        out = insert_pair(&out, pairs[i]);
        i = i + 1;
        proof {
            assert forall|y: Pair| out@.contains(y) <==> pairs@.take(i as int).contains(y) by {
                assert(pairs@.take(i as int) =~= pairs@.take(i - 1).push(pairs@[i - 1]));
                if pairs@.take(i as int).contains(y) {
                    let k = choose|k: int|
                        0 <= k < pairs@.take(i as int).len() && pairs@.take(i as int)[k] == y;
                    if k < i - 1 {
                        assert(pairs@.take(i - 1)[k] == y);
                    }
                }
                if pairs@.take(i - 1).contains(y) {
                    let k = choose|k: int|
                        0 <= k < pairs@.take(i - 1).len() && #[trigger] pairs@.take(i - 1)[k] == y;
                    assert(pairs@.take(i as int)[k] == y);
                }
                if y == pairs@[i - 1] {
                    assert(pairs@.take(i as int)[i - 1] == y);
                }
            }
        }
    }
    proof {
        assert(pairs@.take(pairs@.len() as int) =~= pairs@);
    }
    out
}

/// The disjoint-set scan over the sorted pairs: pairs joining two different
/// components become edges and merge the components (by relabelling), pairs
/// inside one component are set aside in order.
pub open spec fn spec_span_rec(
    pairs: Seq<Pair>,
    i: int,
    comp: Seq<usize>,
    edges: Seq<Edge>,
    leftover: Seq<Pair>,
    cost_multiplier: u32,
) -> (Seq<usize>, Seq<Edge>, Seq<Pair>)
    decreases pairs.len() - i,
    when 0 <= i <= pairs.len()
{
    if i >= pairs.len() {
        (comp, edges, leftover)
    } else {
        let (a, b, d) = pairs[i];
        if a < comp.len() && b < comp.len() && comp[a as int] != comp[b as int] {
            let ca = comp[a as int];
            let cb = comp[b as int];
            let comp2 = Seq::new(comp.len(), |q: int| if comp[q] == cb { ca } else { comp[q] });
            let e = Edge {
                source: a,
                target: b,
                info: JourneyInfo { distance: d, cost: (d * cost_multiplier) as u32 },
            };
            spec_span_rec(pairs, i + 1, comp2, edges.push(e), leftover, cost_multiplier)
        } else {
            spec_span_rec(pairs, i + 1, comp, edges, leftover.push(pairs[i]), cost_multiplier)
        }
    }
}

/// The budget phase: append the set-aside pairs, in sorted order, until the
/// edge count reaches `target` or the pairs run out.
pub open spec fn spec_extra_rec(
    leftover: Seq<Pair>,
    i: int,
    edges: Seq<Edge>,
    target: int,
    cost_multiplier: u32,
) -> Seq<Edge>
    decreases leftover.len() - i,
    when 0 <= i <= leftover.len()
{
    if i >= leftover.len() || edges.len() >= target {
        edges
    } else {
        let (a, b, d) = leftover[i];
        let e = Edge {
            source: a,
            target: b,
            info: JourneyInfo { distance: d, cost: (d * cost_multiplier) as u32 },
        };
        spec_extra_rec(leftover, i + 1, edges.push(e), target, cost_multiplier)
    }
}

/// The identity component labelling.
pub open spec fn spec_comp_init(n: usize) -> Seq<usize> {
    Seq::new(n as nat, |q: int| q as usize)
}

/// The whole edge construction: distance draws, stable sort, spanning scan,
/// budget phase.  Returns the edges and the random state left behind.
pub open spec fn spec_gen_graph_edges(cfg: GenConfig, n: usize, st: int) -> (Seq<Edge>, int) {
    let (pairs, s2) = spec_pair_distances(cfg, n, st);
    let sorted = spec_sort_pairs(pairs);
    let (comp, span, leftover) = spec_span_rec(
        sorted,
        0,
        spec_comp_init(n),
        Seq::empty(),
        Seq::empty(),
        cfg.cost,
    );
    (spec_extra_rec(leftover, 0, span, cfg.num_of_connections as int, cfg.cost), s2)
}

/// How many edges the construction yields: the spanning structure's
/// `n - 1`, plus set-aside pairs up to the configured connection budget,
/// bounded by the number of distinct pairs.
pub open spec fn expected_edge_count(cfg: GenConfig, n: int) -> int {
    if n == 0 {
        0
    } else {
        let total = n * (n - 1) / 2;
        let span = n - 1;
        if cfg.num_of_connections <= span {
            span
        } else if cfg.num_of_connections as int <= total {
            cfg.num_of_connections as int
        } else {
            total
        }
    }
}

/// Build the travel graph over the given towns: a connected spanning
/// structure first, then extra routes up to the configured budget.  The town
/// list keeps its order as the graph's vertex order.
#[verifier::loop_isolation(false)]
#[verifier::rlimit(60)]
pub fn generate_graph(settings: &GenConfig, rng: &mut rand::rngs::StdRng, towns: Vec<Town>) -> (g:
    TownGraph)
    requires
        settings.cost_mul_ok(),
    ensures
        g@.towns == towns.deep_view(),
        (g@.edges, stdrng_state(*final(rng))) == spec_gen_graph_edges(
            *settings,
            towns@.len() as usize,
            stdrng_state(*old(rng)),
        ),
        g@.wf(),
        g@.is_connected(),
        edge_costs_ok(g@.edges, settings.cost),
        g@.edges.len() == expected_edge_count(*settings, towns@.len() as int),
{
    let n = towns.len();
    let ghost st0 = stdrng_state(*rng);
    // one distance draw per unordered pair, in enumeration order
    let mut pairs: Vec<Pair> = Vec::new();
    let mut i: usize = 0;
    proof {
        assert(pairs@ =~= Seq::<Pair>::empty());
    }
    while i < n
        invariant
            i <= n,
            spec_pair_distances(*settings, n, st0) == spec_pairs_outer(
                *settings,
                n,
                i,
                stdrng_state(*rng),
                pairs@,
            ),
            forall|k: int|
                0 <= k < pairs@.len() ==> (#[trigger] pairs@[k]).0 < pairs@[k].1 && pairs@[k].1 < n
                    && pairs@[k].2 <= settings.dist_bound(),
            forall|a: usize, b: usize| a < b < n && a < i ==> #[trigger] pair_covered(pairs@, a, b),
            2 * pairs@.len() == i * (2 * n - i - 1),
        decreases n - i,
    {
        let mut j: usize = i + 1;
        while j < n
            invariant
                i < n,
                i + 1 <= j <= n,
                spec_pair_distances(*settings, n, st0) == (
                {
                    let (acc2, s2) = spec_pairs_inner(
                        *settings,
                        n,
                        i,
                        j,
                        stdrng_state(*rng),
                        pairs@,
                    );
                    spec_pairs_outer(*settings, n, (i + 1) as usize, s2, acc2)
                }),
                forall|k: int|
                    0 <= k < pairs@.len() ==> (#[trigger] pairs@[k]).0 < pairs@[k].1 && pairs@[k].1
                        < n && pairs@[k].2 <= settings.dist_bound(),
                forall|a: usize, b: usize|
                    a < b < n && (a < i || (a == i && b < j)) ==> #[trigger] pair_covered(
                        pairs@,
                        a,
                        b,
                    ),
                2 * pairs@.len() == i * (2 * n - i - 1) + 2 * (j - i - 1),
            decreases n - j,
        {
            let d = crate::rng::draw_distance(rng, settings.min_distance, settings.max_distance);
            let ghost pairs_before = pairs@;
            pairs.push((i, j, d));
            j = j + 1;
            proof {
                assert forall|a: usize, b: usize|
                    a < b < n && (a < i || (a == i && b < j)) implies #[trigger] pair_covered(
                    pairs@,
                    a,
                    b,
                ) by {
                    let ghost prev = pairs_before;
                    if a == i && b == j - 1 {
                        assert(pairs@[pairs@.len() - 1].0 == a && pairs@[pairs@.len() - 1].1 == b);
                    } else {
                        assert(pair_covered(prev, a, b));
                        let k = choose|k: int|
                            0 <= k < prev.len() && (#[trigger] prev[k]).0 == a && prev[k].1 == b;
                        assert(pairs@[k].0 == a && pairs@[k].1 == b);
                    }
                }
            }
        }
        i = i + 1;
        proof {
            assert(i * (2 * n - i - 1) == (i - 1) * (2 * n - (i - 1) - 1) + 2 * (n - (i - 1) - 1))
                by (nonlinear_arith);
        }
    }
    proof {
        assert(2 * pairs@.len() == n * (n - 1)) by (nonlinear_arith)
            requires
                2 * pairs@.len() == n * (2 * n - n - 1),
        ;
    }
    let sorted = sort_pairs(&pairs);
    proof {
        // every sorted pair is a drawn pair, and every pair occurs sorted
        assert forall|k: int|
            0 <= k < sorted@.len() implies (#[trigger] sorted@[k]).0 < sorted@[k].1 && sorted@[k].1
            < n && sorted@[k].2 <= settings.dist_bound() by {
            let y = sorted@[k];
            assert(sorted@.contains(y));
            assert(pairs@.contains(y));
            let k2 = choose|k2: int| 0 <= k2 < pairs@.len() && pairs@[k2] == y;
        }
    }
    // the spanning scan over the sorted pairs
    let mut comp: Vec<usize> = Vec::new();
    let mut q0: usize = 0;
    while q0 < n
        invariant
            q0 <= n,
            comp@.len() == q0,
            forall|t: int| 0 <= t < q0 ==> comp@[t] == t as usize,
        decreases n - q0,
    {
        comp.push(q0);
        q0 = q0 + 1;
    }
    proof {
        assert(comp@ =~= spec_comp_init(n));
    }
    let mut edges: Vec<Edge> = Vec::new();
    let mut leftover: Vec<Pair> = Vec::new();
    let mut idx: usize = 0;
    let ghost span_target = spec_span_rec(
        sorted@,
        0,
        spec_comp_init(n),
        Seq::empty(),
        Seq::empty(),
        settings.cost,
    );
    proof {
        assert(edges@ =~= Seq::<Edge>::empty());
        assert(leftover@ =~= Seq::<Pair>::empty());
        broadcast use vstd::seq_lib::seq_to_set_is_finite;
        broadcast use vstd::set::group_set_axioms;

        assert forall|x: usize, y: usize| x < n && y < n implies (comp@[x as int] == comp@[
            y as int
        ] <==> connected(edges@, x, y)) by {
            if x == y {
                lemma_connected_refl(edges@, x);
            }
            if connected(edges@, x, y) {
                let nn = choose|nn: nat| crate::connectivity::reaches(edges@, x, y, nn);
                lemma_reaches_empty(edges@, x, y, nn);
            }
        }
        lemma_comp_init_set(n);
    }
    while idx < sorted.len()
        invariant
            idx <= sorted@.len(),
            comp@.len() == n,
            span_target == spec_span_rec(
                sorted@,
                idx as int,
                comp@,
                edges@,
                leftover@,
                settings.cost,
            ),
            forall|x: usize, y: usize|
                x < n && y < n ==> (comp@[x as int] == comp@[y as int] <==> connected(
                    edges@,
                    x,
                    y,
                )),
            forall|k: int|
                0 <= k < idx ==> comp@[(#[trigger] sorted@[k]).0 as int] == comp@[sorted@[k].1
                    as int],
            forall|k: int|
                0 <= k < edges@.len() ==> (#[trigger] edges@[k]).source < edges@[k].target
                    && edges@[k].target < n,
            edge_costs_ok(edges@, settings.cost),
            comp@.to_set().finite(),
            comp@.to_set().len() + edges@.len() == n,
            edges@.len() + leftover@.len() == idx,
            forall|k: int|
                0 <= k < leftover@.len() ==> (#[trigger] leftover@[k]).0 < leftover@[k].1
                    && leftover@[k].1 < n && leftover@[k].2 <= settings.dist_bound(),
        decreases sorted@.len() - idx,
    {
        let (a, b, d) = (sorted[idx].0, sorted[idx].1, sorted[idx].2);
        let ca = comp[a];
        let cb = comp[b];
        if ca != cb {
            proof {
                assert((d as int) * (settings.cost as int) <= settings.dist_bound()
                    * settings.cost) by (nonlinear_arith)
                    requires
                        0 <= d as int <= settings.dist_bound(),
                        settings.cost >= 0,
                ;
            }
            let cost = d * settings.cost;
            let e = Edge { source: a, target: b, info: JourneyInfo { distance: d, cost } };
            let ghost comp_before = comp@;
            let ghost edges_before = edges@;
            let mut q: usize = 0;
            while q < n
                invariant
                    q <= n,
                    comp@.len() == n,
                    forall|t: int|
                        0 <= t < q ==> comp@[t] == (if comp_before[t] == cb {
                            ca
                        } else {
                            comp_before[t]
                        }),
                    forall|t: int| q <= t < n ==> comp@[t] == comp_before[t],
                decreases n - q,
            {
                if comp[q] == cb {
                    comp[q] = ca;
                }
                q = q + 1;
            }
            edges.push(e);
            idx = idx + 1;
            proof {
                let comp2 = Seq::new(
                    comp_before.len(),
                    |t: int| if comp_before[t] == cb { ca } else { comp_before[t] },
                );
                assert(comp@ =~= comp2);
                assert(edges@ =~= edges_before.push(e));
                lemma_union_step(
                    edges_before,
                    e,
                    comp_before,
                    comp@,
                    n,
                    a,
                    b,
                    ca,
                    cb,
                );
                // the merged class label disappears from the label set
                assert(comp@.to_set() =~= comp_before.to_set().remove(cb)) by {
                    assert(comp_before[b as int] == cb);
                    assert(comp_before.contains(cb));
                    assert(comp_before[a as int] == ca);
                    assert forall|v: usize| #[trigger]
                        comp@.to_set().contains(v) implies comp_before.to_set().remove(
                        cb,
                    ).contains(v) by {
                        let t = choose|t: int| 0 <= t < comp@.len() && comp@[t] == v;
                        assert(comp_before.contains(comp_before[t]));
                        if comp_before[t] == cb {
                            assert(comp_before.contains(ca));
                        }
                    }
                    assert forall|v: usize| #[trigger]
                        comp_before.to_set().remove(cb).contains(v) implies comp@.to_set()
                        .contains(v) by {
                        let t = choose|t: int|
                            0 <= t < comp_before.len() && comp_before[t] == v;
                        assert(comp@[t] == v);
                        assert(comp@.contains(v));
                    }
                }
                broadcast use vstd::set::group_set_axioms;

                assert(comp_before.to_set().contains(cb)) by {
                    assert(comp_before[b as int] == cb);
                    assert(comp_before.contains(cb));
                }
                vstd::set::axiom_set_remove_len(comp_before.to_set(), cb);
            }
        } else {
            leftover.push(sorted[idx]);
            idx = idx + 1;
            proof {
                assert(leftover@ =~= leftover@.drop_last().push(sorted@[idx - 1]));
            }
        }
    }
    let ghost span_edges = edges@;
    // after scanning every pair, all towns share one component
    proof {
        if n > 0 {
            assert forall|x: usize| x < n implies #[trigger] comp@[x as int] == comp@[0] by {
                if x != 0 {
                    assert(pair_covered(pairs@, 0, x));
                    let k = choose|k: int|
                        0 <= k < pairs@.len() && (#[trigger] pairs@[k]).0 == 0usize && pairs@[k].1
                            == x;
                    let y0 = pairs@[k];
                    assert(pairs@.contains(y0));
                    assert(sorted@.contains(y0));
                    let k2 = choose|k2: int| 0 <= k2 < sorted@.len() && sorted@[k2] == y0;
                    assert(comp@[sorted@[k2].0 as int] == comp@[sorted@[k2].1 as int]);
                }
            }
            assert(comp@.to_set() =~= Set::<usize>::empty().insert(comp@[0])) by {
                assert forall|v: usize| #[trigger] comp@.to_set().contains(v) implies v == comp@[0]
                    by {
                    let t = choose|t: int| 0 <= t < comp@.len() && comp@[t] == v;
                    assert(comp@[t] == comp@[0]);
                }
                assert(comp@.contains(comp@[0]));
            }
            broadcast use vstd::set::group_set_axioms;

            assert(comp@.to_set().len() == 1);
            assert(span_edges.len() == n - 1);
        }
        assert forall|x: usize, y: usize| x < n && y < n implies connected(span_edges, x, y) by {
            assert(comp@[x as int] == comp@[y as int]);
        }
    }
    // extra travel routes, up to the configured budget
    let target = settings.num_of_connections;
    let mut idx2: usize = 0;
    let ghost extra_target = spec_extra_rec(
        leftover@,
        0,
        span_edges,
        settings.num_of_connections as int,
        settings.cost,
    );
    while idx2 < leftover.len() && (edges.len() as u64) < (target as u64)
        invariant
            idx2 <= leftover@.len(),
            edges@.len() == span_edges.len() + idx2,
            extra_target == spec_extra_rec(
                leftover@,
                idx2 as int,
                edges@,
                settings.num_of_connections as int,
                settings.cost,
            ),
            forall|k: int|
                0 <= k < edges@.len() ==> (#[trigger] edges@[k]).source < edges@[k].target
                    && edges@[k].target < n,
            edge_costs_ok(edges@, settings.cost),
            forall|k: int| 0 <= k < span_edges.len() ==> edges@[k] == span_edges[k],
            target > span_edges.len() ==> edges@.len() <= target,
            target <= span_edges.len() ==> idx2 == 0,
        decreases leftover@.len() - idx2,
    {
        let (a, b, d) = (leftover[idx2].0, leftover[idx2].1, leftover[idx2].2);
        proof {
            assert((d as int) * (settings.cost as int) <= settings.dist_bound() * settings.cost)
                by (nonlinear_arith)
                requires
                    0 <= d as int <= settings.dist_bound(),
                    settings.cost >= 0,
            ;
        }
        let cost = d * settings.cost;
        edges.push(Edge { source: a, target: b, info: JourneyInfo { distance: d, cost } });
        idx2 = idx2 + 1;
    }
    proof {
        // connectivity is preserved when edges are appended
        assert forall|x: usize, y: usize| x < n && y < n implies connected(edges@, x, y) by {
            lemma_connected_mono_edges(span_edges, edges@, x, y);
        }
    }
    let g = TownGraph { towns, edges };
    proof {
        lemma_count_formula(
            *settings,
            n as int,
            span_edges.len() as int,
            leftover@.len() as int,
            g@.edges.len() as int,
            idx2 as int,
        );
    }
    g
}

/// With no edges at all, only a vertex reaches itself.
pub proof fn lemma_reaches_empty(es: Seq<Edge>, x: usize, y: usize, n: nat)
    requires
        es.len() == 0,
        crate::connectivity::reaches(es, x, y, n),
    ensures
        x == y,
    decreases n,
{
    if n > 0 {
        if crate::connectivity::reaches(es, x, y, (n - 1) as nat) {
            lemma_reaches_empty(es, x, y, (n - 1) as nat);
        } else {
            let m = choose|m: usize|
                crate::connectivity::reaches(es, x, m, (n - 1) as nat) && has_edge(es, m, y);
        }
    }
}

/// The identity labelling has as many labels as vertices.
pub proof fn lemma_comp_init_set(n: usize)
    ensures
        spec_comp_init(n).to_set().finite(),
        spec_comp_init(n).to_set().len() == n,
    decreases n,
{
    broadcast use vstd::seq_lib::seq_to_set_is_finite;
    broadcast use vstd::set::group_set_axioms;

    if n == 0 {
        assert(spec_comp_init(0).to_set() =~= Set::<usize>::empty());
    } else {
        lemma_comp_init_set((n - 1) as usize);
        let prev = spec_comp_init((n - 1) as usize);
        let cur = spec_comp_init(n);
        assert(cur.to_set() =~= prev.to_set().insert((n - 1) as usize)) by {
            assert forall|v: usize| #[trigger] cur.to_set().contains(v) implies prev.to_set()
                .insert((n - 1) as usize).contains(v) by {
                let t = choose|t: int| 0 <= t < cur.len() && cur[t] == v;
                if t < n - 1 {
                    assert(prev[t] == v);
                    assert(prev.contains(v));
                }
            }
            assert forall|v: usize|
                prev.to_set().insert((n - 1) as usize).contains(v) implies #[trigger] cur.to_set()
                .contains(v) by {
                if prev.to_set().contains(v) {
                    let t = choose|t: int| 0 <= t < prev.len() && prev[t] == v;
                    assert(cur[t] == v);
                    assert(cur.contains(v));
                } else {
                    assert(cur[n - 1] == v);
                    assert(cur.contains(v));
                }
            }
        }
        assert(!prev.to_set().contains((n - 1) as usize)) by {
            if prev.to_set().contains((n - 1) as usize) {
                let t = choose|t: int| 0 <= t < prev.len() && prev[t] == (n - 1) as usize;
            }
        }
    }
}

/// One union step keeps the labelling synchronised with connectivity: after
/// adding the edge and merging the two labels, two vertices carry one label
/// exactly when the new edge list connects them.
pub proof fn lemma_union_step(
    es: Seq<Edge>,
    e: Edge,
    comp: Seq<usize>,
    comp2: Seq<usize>,
    n: usize,
    a: usize,
    b: usize,
    ca: usize,
    cb: usize,
)
    requires
        comp.len() == n,
        comp2.len() == n,
        a < n,
        b < n,
        e.source == a,
        e.target == b,
        ca == comp[a as int],
        cb == comp[b as int],
        ca != cb,
        forall|t: int|
            0 <= t < n ==> comp2[t] == (if comp[t] == cb {
                ca
            } else {
                comp[t]
            }),
        forall|x: usize, y: usize|
            x < n && y < n ==> (comp[x as int] == comp[y as int] <==> connected(es, x, y)),
    ensures
        forall|x: usize, y: usize|
            x < n && y < n ==> (comp2[x as int] == comp2[y as int] <==> connected(
                es.push(e),
                x,
                y,
            )),
{
    let es2 = es.push(e);
    assert(edge_links(es2[es2.len() - 1], a, b));
    assert(has_edge(es2, a, b));
    assert forall|x: usize, y: usize| x < n && y < n implies (comp2[x as int] == comp2[y as int]
        <==> connected(es2, x, y)) by {
        // labels equal implies connected over the extended edges
        if comp2[x as int] == comp2[y as int] {
            if comp[x as int] == comp[y as int] {
                lemma_connected_mono_edges(es, es2, x, y);
            } else if comp[x as int] == cb {
                // x was relabelled, y was not: y sits in a's class
                assert(comp2[x as int] == ca);
                assert(comp[y as int] == ca);
                assert(connected(es, x, b));
                assert(connected(es, y, a));
                lemma_connected_mono_edges(es, es2, x, b);
                lemma_connected_mono_edges(es, es2, y, a);
                lemma_edge_connected(es2, a, b);
                lemma_connected_sym(es2, a, b);
                lemma_connected_trans(es2, x, b, a);
                lemma_connected_sym(es2, y, a);
                lemma_connected_trans(es2, x, a, y);
            } else {
                // y was relabelled, x was not
                assert(comp[y as int] == cb);
                assert(comp[x as int] == ca);
                assert(connected(es, y, b));
                assert(connected(es, x, a));
                lemma_connected_mono_edges(es, es2, y, b);
                lemma_connected_mono_edges(es, es2, x, a);
                lemma_edge_connected(es2, a, b);
                lemma_connected_trans(es2, x, a, b);
                lemma_connected_sym(es2, y, b);
                lemma_connected_trans(es2, x, b, y);
            }
        }
        // connected over the extended edges implies labels equal
        if connected(es2, x, y) {
            let nn = choose|nn: nat| crate::connectivity::reaches(es2, x, y, nn);
            lemma_reaches_push(es, e, x, y, nn);
            if connected(es, x, y) {
                assert(comp[x as int] == comp[y as int]);
            } else if connected(es, x, a) && connected(es, b, y) {
                assert(comp[x as int] == comp[a as int]);
                lemma_connected_sym(es, b, y);
                assert(comp[y as int] == comp[b as int]);
            } else {
                assert(connected(es, x, b) && connected(es, a, y));
                assert(comp[x as int] == comp[b as int]);
                lemma_connected_sym(es, a, y);
                assert(comp[y as int] == comp[a as int]);
            }
        }
    }
}

/// Arithmetic of the final edge count.
pub proof fn lemma_count_formula(
    cfg: GenConfig,
    n: int,
    span: int,
    leftover: int,
    total_edges: int,
    used: int,
)
    requires
        n >= 0,
        n == 0 ==> span == 0 && leftover == 0,
        n > 0 ==> span == n - 1,
        2 * (span + leftover) == n * (n - 1),
        total_edges == span + used,
        0 <= used <= leftover,
        used < leftover ==> total_edges >= cfg.num_of_connections as int,
        cfg.num_of_connections as int > span ==> total_edges <= cfg.num_of_connections as int,
        cfg.num_of_connections as int <= span ==> used == 0,
        used > 0 ==> total_edges <= cfg.num_of_connections as int,
    ensures
        total_edges == expected_edge_count(cfg, n),
{
    if n == 0 {
    } else {
        let total = n * (n - 1) / 2;
        assert(span + leftover == total);
        if cfg.num_of_connections as int <= span {
        } else if cfg.num_of_connections as int <= total {
            if used == leftover {
                assert(total_edges == total);
                assert(total_edges >= cfg.num_of_connections as int || used < leftover);
            }
        } else {
            assert(used == leftover);
        }
    }
}

} // verus!
