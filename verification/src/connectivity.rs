//! Graph connectivity over an undirected edge list.
//!
//! `connected` is reachability by a finite walk over the edges, ignoring
//! direction.  The lemmas here are exactly what the spanning-structure
//! construction needs: reflexivity, symmetry, transitivity, monotonicity in
//! the edge list, and a case split for walks that use a freshly added edge.
use vstd::prelude::*;

use crate::entities::Edge;

verus! {

/// Whether edge `e` joins `x` and `y`, in either direction.
pub open spec fn edge_links(e: Edge, x: usize, y: usize) -> bool {
    (e.source == x && e.target == y) || (e.source == y && e.target == x)
}

/// Whether some edge of `es` joins `x` and `y`.
pub open spec fn has_edge(es: Seq<Edge>, x: usize, y: usize) -> bool {
    exists|k: int| 0 <= k < es.len() && edge_links(#[trigger] es[k], x, y)
}

/// Whether a walk of at most `n` edges leads from `x` to `y`.
pub open spec fn reaches(es: Seq<Edge>, x: usize, y: usize, n: nat) -> bool
    decreases n,
{
    if n == 0 {
        x == y
    } else {
        reaches(es, x, y, (n - 1) as nat) || exists|m: usize|
            reaches(es, x, m, (n - 1) as nat) && has_edge(es, m, y)
    }
}

/// Whether `x` and `y` lie in the same connected component of `es`.
pub open spec fn connected(es: Seq<Edge>, x: usize, y: usize) -> bool {
    exists|n: nat| reaches(es, x, y, n)
}

/// Every vertex is connected to itself.
pub proof fn lemma_connected_refl(es: Seq<Edge>, x: usize)
    ensures
        connected(es, x, x),
{
    assert(reaches(es, x, x, 0));
}

/// An edge connects its endpoints.
pub proof fn lemma_edge_connected(es: Seq<Edge>, x: usize, y: usize)
    requires
        has_edge(es, x, y),
    ensures
        connected(es, x, y),
{
    assert(reaches(es, x, x, 0));
    assert(reaches(es, x, y, 1));
}

/// Walks concatenate.
pub proof fn lemma_reaches_trans(es: Seq<Edge>, x: usize, y: usize, z: usize, a: nat, b: nat)
    requires
        reaches(es, x, y, a),
        reaches(es, y, z, b),
    ensures
        reaches(es, x, z, a + b),
    decreases b,
{
    if b == 0 {
        assert(reaches(es, x, z, a));
        lemma_reaches_mono_steps(es, x, z, a, a + b);
    } else {
        if reaches(es, y, z, (b - 1) as nat) {
            lemma_reaches_trans(es, x, y, z, a, (b - 1) as nat);
            assert(reaches(es, x, z, (a + b - 1) as nat));
        } else {
            let m = choose|m: usize| reaches(es, y, m, (b - 1) as nat) && has_edge(es, m, z);
            lemma_reaches_trans(es, x, y, m, a, (b - 1) as nat);
            assert(reaches(es, x, m, (a + b - 1) as nat) && has_edge(es, m, z));
        }
    }
}

/// A walk bound can always be relaxed upward.
pub proof fn lemma_reaches_mono_steps(es: Seq<Edge>, x: usize, y: usize, a: nat, b: nat)
    requires
        reaches(es, x, y, a),
        a <= b,
    ensures
        reaches(es, x, y, b),
    decreases b,
{
    if a < b {
        lemma_reaches_mono_steps(es, x, y, a, (b - 1) as nat);
    }
}

/// Connectivity is transitive.
pub proof fn lemma_connected_trans(es: Seq<Edge>, x: usize, y: usize, z: usize)
    requires
        connected(es, x, y),
        connected(es, y, z),
    ensures
        connected(es, x, z),
{
    let a = choose|a: nat| reaches(es, x, y, a);
    let b = choose|b: nat| reaches(es, y, z, b);
    lemma_reaches_trans(es, x, y, z, a, b);
}

/// Connectivity is symmetric: a walk can be reversed.
pub proof fn lemma_reaches_sym(es: Seq<Edge>, x: usize, y: usize, n: nat)
    requires
        reaches(es, x, y, n),
    ensures
        connected(es, y, x),
    decreases n,
{
    if n == 0 {
        lemma_connected_refl(es, y);
    } else if reaches(es, x, y, (n - 1) as nat) {
        lemma_reaches_sym(es, x, y, (n - 1) as nat);
    } else {
        let m = choose|m: usize| reaches(es, x, m, (n - 1) as nat) && has_edge(es, m, y);
        lemma_reaches_sym(es, x, m, (n - 1) as nat);
        assert(has_edge(es, y, m));
        lemma_edge_connected(es, y, m);
        lemma_connected_trans(es, y, m, x);
    }
}

/// Connectivity is symmetric.
pub proof fn lemma_connected_sym(es: Seq<Edge>, x: usize, y: usize)
    requires
        connected(es, x, y),
    ensures
        connected(es, y, x),
{
    let n = choose|n: nat| reaches(es, x, y, n);
    lemma_reaches_sym(es, x, y, n);
}

/// Adding edges at the end of the list preserves every walk.
pub proof fn lemma_reaches_mono_edges(
    es: Seq<Edge>,
    es2: Seq<Edge>,
    x: usize,
    y: usize,
    n: nat,
)
    requires
        reaches(es, x, y, n),
        es.len() <= es2.len(),
        forall|k: int| 0 <= k < es.len() ==> es2[k] == es[k],
    ensures
        reaches(es2, x, y, n),
    decreases n,
{
    if n == 0 {
    } else if reaches(es, x, y, (n - 1) as nat) {
        lemma_reaches_mono_edges(es, es2, x, y, (n - 1) as nat);
    } else {
        let m = choose|m: usize| reaches(es, x, m, (n - 1) as nat) && has_edge(es, m, y);
        lemma_reaches_mono_edges(es, es2, x, m, (n - 1) as nat);
        let k = choose|k: int| 0 <= k < es.len() && edge_links(es[k], m, y);
        assert(edge_links(es2[k], m, y));
        assert(has_edge(es2, m, y));
        assert(reaches(es2, x, m, (n - 1) as nat) && has_edge(es2, m, y));
    }
}

/// Adding edges at the end of the list preserves connectivity.
pub proof fn lemma_connected_mono_edges(es: Seq<Edge>, es2: Seq<Edge>, x: usize, y: usize)
    requires
        connected(es, x, y),
        es.len() <= es2.len(),
        forall|k: int| 0 <= k < es.len() ==> es2[k] == es[k],
    ensures
        connected(es2, x, y),
{
    let n = choose|n: nat| reaches(es, x, y, n);
    lemma_reaches_mono_edges(es, es2, x, y, n);
}

/// A walk over `es.push(e)` either avoids the new edge, or splits into walks
/// of `es` joined by the new edge, in one of its two orientations.
pub proof fn lemma_reaches_push(es: Seq<Edge>, e: Edge, x: usize, y: usize, n: nat)
    requires
        reaches(es.push(e), x, y, n),
    ensures
        connected(es, x, y) || (connected(es, x, e.source) && connected(es, e.target, y))
            || (connected(es, x, e.target) && connected(es, e.source, y)),
    decreases n,
{
    if n == 0 {
        lemma_connected_refl(es, x);
    } else if reaches(es.push(e), x, y, (n - 1) as nat) {
        lemma_reaches_push(es, e, x, y, (n - 1) as nat);
    } else {
        let m = choose|m: usize|
            reaches(es.push(e), x, m, (n - 1) as nat) && has_edge(es.push(e), m, y);
        lemma_reaches_push(es, e, x, m, (n - 1) as nat);
        let k = choose|k: int| 0 <= k < es.push(e).len() && edge_links(es.push(e)[k], m, y);
        if k < es.len() {
            // the last step stays inside the old edges
            assert(edge_links(es[k], m, y));
            lemma_edge_connected(es, m, y);
            if connected(es, x, m) {
                lemma_connected_trans(es, x, m, y);
            } else if connected(es, x, e.source) && connected(es, e.target, m) {
                lemma_connected_trans(es, e.target, m, y);
            } else {
                lemma_connected_trans(es, e.source, m, y);
            }
        } else {
            // the last step uses the new edge
            assert(es.push(e)[k] == e);
            assert(edge_links(e, m, y));
            if connected(es, x, m) {
                if e.source == m && e.target == y {
                    lemma_connected_refl(es, e.target);
                } else {
                    lemma_connected_refl(es, e.source);
                }
            } else if connected(es, x, e.source) && connected(es, e.target, m) {
                if e.source == m && e.target == y {
                    // x ~ e.source ~ ... ; m == e.source, y == e.target
                    lemma_connected_refl(es, e.target);
                    lemma_connected_trans(es, x, e.source, m);
                } else {
                    // m == e.target and y == e.source, so x ~ e.source == y
                    assert(y == e.source);
                    assert(connected(es, x, y));
                }
            } else {
                // connected(es, x, e.target) && connected(es, e.source, m)
                if e.source == m && e.target == y {
                    // y == e.target: x ~ e.target == y
                    assert(connected(es, x, y));
                } else {
                    // m == e.target, y == e.source: x ~ e.target, e.source ~ m == e.target
                    lemma_connected_refl(es, e.source);
                }
            }
        }
    }
}

} // verus!
