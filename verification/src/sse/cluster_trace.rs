//! The transverse-field Ising cluster update keeps the trace closed.
//!
//! Every world line carries one spin between consecutive vertices. A flipped
//! cluster flips every leg it contains; since joined legs are flipped
//! together, a bond still sees aligned spins, a site constant whose two legs
//! were flipped differently becomes the spin flip that accounts for the
//! change and vice versa, and the boundary spin of a site is flipped with
//! both the first and the last leg of its world line.

use vstd::prelude::*;

use crate::labels::{flipped, OperatorKind, Spin};
use crate::sse::clusters::{
    coins_needed, lemma_references_valid, toggle_count, ClusterPlan, cluster_labels, close_world_lines, first_leg_before, incoming_leg, join, last_leg_before,
    leg_flipped, leg_labels, leg_offset, lemma_first_last_agree, lemma_offset_bounded, link, matches_leg, plan_vertices, same_partition,
    heads, site_flipped, toggled_operators, touches, vertex_joins, vertex_legs, vertex_of,
    vertex_toggled, ClusterVertex,
};
use crate::sse::state::{
    expansion_order_of, lemma_prefix_error_persists, propagate_through, SSEState, propagation_step, trace_closes, Operator,
};
use crate::sse::union_find::merge_classes;
use crate::sse::stats::ClusterSweepStats;
use crate::sse::{
    sites_in_range, weight_positive, PositiveWeight, SseModelError, SseStructure, SseTermShape,
    SseTermSites,
};

verus! {

proof fn lemma_join_basics(labels: Seq<nat>, x: int, y: int)
    ensures
        join(labels, x, y).len() == labels.len(),
        0 <= x < labels.len() && 0 <= y < labels.len() ==> join(labels, x, y)[x] == join(
            labels,
            x,
            y,
        )[y],
        forall|a: int, b: int|
            0 <= a < labels.len() && 0 <= b < labels.len() && labels[a] == labels[b] ==> #[trigger] join(
                labels,
                x,
                y,
            )[a] == #[trigger] join(labels, x, y)[b],
{
    if labels[x] != labels[y] {
        let merged = merge_classes(labels, labels[x], labels[y]);
        assert(merged.len() == labels.len());
    }
}

proof fn lemma_link_basics(labels: Seq<nat>, previous: Option<nat>, leg: nat)
    ensures
        link(labels, previous, leg).len() == labels.len(),
        previous is Some && previous->0 < labels.len() && leg < labels.len() ==> link(
            labels,
            previous,
            leg,
        )[previous->0 as int] == link(labels, previous, leg)[leg as int],
        forall|a: int, b: int|
            0 <= a < labels.len() && 0 <= b < labels.len() && labels[a] == labels[b] ==> #[trigger] link(
                labels,
                previous,
                leg,
            )[a] == #[trigger] link(labels, previous, leg)[b],
{
    match previous {
        Some(p) => lemma_join_basics(labels, p as int, leg as int),
        None => {},
    }
}

proof fn lemma_offset_monotone(operators: Seq<Operator>, terms: Seq<SseTermShape>, low: int, high: int)
    requires
        0 <= low <= high,
    ensures
        leg_offset(operators, terms, low) <= leg_offset(operators, terms, high),
    decreases high - low,
{
    if low < high {
        lemma_offset_monotone(operators, terms, low, high - 1);
    }
}

proof fn lemma_touching_legs_bounded(
    operators: Seq<Operator>,
    terms: Seq<SseTermShape>,
    position: int,
    site: int,
)
    requires
        0 <= position,
        touches(operators, terms, position, site),
    ensures
        leg_offset(operators, terms, position) <= incoming_leg(operators, terms, position, site),
        incoming_leg(operators, terms, position, site) + 1 < leg_offset(
            operators,
            terms,
            position + 1,
        ),
{
}

proof fn lemma_line_legs_bounded(operators: Seq<Operator>, terms: Seq<SseTermShape>, count: int, site: int)
    requires
        0 <= count,
    ensures
        last_leg_before(operators, terms, count, site) matches Some(leg) ==> leg < leg_offset(
            operators,
            terms,
            count,
        ),
        first_leg_before(operators, terms, count, site) matches Some(leg) ==> leg < leg_offset(
            operators,
            terms,
            count,
        ),
    decreases count,
{
    if count > 0 {
        lemma_line_legs_bounded(operators, terms, count - 1, site);
        if touches(operators, terms, count - 1, site) {
            lemma_touching_legs_bounded(operators, terms, count - 1, site);
        }
    }
}

proof fn lemma_vertex_joins_keep(
    pushed: Seq<nat>,
    operators: Seq<Operator>,
    terms: Seq<SseTermShape>,
    partners: Seq<Option<u32>>,
    position: int,
)
    ensures
        vertex_joins(pushed, operators, terms, partners, position).len() == pushed.len(),
        forall|a: int, b: int|
            0 <= a < pushed.len() && 0 <= b < pushed.len() && pushed[a] == pushed[b] ==> #[trigger] vertex_joins(
                pushed,
                operators,
                terms,
                partners,
                position,
            )[a] == #[trigger] vertex_joins(pushed, operators, terms, partners, position)[b],
{
    let o = leg_offset(operators, terms, position) as int;
    let index = operators[position].term_index as int;
    match terms[index].sites {
        SseTermSites::Site(s) => {
            let previous = last_leg_before(operators, terms, position, s as int);
            let linked = link(pushed, previous, o as nat);
            lemma_link_basics(pushed, previous, o as nat);
            lemma_join_basics(linked, o, o + 1);
        },
        SseTermSites::Bond(i, j) => {
            let first = link(pushed, last_leg_before(operators, terms, position, i as int), o as nat);
            lemma_link_basics(pushed, last_leg_before(operators, terms, position, i as int), o as nat);
            let second = link(
                first,
                last_leg_before(operators, terms, position, j as int),
                (o + 2) as nat,
            );
            lemma_link_basics(
                first,
                last_leg_before(operators, terms, position, j as int),
                (o + 2) as nat,
            );
            let a1 = join(second, o, o + 1);
            lemma_join_basics(second, o, o + 1);
            let a2 = join(a1, o, o + 2);
            lemma_join_basics(a1, o, o + 2);
            lemma_join_basics(a2, o, o + 3);
        },
    }
}

proof fn lemma_vertex_joins_new(
    pushed: Seq<nat>,
    operators: Seq<Operator>,
    terms: Seq<SseTermShape>,
    partners: Seq<Option<u32>>,
    position: int,
)
    requires
        0 <= position < operators.len(),
        operators[position].kind != OperatorKind::Identity,
        pushed.len() == leg_offset(operators, terms, position + 1),
    ensures
        ({
            let result = vertex_joins(pushed, operators, terms, partners, position);
            let o = leg_offset(operators, terms, position) as int;
            match terms[operators[position].term_index as int].sites {
                SseTermSites::Site(s) => last_leg_before(operators, terms, position, s as int) matches Some(
                    prev,
                ) ==> result[prev as int] == result[o],
                SseTermSites::Bond(i, j) => {
                    &&& result[o] == result[o + 1]
                    &&& result[o] == result[o + 2]
                    &&& result[o] == result[o + 3]
                    &&& last_leg_before(operators, terms, position, i as int) matches Some(prev)
                        ==> result[prev as int] == result[o]
                    &&& last_leg_before(operators, terms, position, j as int) matches Some(prev)
                        ==> result[prev as int] == result[o + 2]
                },
            }
        }),
{
    let o = leg_offset(operators, terms, position) as int;
    let index = operators[position].term_index as int;
    match terms[index].sites {
        SseTermSites::Site(s) => {
            let previous = last_leg_before(operators, terms, position, s as int);
            lemma_line_legs_bounded(operators, terms, position, s as int);
            let linked = link(pushed, previous, o as nat);
            lemma_link_basics(pushed, previous, o as nat);
            lemma_join_basics(linked, o, o + 1);
        },
        SseTermSites::Bond(i, j) => {
            lemma_line_legs_bounded(operators, terms, position, i as int);
            lemma_line_legs_bounded(operators, terms, position, j as int);
            let pi = last_leg_before(operators, terms, position, i as int);
            let pj = last_leg_before(operators, terms, position, j as int);
            let first = link(pushed, pi, o as nat);
            lemma_link_basics(pushed, pi, o as nat);
            let second = link(first, pj, (o + 2) as nat);
            lemma_link_basics(first, pj, (o + 2) as nat);
            let a1 = join(second, o, o + 1);
            lemma_join_basics(second, o, o + 1);
            let a2 = join(a1, o, o + 2);
            lemma_join_basics(a1, o, o + 2);
            let a3 = join(a2, o, o + 3);
            lemma_join_basics(a2, o, o + 3);
            assert(vertex_joins(pushed, operators, terms, partners, position) == a3);
        },
    }
}

proof fn lemma_leg_labels_len(
    operators: Seq<Operator>,
    terms: Seq<SseTermShape>,
    partners: Seq<Option<u32>>,
    count: int,
)
    requires
        0 <= count,
    ensures
        leg_labels(operators, terms, partners, count).len() == leg_offset(operators, terms, count),
    decreases count,
{
    if count > 0 {
        lemma_leg_labels_len(operators, terms, partners, count - 1);
        if operators[count - 1].kind != OperatorKind::Identity {
            let before = leg_labels(operators, terms, partners, count - 1);
            let o = leg_offset(operators, terms, count - 1);
            let pushed = before + Seq::new(
                vertex_legs(operators[count - 1], terms),
                |k: int| (o + k) as nat,
            );
            lemma_vertex_joins_keep(pushed, operators, terms, partners, count - 1);
        }
    }
}

/// Legs in one class of the first `low` operators stay in one class.
proof fn lemma_labels_keep(
    operators: Seq<Operator>,
    terms: Seq<SseTermShape>,
    partners: Seq<Option<u32>>,
    low: int,
    high: int,
    a: int,
    b: int,
)
    requires
        0 <= low <= high,
        0 <= a < leg_offset(operators, terms, low),
        0 <= b < leg_offset(operators, terms, low),
        leg_labels(operators, terms, partners, low)[a] == leg_labels(operators, terms, partners, low)[b],
    ensures
        leg_labels(operators, terms, partners, high)[a] == leg_labels(operators, terms, partners, high)[b],
    decreases high - low,
{
    if low < high {
        lemma_labels_keep(operators, terms, partners, low, high - 1, a, b);
        lemma_offset_monotone(operators, terms, low, high - 1);
        lemma_leg_labels_len(operators, terms, partners, high - 1);
        let count = high;
        if operators[count - 1].kind != OperatorKind::Identity {
            let before = leg_labels(operators, terms, partners, count - 1);
            let o = leg_offset(operators, terms, count - 1);
            let pushed = before + Seq::new(
                vertex_legs(operators[count - 1], terms),
                |k: int| (o + k) as nat,
            );
            assert(pushed[a] == before[a] && pushed[b] == before[b]);
            lemma_vertex_joins_keep(pushed, operators, terms, partners, count - 1);
        }
    }
}

proof fn lemma_close_keep(
    labels: Seq<nat>,
    operators: Seq<Operator>,
    terms: Seq<SseTermShape>,
    count: int,
    a: int,
    b: int,
)
    requires
        0 <= count,
        0 <= a < labels.len(),
        0 <= b < labels.len(),
        labels[a] == labels[b],
    ensures
        close_world_lines(labels, operators, terms, count).len() == labels.len(),
        close_world_lines(labels, operators, terms, count)[a] == close_world_lines(
            labels,
            operators,
            terms,
            count,
        )[b],
    decreases count,
{
    if count > 0 {
        lemma_close_keep(labels, operators, terms, count - 1, a, b);
        let before = close_world_lines(labels, operators, terms, count - 1);
        let n = operators.len() as int;
        match (
            first_leg_before(operators, terms, n, count - 1),
            last_leg_before(operators, terms, n, count - 1),
        ) {
            (Some(first), Some(last)) => lemma_join_basics(before, first as int, last as int),
            _ => {},
        }
    }
}

proof fn lemma_close_joins(
    labels: Seq<nat>,
    operators: Seq<Operator>,
    terms: Seq<SseTermShape>,
    count: int,
    site: int,
    first: nat,
    last: nat,
)
    requires
        0 <= site < count,
        first_leg_before(operators, terms, operators.len() as int, site) == Some(first),
        last_leg_before(operators, terms, operators.len() as int, site) == Some(last),
        first < labels.len(),
        last < labels.len(),
    ensures
        close_world_lines(labels, operators, terms, count)[first as int] == close_world_lines(
            labels,
            operators,
            terms,
            count,
        )[last as int],
    decreases count,
{
    let before = close_world_lines(labels, operators, terms, count - 1);
    lemma_close_keep(labels, operators, terms, count - 1, 0, 0);
    let n = operators.len() as int;
    if count - 1 == site {
        lemma_join_basics(before, first as int, last as int);
    } else {
        lemma_close_joins(labels, operators, terms, count - 1, site, first, last);
        match (
            first_leg_before(operators, terms, n, count - 1),
            last_leg_before(operators, terms, n, count - 1),
        ) {
            (Some(f), Some(l)) => lemma_join_basics(before, f as int, l as int),
            _ => {},
        }
    }
}

/// Legs joined while the operator at `position` is processed stay joined in
/// the final classes.
proof fn lemma_final_keeps(
    operators: Seq<Operator>,
    terms: Seq<SseTermShape>,
    partners: Seq<Option<u32>>,
    num_sites: int,
    count: int,
    a: int,
    b: int,
)
    requires
        0 <= count <= operators.len(),
        0 <= num_sites,
        0 <= a < leg_offset(operators, terms, count),
        0 <= b < leg_offset(operators, terms, count),
        leg_labels(operators, terms, partners, count)[a] == leg_labels(operators, terms, partners, count)[b],
    ensures
        cluster_labels(operators, terms, partners, num_sites)[a] == cluster_labels(
            operators,
            terms,
            partners,
            num_sites,
        )[b],
{
    let n = operators.len() as int;
    lemma_labels_keep(operators, terms, partners, count, n, a, b);
    lemma_offset_monotone(operators, terms, count, n);
    lemma_leg_labels_len(operators, terms, partners, n);
    lemma_close_keep(leg_labels(operators, terms, partners, n), operators, terms, num_sites, a, b);
}

proof fn lemma_first_leg_settles(
    operators: Seq<Operator>,
    terms: Seq<SseTermShape>,
    position: int,
    site: int,
    count: int,
)
    requires
        0 <= position < count,
        touches(operators, terms, position, site),
        last_leg_before(operators, terms, position, site) is None,
    ensures
        first_leg_before(operators, terms, count, site) == Some(
            incoming_leg(operators, terms, position, site),
        ),
    decreases count - position,
{
    lemma_first_last_agree(operators, terms, position, site);
    if count > position + 1 {
        lemma_first_leg_settles(operators, terms, position, site, count - 1);
    }
}

proof fn lemma_propagate_len(terms: Seq<SseTermShape>, state: Seq<Spin>, operators: Seq<Operator>)
    requires
        forall|t: int| 0 <= t < terms.len() ==> sites_in_range(#[trigger] terms[t].sites, state.len()),
    ensures
        propagate_through(terms, state, operators) matches Ok(result) ==> result.len() == state.len(),
    decreases operators.len(),
{
    if operators.len() > 0 {
        lemma_propagate_len(terms, state, operators.drop_last());
        match propagate_through(terms, state, operators.drop_last()) {
            Ok(current) => {
                let operator = operators.last();
                if operator.kind == OperatorKind::OffDiagonal && (operator.term_index as int) < terms.len() {
                    assert(sites_in_range(terms[operator.term_index as int].sites, state.len()));
                    match terms[operator.term_index as int].sites {
                        SseTermSites::Site(site) => {
                            assert(current.update(site as int, flipped(current[site as int])).len()
                                == current.len());
                        },
                        SseTermSites::Bond(_, _) => {},
                    }
                }
            },
            Err(_) => {},
        }
    }
}

proof fn lemma_prefix_ok(terms: Seq<SseTermShape>, state: Seq<Spin>, operators: Seq<Operator>, count: int)
    requires
        0 <= count <= operators.len(),
        propagate_through(terms, state, operators) is Ok,
    ensures
        propagate_through(terms, state, operators.take(count)) is Ok,
{
    if propagate_through(terms, state, operators.take(count)) is Err {
        lemma_prefix_error_persists(terms, state, operators, count);
    }
}

proof fn lemma_toggled_prefix(
    operators: Seq<Operator>,
    vertices: Seq<ClusterVertex>,
    others: Seq<ClusterVertex>,
    roots: Seq<nat>,
    coins: Seq<bool>,
    count: int,
)
    requires
        0 <= count <= vertices.len(),
        count <= others.len(),
        forall|k: int| 0 <= k < count ==> vertices[k] == others[k],
    ensures
        toggled_operators(operators, vertices, roots, coins, count) == toggled_operators(
            operators,
            others,
            roots,
            coins,
            count,
        ),
    decreases count,
{
    if count > 0 {
        lemma_toggled_prefix(operators, vertices, others, roots, coins, count - 1);
    }
}

/// The operator that the cluster update leaves at `position`.
pub open spec fn toggled_operator(
    operators: Seq<Operator>,
    terms: Seq<SseTermShape>,
    partners: Seq<Option<u32>>,
    roots: Seq<nat>,
    coins: Seq<bool>,
    position: int,
) -> Operator {
    let vertex = vertex_of(operators, terms, partners, position);
    if operators[position].kind != OperatorKind::Identity && vertex_toggled(vertex, roots, coins) {
        match vertex {
            ClusterVertex::Site { partner, partner_kind, .. } => Operator {
                kind: partner_kind,
                term_index: partner,
            },
            ClusterVertex::Bond => operators[position],
        }
    } else {
        operators[position]
    }
}

proof fn lemma_toggled_at(
    operators: Seq<Operator>,
    terms: Seq<SseTermShape>,
    partners: Seq<Option<u32>>,
    roots: Seq<nat>,
    coins: Seq<bool>,
    count: int,
)
    requires
        0 <= count <= operators.len(),
        operators.len() <= usize::MAX,
    ensures
        ({
            let vertices = plan_vertices(operators, terms, partners, count);
            let result = toggled_operators(operators, vertices, roots, coins, vertices.len() as int);
            &&& result.len() == operators.len()
            &&& forall|p: int|
                0 <= p < operators.len() ==> #[trigger] result[p] == if p < count {
                    toggled_operator(operators, terms, partners, roots, coins, p)
                } else {
                    operators[p]
                }
        }),
    decreases count,
{
    if count > 0 {
        lemma_toggled_at(operators, terms, partners, roots, coins, count - 1);
        let before = plan_vertices(operators, terms, partners, count - 1);
        if operators[count - 1].kind != OperatorKind::Identity {
            let vertices = before.push(vertex_of(operators, terms, partners, count - 1));
            lemma_toggled_prefix(operators, vertices, before, roots, coins, before.len() as int);
        }
    }
}


/// The vertices of the transverse-field Ising decomposition: every
/// single-site term is a transverse vertex with a partner, both weighted
/// alike, either positive everywhere or (for a zero field) nowhere; every
/// bond is diagonal and positive exactly on aligned spins, or nowhere (for a
/// zero coupling).
pub open spec fn tfim_vertices(terms: Seq<SseTermShape>, partners: Seq<Option<u32>>) -> bool {
    forall|t: int| 0 <= t < terms.len() ==> #[trigger] tfim_vertex(terms, partners, t)
}

/// Whether term `t` is a vertex of the transverse-field Ising decomposition.
pub open spec fn tfim_vertex(terms: Seq<SseTermShape>, partners: Seq<Option<u32>>, t: int) -> bool {
    match terms[t].sites {
        SseTermSites::Site(_) => {
            &&& partners[t] is Some
            &&& terms[t].positive == PositiveWeight::Always || terms[t].positive
                == PositiveWeight::Never
            &&& terms[partners[t]->0 as int].positive == terms[t].positive
        },
        SseTermSites::Bond(_, _) => terms[t].kind == OperatorKind::Diagonal && (terms[t].positive
            == PositiveWeight::Aligned || terms[t].positive == PositiveWeight::Never),
    }
}

/// The validated structure of a model: supports inside the site set, bonds
/// on two distinct sites, no identity classification, and partners that act
/// on the same sites with the opposite classification.
pub open spec fn valid_structure(terms: Seq<SseTermShape>, partners: Seq<Option<u32>>, num_sites: nat) -> bool {
    &&& partners.len() == terms.len()
    &&& forall|t: int| 0 <= t < terms.len() ==> sites_in_range(#[trigger] terms[t].sites, num_sites)
    &&& forall|t: int|
        0 <= t < terms.len() ==> (#[trigger] terms[t].sites matches SseTermSites::Bond(i, j) ==> i
            != j)
    &&& forall|t: int| 0 <= t < terms.len() ==> #[trigger] terms[t].kind != OperatorKind::Identity
    &&& forall|t: int|
        0 <= t < terms.len() && #[trigger] partners[t] is Some ==> {
            let q = partners[t]->0 as int;
            &&& 0 <= q < terms.len()
            &&& terms[q].sites == terms[t].sites
            &&& terms[q].kind != terms[t].kind
        }
}

/// The spin of a site after `flip` decides whether to flip it.
pub open spec fn flip_if(spin: Spin, flip: bool) -> Spin {
    if flip {
        flipped(spin)
    } else {
        spin
    }
}

/// Whether the world line of `site` is flipped between the operators
/// `count - 1` and `count`: the decision of the leg that leaves the last
/// vertex on the site before `count`, or of the site's boundary spin.
pub open spec fn line_flip(
    operators: Seq<Operator>,
    terms: Seq<SseTermShape>,
    roots: Seq<nat>,
    first_legs: Seq<Option<usize>>,
    coins: Seq<bool>,
    count: int,
    site: int,
) -> bool {
    match last_leg_before(operators, terms, count, site) {
        Some(leg) => leg_flipped(roots, coins, leg as int),
        None => site_flipped(first_legs, roots, coins, site),
    }
}

/// `state` with every world line flipped as decided between the operators
/// `count - 1` and `count`.
pub open spec fn flipped_lines(
    state: Seq<Spin>,
    operators: Seq<Operator>,
    terms: Seq<SseTermShape>,
    roots: Seq<nat>,
    first_legs: Seq<Option<usize>>,
    coins: Seq<bool>,
    count: int,
) -> Seq<Spin> {
    Seq::new(
        state.len(),
        |site: int| flip_if(state[site], line_flip(operators, terms, roots, first_legs, coins, count, site)),
    )
}

/// The state propagated through the first `count` operators.
pub open spec fn prefix_state(
    terms: Seq<SseTermShape>,
    basis: Seq<Spin>,
    operators: Seq<Operator>,
    count: int,
) -> Seq<Spin> {
    match propagate_through(terms, basis, operators.take(count)) {
        Ok(state) => state,
        Err(_) => basis,
    }
}

/// The configuration before an update and the clusters built from it.
pub open spec fn update_setting(
    terms: Seq<SseTermShape>,
    partners: Seq<Option<u32>>,
    num_sites: nat,
    operators: Seq<Operator>,
    basis: Seq<Spin>,
    roots: Seq<nat>,
    first_legs: Seq<Option<usize>>,
) -> bool {
    &&& valid_structure(terms, partners, num_sites)
    &&& tfim_vertices(terms, partners)
    &&& basis.len() == num_sites
    &&& 4 * operators.len() <= usize::MAX
    &&& trace_closes(terms, basis, operators)
    &&& roots.len() == leg_offset(operators, terms, operators.len() as int)
    &&& same_partition(roots, cluster_labels(operators, terms, partners, num_sites as int))
    &&& first_legs.len() == num_sites
    &&& forall|s: int|
        0 <= s < num_sites ==> matches_leg(
            #[trigger] first_legs[s],
            first_leg_before(operators, terms, operators.len() as int, s),
        )
}

/// Legs in one final class receive one decision.
proof fn lemma_joined_flip(
    terms: Seq<SseTermShape>,
    partners: Seq<Option<u32>>,
    num_sites: nat,
    operators: Seq<Operator>,
    basis: Seq<Spin>,
    roots: Seq<nat>,
    first_legs: Seq<Option<usize>>,
    coins: Seq<bool>,
    count: int,
    a: int,
    b: int,
)
    requires
        update_setting(terms, partners, num_sites, operators, basis, roots, first_legs),
        0 <= count <= operators.len(),
        0 <= a < leg_offset(operators, terms, count),
        0 <= b < leg_offset(operators, terms, count),
        leg_labels(operators, terms, partners, count)[a] == leg_labels(operators, terms, partners, count)[b],
    ensures
        leg_flipped(roots, coins, a) == leg_flipped(roots, coins, b),
{
    lemma_final_keeps(operators, terms, partners, num_sites as int, count, a, b);
    lemma_offset_monotone(operators, terms, count, operators.len() as int);
    assert(roots[a] == roots[b]);
}

/// The decision of the world line entering the operator at `position` on
/// `site` is the decision of the leg that enters the vertex.
proof fn lemma_entering_flip(
    terms: Seq<SseTermShape>,
    partners: Seq<Option<u32>>,
    num_sites: nat,
    operators: Seq<Operator>,
    basis: Seq<Spin>,
    roots: Seq<nat>,
    first_legs: Seq<Option<usize>>,
    coins: Seq<bool>,
    position: int,
    site: int,
)
    requires
        update_setting(terms, partners, num_sites, operators, basis, roots, first_legs),
        0 <= position < operators.len(),
        0 <= site < num_sites,
        touches(operators, terms, position, site),
        (operators[position].term_index as int) < terms.len(),
    ensures
        line_flip(operators, terms, roots, first_legs, coins, position, site) == leg_flipped(
            roots,
            coins,
            incoming_leg(operators, terms, position, site) as int,
        ),
{
    let n = operators.len() as int;
    let incoming = incoming_leg(operators, terms, position, site);
    lemma_touching_legs_bounded(operators, terms, position, site);
    match last_leg_before(operators, terms, position, site) {
        Some(previous) => {
            lemma_line_legs_bounded(operators, terms, position, site);
            lemma_offset_monotone(operators, terms, position, position + 1);
            lemma_leg_labels_len(operators, terms, partners, position);
            let before = leg_labels(operators, terms, partners, position);
            let o = leg_offset(operators, terms, position);
            let pushed = before + Seq::new(
                vertex_legs(operators[position], terms),
                |k: int| (o + k) as nat,
            );
            lemma_vertex_joins_new(pushed, operators, terms, partners, position);
            assert(leg_labels(operators, terms, partners, position + 1) == vertex_joins(
                pushed,
                operators,
                terms,
                partners,
                position,
            ));
            lemma_joined_flip(
                terms,
                partners,
                num_sites,
                operators,
                basis,
                roots,
                first_legs,
                coins,
                position + 1,
                previous as int,
                incoming as int,
            );
        },
        None => {
            lemma_first_leg_settles(operators, terms, position, site, n);
            assert(matches_leg(first_legs[site], first_leg_before(operators, terms, n, site)));
        },
    }
}


/// The decision of the world line leaving the operator at `position` on
/// `site` is the decision of the leg that leaves the vertex.
proof fn lemma_leaving_flip(
    operators: Seq<Operator>,
    terms: Seq<SseTermShape>,
    roots: Seq<nat>,
    first_legs: Seq<Option<usize>>,
    coins: Seq<bool>,
    position: int,
    site: int,
)
    requires
        0 <= position,
    ensures
        touches(operators, terms, position, site) ==> line_flip(
            operators,
            terms,
            roots,
            first_legs,
            coins,
            position + 1,
            site,
        ) == leg_flipped(roots, coins, incoming_leg(operators, terms, position, site) as int + 1),
        !touches(operators, terms, position, site) ==> line_flip(
            operators,
            terms,
            roots,
            first_legs,
            coins,
            position + 1,
            site,
        ) == line_flip(operators, terms, roots, first_legs, coins, position, site),
{
}

/// One more operator of the updated string keeps the updated propagation
/// equal to the original one with every world line flipped as decided.
proof fn lemma_update_step(
    terms: Seq<SseTermShape>,
    partners: Seq<Option<u32>>,
    num_sites: nat,
    operators: Seq<Operator>,
    basis: Seq<Spin>,
    roots: Seq<nat>,
    first_legs: Seq<Option<usize>>,
    coins: Seq<bool>,
    updated: Seq<Operator>,
    new_basis: Seq<Spin>,
    position: int,
)
    requires
        update_setting(terms, partners, num_sites, operators, basis, roots, first_legs),
        0 <= position < operators.len(),
        updated.len() == operators.len(),
        updated[position] == toggled_operator(operators, terms, partners, roots, coins, position),
        propagate_through(terms, new_basis, updated.take(position)) == Ok::<Seq<Spin>, crate::sse::SseModelError>(
            flipped_lines(
                prefix_state(terms, basis, operators, position),
                operators,
                terms,
                roots,
                first_legs,
                coins,
                position,
            ),
        ),
    ensures
        propagate_through(terms, new_basis, updated.take(position + 1)) == Ok::<Seq<Spin>, crate::sse::SseModelError>(
            flipped_lines(
                prefix_state(terms, basis, operators, position + 1),
                operators,
                terms,
                roots,
                first_legs,
                coins,
                position + 1,
            ),
        ),
{
    let p = position;
    let n = num_sites as int;
    let x = prefix_state(terms, basis, operators, p);
    let y = flipped_lines(x, operators, terms, roots, first_legs, coins, p);
    let operator = operators[p];
    lemma_prefix_ok(terms, basis, operators, p);
    lemma_prefix_ok(terms, basis, operators, p + 1);
    assert(operators.take(p + 1).drop_last() =~= operators.take(p));
    assert(updated.take(p + 1).drop_last() =~= updated.take(p));
    lemma_propagate_len(terms, basis, operators.take(p));
    lemma_propagate_len(terms, basis, operators.take(p + 1));
    assert(x.len() == n);
    let x_next = prefix_state(terms, basis, operators, p + 1);
    assert(propagation_step(terms, x, operator) == Ok::<Seq<Spin>, crate::sse::SseModelError>(x_next));
    let goal = flipped_lines(x_next, operators, terms, roots, first_legs, coins, p + 1);
    if operator.kind == OperatorKind::Identity {
        assert(x_next == x);
        assert forall|site: int| 0 <= site < n implies line_flip(
            operators,
            terms,
            roots,
            first_legs,
            coins,
            p + 1,
            site,
        ) == line_flip(operators, terms, roots, first_legs, coins, p, site) by {
            lemma_leaving_flip(operators, terms, roots, first_legs, coins, p, site);
        }
        assert(goal =~= y);
    } else {
        let t = operator.term_index as int;
        assert(t < terms.len());
        lemma_offset_bounded(operators, terms, operators.len() as int);
        lemma_offset_monotone(operators, terms, p + 1, operators.len() as int);
        let o = leg_offset(operators, terms, p) as int;
        match terms[t].sites {
            SseTermSites::Site(site0) => {
                let s0 = site0 as int;
                assert(sites_in_range(terms[t].sites, num_sites));
                assert(tfim_vertex(terms, partners, t));
                assert(partners[t] is Some);
                let q = partners[t]->0 as int;
                assert(terms[q].sites == terms[t].sites);
                assert(weight_positive(terms[t], x));
                assert(terms[t].positive == PositiveWeight::Always);
                assert(tfim_vertex(terms, partners, q));
                assert(partners[q] is Some && terms[q].positive == PositiveWeight::Always);
                assert(touches(operators, terms, p, s0));
                assert(incoming_leg(operators, terms, p, s0) == o);
                lemma_entering_flip(
                    terms,
                    partners,
                    num_sites,
                    operators,
                    basis,
                    roots,
                    first_legs,
                    coins,
                    p,
                    s0,
                );
                lemma_leaving_flip(operators, terms, roots, first_legs, coins, p, s0);
                let flip_in = leg_flipped(roots, coins, o);
                let flip_out = leg_flipped(roots, coins, o + 1);
                assert(vertex_toggled(vertex_of(operators, terms, partners, p), roots, coins) == (
                flip_in != flip_out));
                assert forall|site: int| 0 <= site < n && site != s0 implies line_flip(
                    operators,
                    terms,
                    roots,
                    first_legs,
                    coins,
                    p + 1,
                    site,
                ) == line_flip(operators, terms, roots, first_legs, coins, p, site) by {
                    lemma_leaving_flip(operators, terms, roots, first_legs, coins, p, site);
                }
                let result = propagation_step(terms, y, updated[p]);
                assert(result is Ok);
                assert(result == Ok::<Seq<Spin>, crate::sse::SseModelError>(goal)) by {
                    let r = result->Ok_0;
                    assert(r =~= goal);
                }
            },
            SseTermSites::Bond(site_i, site_j) => {
                let i = site_i as int;
                let j = site_j as int;
                assert(sites_in_range(terms[t].sites, num_sites));
                assert(i != j);
                assert(tfim_vertex(terms, partners, t));
                assert(terms[t].kind == OperatorKind::Diagonal);
                assert(weight_positive(terms[t], x));
                assert(terms[t].positive == PositiveWeight::Aligned);
                assert(vertex_of(operators, terms, partners, p) == ClusterVertex::Bond);
                assert(updated[p] == operator);
                assert(x[i] == x[j]);
                assert(x_next == x);
                assert(touches(operators, terms, p, i));
                assert(touches(operators, terms, p, j));
                assert(incoming_leg(operators, terms, p, i) == o);
                assert(incoming_leg(operators, terms, p, j) == o + 2);
                lemma_entering_flip(terms, partners, num_sites, operators, basis, roots, first_legs, coins, p, i);
                lemma_entering_flip(terms, partners, num_sites, operators, basis, roots, first_legs, coins, p, j);
                lemma_leaving_flip(operators, terms, roots, first_legs, coins, p, i);
                lemma_leaving_flip(operators, terms, roots, first_legs, coins, p, j);
                lemma_leg_labels_len(operators, terms, partners, p);
                let before = leg_labels(operators, terms, partners, p);
                let pushed = before + Seq::new(
                    vertex_legs(operator, terms),
                    |k: int| (o + k) as nat,
                );
                lemma_vertex_joins_new(pushed, operators, terms, partners, p);
                assert(leg_labels(operators, terms, partners, p + 1) == vertex_joins(
                    pushed,
                    operators,
                    terms,
                    partners,
                    p,
                ));
                lemma_joined_flip(terms, partners, num_sites, operators, basis, roots, first_legs, coins, p + 1, o, o + 1);
                lemma_joined_flip(terms, partners, num_sites, operators, basis, roots, first_legs, coins, p + 1, o, o + 2);
                lemma_joined_flip(terms, partners, num_sites, operators, basis, roots, first_legs, coins, p + 1, o, o + 3);
                assert forall|site: int| 0 <= site < n implies line_flip(
                    operators,
                    terms,
                    roots,
                    first_legs,
                    coins,
                    p + 1,
                    site,
                ) == line_flip(operators, terms, roots, first_legs, coins, p, site) by {
                    lemma_leaving_flip(operators, terms, roots, first_legs, coins, p, site);
                }
                assert(goal =~= y);
                assert(y[i] == y[j]);
            },
        }
    }
}


proof fn lemma_update_prefix(
    terms: Seq<SseTermShape>,
    partners: Seq<Option<u32>>,
    num_sites: nat,
    operators: Seq<Operator>,
    basis: Seq<Spin>,
    roots: Seq<nat>,
    first_legs: Seq<Option<usize>>,
    coins: Seq<bool>,
    updated: Seq<Operator>,
    new_basis: Seq<Spin>,
    count: int,
)
    requires
        update_setting(terms, partners, num_sites, operators, basis, roots, first_legs),
        0 <= count <= operators.len(),
        updated.len() == operators.len(),
        forall|p: int|
            0 <= p < operators.len() ==> #[trigger] updated[p] == toggled_operator(
                operators,
                terms,
                partners,
                roots,
                coins,
                p,
            ),
        new_basis == flipped_lines(basis, operators, terms, roots, first_legs, coins, 0),
    ensures
        propagate_through(terms, new_basis, updated.take(count)) == Ok::<Seq<Spin>, crate::sse::SseModelError>(
            flipped_lines(
                prefix_state(terms, basis, operators, count),
                operators,
                terms,
                roots,
                first_legs,
                coins,
                count,
            ),
        ),
    decreases count,
{
    if count == 0 {
        assert(updated.take(0) =~= Seq::<Operator>::empty());
        assert(operators.take(0) =~= Seq::<Operator>::empty());
    } else {
        lemma_update_prefix(
            terms,
            partners,
            num_sites,
            operators,
            basis,
            roots,
            first_legs,
            coins,
            updated,
            new_basis,
            count - 1,
        );
        lemma_update_step(
            terms,
            partners,
            num_sites,
            operators,
            basis,
            roots,
            first_legs,
            coins,
            updated,
            new_basis,
            count - 1,
        );
    }
}

/// The transverse-field Ising cluster update keeps the trace closed.
///
/// Take a configuration whose operator string propagates its boundary state
/// back to itself, on a model whose vertices are those of the
/// transverse-field Ising decomposition. Build its clusters, and let any
/// coins decide which clusters and free sites flip. The boundary state with
/// the chosen sites flipped, and the operator string with the chosen
/// transverse vertices toggled, again propagate the new boundary state back
/// to itself.
pub proof fn lemma_cluster_update_keeps_trace_closed(
    terms: Seq<SseTermShape>,
    partners: Seq<Option<u32>>,
    num_sites: nat,
    operators: Seq<Operator>,
    basis: Seq<Spin>,
    roots: Seq<nat>,
    first_legs: Seq<Option<usize>>,
    coins: Seq<bool>,
)
    requires
        valid_structure(terms, partners, num_sites),
        tfim_vertices(terms, partners),
        basis.len() == num_sites,
        4 * operators.len() <= usize::MAX,
        trace_closes(terms, basis, operators),
        roots.len() == leg_offset(operators, terms, operators.len() as int),
        same_partition(roots, cluster_labels(operators, terms, partners, num_sites as int)),
        first_legs.len() == num_sites,
        forall|s: int|
            0 <= s < num_sites ==> matches_leg(
                #[trigger] first_legs[s],
                first_leg_before(operators, terms, operators.len() as int, s),
            ),
    ensures
        ({
            let vertices = plan_vertices(operators, terms, partners, operators.len() as int);
            trace_closes(
                terms,
                Seq::new(
                    basis.len(),
                    |site: int|
                        if site_flipped(first_legs, roots, coins, site) {
                            flipped(basis[site])
                        } else {
                            basis[site]
                        },
                ),
                toggled_operators(operators, vertices, roots, coins, vertices.len() as int),
            )
        }),
{
    let n = operators.len() as int;
    let vertices = plan_vertices(operators, terms, partners, n);
    let updated = toggled_operators(operators, vertices, roots, coins, vertices.len() as int);
    let new_basis = Seq::new(
        basis.len(),
        |site: int|
            if site_flipped(first_legs, roots, coins, site) {
                flipped(basis[site])
            } else {
                basis[site]
            },
    );
    lemma_toggled_at(operators, terms, partners, roots, coins, n);
    assert(new_basis =~= flipped_lines(basis, operators, terms, roots, first_legs, coins, 0));
    lemma_update_prefix(
        terms,
        partners,
        num_sites,
        operators,
        basis,
        roots,
        first_legs,
        coins,
        updated,
        new_basis,
        n,
    );
    assert(updated.take(n) =~= updated);
    assert(operators.take(n) =~= operators);
    assert(prefix_state(terms, basis, operators, n) == basis);
    lemma_leg_labels_len(operators, terms, partners, n);
    assert forall|site: int| 0 <= site < num_sites implies line_flip(
        operators,
        terms,
        roots,
        first_legs,
        coins,
        n,
        site,
    ) == site_flipped(first_legs, roots, coins, site) by {
        lemma_first_last_agree(operators, terms, n, site);
        match last_leg_before(operators, terms, n, site) {
            Some(last) => {
                let first = first_leg_before(operators, terms, n, site)->0;
                lemma_line_legs_bounded(operators, terms, n, site);
                lemma_close_joins(
                    leg_labels(operators, terms, partners, n),
                    operators,
                    terms,
                    num_sites as int,
                    site,
                    first,
                    last,
                );
                assert(matches_leg(first_legs[site], first_leg_before(operators, terms, n, site)));
                assert(roots[first as int] == roots[last as int]);
            },
            None => {},
        }
    }
    assert(flipped_lines(basis, operators, terms, roots, first_legs, coins, n) =~= new_basis);
}


/// On a model structure that supports the transverse-field Ising cluster
/// update, that update keeps the trace closed: from a configuration whose
/// operator string propagates its boundary state back to itself, with the
/// clusters built from it and any coins, the flipped boundary state and the
/// toggled operator string again close the trace.
pub proof fn lemma_supported_cluster_update_keeps_trace_closed(
    structure: SseStructure,
    operators: Seq<Operator>,
    basis: Seq<Spin>,
    roots: Seq<nat>,
    first_legs: Seq<Option<usize>>,
    coins: Seq<bool>,
)
    requires
        structure.tfim_cluster(),
        basis.len() == structure.site_count(),
        4 * operators.len() <= usize::MAX,
        trace_closes(structure.term_seq(), basis, operators),
        roots.len() == leg_offset(operators, structure.term_seq(), operators.len() as int),
        same_partition(
            roots,
            cluster_labels(
                operators,
                structure.term_seq(),
                structure.partner_seq(),
                structure.site_count() as int,
            ),
        ),
        first_legs.len() == structure.site_count(),
        forall|s: int|
            0 <= s < structure.site_count() ==> matches_leg(
                #[trigger] first_legs[s],
                first_leg_before(operators, structure.term_seq(), operators.len() as int, s),
            ),
    ensures
        ({
            let terms = structure.term_seq();
            let vertices = plan_vertices(
                operators,
                terms,
                structure.partner_seq(),
                operators.len() as int,
            );
            trace_closes(
                terms,
                Seq::new(
                    basis.len(),
                    |site: int|
                        if site_flipped(first_legs, roots, coins, site) {
                            flipped(basis[site])
                        } else {
                            basis[site]
                        },
                ),
                toggled_operators(operators, vertices, roots, coins, vertices.len() as int),
            )
        }),
{
    structure.lemma_tfim_cluster_vertices();
    lemma_cluster_update_keeps_trace_closed(
        structure.term_seq(),
        structure.partner_seq(),
        structure.site_count() as nat,
        operators,
        basis,
        roots,
        first_legs,
        coins,
    );
}

/// Two operator strings with identities at the same positions have the same
/// expansion order.
proof fn lemma_same_identity_positions(first: Seq<Operator>, second: Seq<Operator>)
    requires
        first.len() == second.len(),
        forall|p: int|
            0 <= p < first.len() ==> (#[trigger] first[p].kind == OperatorKind::Identity) == (
            second[p].kind == OperatorKind::Identity),
    ensures
        expansion_order_of(first) == expansion_order_of(second),
    decreases first.len(),
{
    if first.len() > 0 {
        let a = first.drop_last();
        let b = second.drop_last();
        assert forall|p: int| 0 <= p < a.len() implies (#[trigger] a[p].kind == OperatorKind::Identity)
            == (b[p].kind == OperatorKind::Identity) by {
            assert(a[p] == first[p] && b[p] == second[p]);
        }
        lemma_same_identity_positions(a, b);
        assert(first.last() == first[first.len() - 1]);
        assert(second.last() == second[second.len() - 1]);
    }
}

/// The cluster update only exchanges transverse vertices for their partners
/// in place: every operator either stays or is replaced, at the same
/// position, by the partner of its term, so identities stay identities and
/// the expansion order is unchanged.
pub proof fn lemma_cluster_update_exchanges_vertices_in_place(
    terms: Seq<SseTermShape>,
    partners: Seq<Option<u32>>,
    num_sites: nat,
    operators: Seq<Operator>,
    roots: Seq<nat>,
    coins: Seq<bool>,
)
    requires
        valid_structure(terms, partners, num_sites),
        operators.len() <= usize::MAX,
        forall|p: int|
            0 <= p < operators.len() && #[trigger] operators[p].kind != OperatorKind::Identity
                ==> operators[p].term_index < terms.len(),
    ensures
        ({
            let vertices = plan_vertices(operators, terms, partners, operators.len() as int);
            let result = toggled_operators(operators, vertices, roots, coins, vertices.len() as int);
            &&& result.len() == operators.len()
            &&& forall|p: int|
                0 <= p < operators.len() ==> #[trigger] result[p] == operators[p] || {
                    &&& operators[p].kind != OperatorKind::Identity
                    &&& partners[operators[p].term_index as int] == Some(result[p].term_index)
                    &&& result[p].kind == terms[result[p].term_index as int].kind
                }
            &&& expansion_order_of(result) == expansion_order_of(operators)
        }),
{
    let n = operators.len() as int;
    let vertices = plan_vertices(operators, terms, partners, n);
    let result = toggled_operators(operators, vertices, roots, coins, vertices.len() as int);
    lemma_toggled_at(operators, terms, partners, roots, coins, n);
    assert forall|p: int| 0 <= p < n implies (#[trigger] result[p].kind == OperatorKind::Identity) == (
    operators[p].kind == OperatorKind::Identity) by {
        assert(result[p] == toggled_operator(operators, terms, partners, roots, coins, p));
        if operators[p].kind != OperatorKind::Identity {
            let t = operators[p].term_index as int;
            if partners[t] is Some {
                let q = partners[t]->0 as int;
                assert(0 <= q < terms.len());
            }
        }
    }
    assert forall|p: int| 0 <= p < n implies #[trigger] result[p] == operators[p] || {
        &&& operators[p].kind != OperatorKind::Identity
        &&& partners[operators[p].term_index as int] == Some(result[p].term_index)
        &&& result[p].kind == terms[result[p].term_index as int].kind
    } by {
        assert(result[p] == toggled_operator(operators, terms, partners, roots, coins, p));
    }
    lemma_same_identity_positions(result, operators);
}

/// A cluster update flips at most as many clusters as it identifies.
pub proof fn lemma_flipped_clusters_bounded(coins: Seq<bool>)
    ensures
        heads(coins) <= coins.len(),
    decreases coins.len(),
{
    if coins.len() > 0 {
        lemma_flipped_clusters_bounded(coins.drop_last());
    }
}

impl ClusterPlan {
    /// Applies the transverse-field Ising cluster update with the given
    /// coins and accepts it once the new configuration's trace validates.
    ///
    /// The state changes exactly as [`ClusterPlan::apply`] says. The result
    /// is `Ok` exactly when the new configuration closes its trace, and then
    /// reports one proposal, accepted. On a structure that supports the
    /// update, starting from a configuration that closes its trace, the
    /// update always succeeds, keeps the expansion order, and only replaces
    /// operators in place by the partners of their terms.
    pub fn apply_tfim(&mut self, state: &mut SSEState, model: &SseStructure, coins: &[bool]) -> (result:
        Result<ClusterSweepStats, SseModelError>)
        requires
            old(self).built_for(old(state).operator_seq(), *model),
            old(state).basis_seq().len() == model.site_count(),
            4 * old(state).operator_seq().len() <= usize::MAX,
            coins@.len() == coins_needed(old(self).first_legs(), old(self).leg_roots()),
        ensures
            final(self).wf(),
            final(state).basis_seq() == Seq::new(
                old(state).basis_seq().len(),
                |site: int|
                    if site_flipped(old(self).first_legs(), old(self).leg_roots(), coins@, site) {
                        flipped(old(state).basis_seq()[site])
                    } else {
                        old(state).basis_seq()[site]
                    },
            ),
            final(state).operator_seq() == toggled_operators(
                old(state).operator_seq(),
                old(self).vertex_seq(),
                old(self).leg_roots(),
                coins@,
                old(self).vertex_seq().len() as int,
            ),
            result is Ok <==> trace_closes(
                model.term_seq(),
                final(state).basis_seq(),
                final(state).operator_seq(),
            ),
            result matches Ok(stats) ==> stats == (ClusterSweepStats {
                clusters: coins@.len() as usize,
                flipped_clusters: heads(coins@) as usize,
                vertices_toggled: toggle_count(
                    old(self).vertex_seq(),
                    old(self).leg_roots(),
                    coins@,
                    old(self).vertex_seq().len() as int,
                ) as usize,
                proposals: 1,
                proposals_accepted: 1,
            }) && stats.flipped_clusters <= stats.clusters,
            result matches Err(error) ==> match propagate_through(
                model.term_seq(),
                final(state).basis_seq(),
                final(state).operator_seq(),
            ) {
                Ok(_) => error == SseModelError::TraceNotClosed,
                Err(fault) => error == fault,
            },
            model.tfim_cluster() && trace_closes(
                model.term_seq(),
                old(state).basis_seq(),
                old(state).operator_seq(),
            ) ==> {
                &&& result is Ok
                &&& expansion_order_of(final(state).operator_seq()) == expansion_order_of(
                    old(state).operator_seq(),
                )
                &&& forall|p: int|
                    0 <= p < old(state).operator_seq().len() ==> #[trigger] final(state).operator_seq()[p]
                        == old(state).operator_seq()[p] || {
                        let before = old(state).operator_seq()[p];
                        let after = final(state).operator_seq()[p];
                        &&& before.kind != OperatorKind::Identity
                        &&& model.partner_seq()[before.term_index as int] == Some(after.term_index)
                        &&& after.kind == model.term_seq()[after.term_index as int].kind
                    }
            },
    {
        let ghost operators = state.operator_seq();
        let ghost basis = state.basis_seq();
        let ghost roots = self.leg_roots();
        let ghost first_legs = self.first_legs();
        let coin_count = coins.len();
        let mut stats = self.apply(state, coins);
        proof {
            lemma_flipped_clusters_bounded(coins@);
            assert(coin_count == coins@.len());
            if model.tfim_cluster() && trace_closes(model.term_seq(), basis, operators) {
                lemma_supported_cluster_update_keeps_trace_closed(
                    *model,
                    operators,
                    basis,
                    roots,
                    first_legs,
                    coins@,
                );
                model.lemma_tfim_cluster_vertices();
                lemma_references_valid(operators, model.term_seq().len(), operators.len() as int);
                lemma_cluster_update_exchanges_vertices_in_place(
                    model.term_seq(),
                    model.partner_seq(),
                    model.site_count() as nat,
                    operators,
                    roots,
                    coins@,
                );
            }
        }
        match state.validate_trace(model) {
            Ok(()) => {
                stats.proposals_accepted = 1;
                Ok(stats)
            },
            Err(error) => Err(error),
        }
    }
}

} // verus!
