//! Linked world-line clusters of the transverse-field Ising update.
//!
//! Every vertex is broken into world-line legs. Consecutive legs on one site
//! are joined, bond vertices join all four of their legs, vertices without a
//! transverse partner join their two legs, and the last leg of every site is
//! joined to its first leg around the imaginary-time boundary. Each connected
//! component is then flipped or kept by one coin, drawn in order of first
//! appearance among the legs, and every site without legs gets a coin of its
//! own, drawn in site order. Flipping a component flips the boundary spins it
//! covers and toggles each matched transverse vertex whose incoming and
//! outgoing legs received different decisions.

use vstd::prelude::*;

use crate::labels::{flipped, OperatorKind, Spin};
use crate::sse::state::{Operator, SSEState};
use crate::sse::stats::ClusterSweepStats;
use crate::sse::union_find::{merge_classes, lemma_merge_joins_exactly, union_result, UnionFind};
use crate::sse::{sites_in_range, SseModelError, SseStructure, SseTermShape, SseTermSites};

verus! {

/// A vertex of the cluster construction.
#[derive(Clone, Copy, Debug)]
pub enum ClusterVertex {
    /// A single-site vertex with a transverse partner.
    Site {
        /// Position in the operator string.
        position: usize,
        /// Referenced term.
        term_index: usize,
        /// Leg below the vertex.
        incoming: usize,
        /// Leg above the vertex.
        outgoing: usize,
        /// The partner term that replaces the vertex when it is toggled.
        partner: u32,
        /// Classification of the partner term.
        partner_kind: OperatorKind,
    },
    /// Any vertex whose legs all move together.
    Bond,
}

/// Joins the world line of `site` from its previous leg to `incoming`, records
/// `incoming` as the first leg if the site had none, and makes `outgoing` the
/// site's last leg.
pub fn link_world_line(
    site: usize,
    incoming: usize,
    outgoing: usize,
    first_leg: &mut Vec<Option<usize>>,
    last_leg: &mut Vec<Option<usize>>,
    union_find: &mut UnionFind,
)
    requires
        old(union_find).wf(),
        site < old(first_leg)@.len(),
        site < old(last_leg)@.len(),
        incoming < old(union_find)@.len(),
        outgoing < old(union_find)@.len(),
        old(last_leg)@[site as int] matches Some(previous) ==> previous < old(union_find)@.len(),
    ensures
        final(union_find).wf(),
        final(union_find)@.len() == old(union_find)@.len(),
        final(last_leg)@ == old(last_leg)@.update(site as int, Some(outgoing)),
        match old(last_leg)@[site as int] {
            Some(previous) => final(first_leg)@ == old(first_leg)@ && union_result(
                old(union_find)@,
                previous as int,
                incoming as int,
                final(union_find)@,
            ),
            None => final(first_leg)@ == old(first_leg)@.update(site as int, Some(incoming))
                && final(union_find)@ == old(union_find)@,
        },
{
    match last_leg[site] {
        Some(previous) => {
            union_find.union(previous, incoming);
        },
        None => {
            first_leg.set(site, Some(incoming));
        },
    }
    last_leg.set(site, Some(outgoing));
}


/// Coin slot of every class among `roots`, numbered in order of first
/// appearance, together with the number of classes.
pub open spec fn slot_table(roots: Seq<nat>) -> (Map<nat, nat>, nat)
    decreases roots.len(),
{
    if roots.len() == 0 {
        (Map::empty(), 0)
    } else {
        let (table, count) = slot_table(roots.drop_last());
        let root = roots.last();
        if table.contains_key(root) {
            (table, count)
        } else {
            (table.insert(root, count), count + 1)
        }
    }
}

/// Number of sites before `site` that have no legs.
pub open spec fn free_rank(first_legs: Seq<Option<usize>>, site: int) -> nat
    decreases site,
{
    if site <= 0 {
        0
    } else {
        free_rank(first_legs, site - 1) + if first_legs[site - 1] is None {
            1nat
        } else {
            0nat
        }
    }
}

/// Number of coins a cluster update draws: one per class of legs and one per
/// site without legs.
pub open spec fn coins_needed(first_legs: Seq<Option<usize>>, roots: Seq<nat>) -> nat {
    slot_table(roots).1 + free_rank(first_legs, first_legs.len() as int)
}

/// Whether the class of `leg` is flipped.
pub open spec fn leg_flipped(roots: Seq<nat>, coins: Seq<bool>, leg: int) -> bool {
    coins[slot_table(roots).0[roots[leg]] as int]
}

/// Whether the boundary spin of `site` is flipped.
pub open spec fn site_flipped(
    first_legs: Seq<Option<usize>>,
    roots: Seq<nat>,
    coins: Seq<bool>,
    site: int,
) -> bool {
    match first_legs[site] {
        Some(leg) => leg_flipped(roots, coins, leg as int),
        None => coins[(slot_table(roots).1 + free_rank(first_legs, site)) as int],
    }
}

/// Whether a vertex is toggled to its transverse partner.
pub open spec fn vertex_toggled(vertex: ClusterVertex, roots: Seq<nat>, coins: Seq<bool>) -> bool {
    match vertex {
        ClusterVertex::Site { incoming, outgoing, .. } => leg_flipped(roots, coins, incoming as int)
            != leg_flipped(roots, coins, outgoing as int),
        ClusterVertex::Bond => false,
    }
}

/// The operator string after toggling the first `count` vertices.
pub open spec fn toggled_operators(
    operators: Seq<Operator>,
    vertices: Seq<ClusterVertex>,
    roots: Seq<nat>,
    coins: Seq<bool>,
    count: int,
) -> Seq<Operator>
    decreases count,
{
    if count <= 0 {
        operators
    } else {
        let before = toggled_operators(operators, vertices, roots, coins, count - 1);
        let vertex = vertices[count - 1];
        if vertex_toggled(vertex, roots, coins) {
            match vertex {
                ClusterVertex::Site { position, partner, partner_kind, .. } => before.update(
                    position as int,
                    Operator { kind: partner_kind, term_index: partner },
                ),
                ClusterVertex::Bond => before,
            }
        } else {
            before
        }
    }
}

/// Number of toggled vertices among the first `count`.
pub open spec fn toggle_count(vertices: Seq<ClusterVertex>, roots: Seq<nat>, coins: Seq<bool>, count: int) -> nat
    decreases count,
{
    if count <= 0 {
        0
    } else {
        toggle_count(vertices, roots, coins, count - 1) + if vertex_toggled(
            vertices[count - 1],
            roots,
            coins,
        ) {
            1nat
        } else {
            0nat
        }
    }
}

/// Number of `true` coins.
pub open spec fn heads(coins: Seq<bool>) -> nat
    decreases coins.len(),
{
    if coins.len() == 0 {
        0
    } else {
        heads(coins.drop_last()) + if coins.last() {
            1nat
        } else {
            0nat
        }
    }
}

proof fn lemma_slot_table_facts(roots: Seq<nat>)
    ensures
        forall|root: nat| #[trigger]
            slot_table(roots).0.contains_key(root) ==> slot_table(roots).0[root] < slot_table(
                roots,
            ).1,
        forall|k: int| 0 <= k < roots.len() ==> slot_table(roots).0.contains_key(#[trigger] roots[k]),
        forall|root: nat| #[trigger]
            slot_table(roots).0.contains_key(root) ==> exists|k: int|
                0 <= k < roots.len() && roots[k] == root,
        slot_table(roots).1 <= roots.len(),
    decreases roots.len(),
{
    if roots.len() > 0 {
        let prefix = roots.drop_last();
        lemma_slot_table_facts(prefix);
        assert forall|k: int| 0 <= k < roots.len() implies slot_table(roots).0.contains_key(
            #[trigger] roots[k],
        ) by {
            if k < roots.len() - 1 {
                assert(prefix[k] == roots[k]);
            }
        }
        assert forall|root: nat| #[trigger]
            slot_table(roots).0.contains_key(root) implies exists|k: int|
                0 <= k < roots.len() && roots[k] == root by {
            if slot_table(prefix).0.contains_key(root) {
                let k = choose|k: int| 0 <= k < prefix.len() && prefix[k] == root;
                assert(roots[k] == root);
            } else {
                assert(roots[roots.len() - 1] == root);
            }
        }
    }
}

proof fn lemma_slot_table_prefix(roots: Seq<nat>, count: int)
    requires
        0 <= count <= roots.len(),
    ensures
        slot_table(roots.take(count)).1 <= slot_table(roots).1,
        forall|root: nat| #[trigger]
            slot_table(roots.take(count)).0.contains_key(root) ==> slot_table(roots).0.contains_key(
                root,
            ) && slot_table(roots).0[root] == slot_table(roots.take(count)).0[root],
    decreases roots.len() - count,
{
    if count < roots.len() {
        lemma_slot_table_prefix(roots, count + 1);
        assert(roots.take(count + 1).drop_last() =~= roots.take(count));
        let table = slot_table(roots.take(count)).0;
        let longer = slot_table(roots.take(count + 1)).0;
        assert forall|root: nat| #[trigger] table.contains_key(root) implies longer.contains_key(root)
            && longer[root] == table[root] by {}
    } else {
        assert(roots.take(count) =~= roots);
    }
}

proof fn lemma_free_rank_bounded(first_legs: Seq<Option<usize>>, site: int)
    requires
        0 <= site <= first_legs.len(),
    ensures
        free_rank(first_legs, site) <= site,
        forall|other: int| 0 <= other <= site ==> free_rank(first_legs, other) <= free_rank(first_legs, site),
    decreases site,
{
    if site > 0 {
        lemma_free_rank_bounded(first_legs, site - 1);
    }
}

proof fn lemma_heads_push(coins: Seq<bool>, count: int)
    requires
        0 <= count < coins.len(),
    ensures
        heads(coins.take(count + 1)) == heads(coins.take(count)) + if coins[count] {
            1nat
        } else {
            0nat
        },
{
    assert(coins.take(count + 1).drop_last() =~= coins.take(count));
}

/// Number of world-line legs of one operator: none for an identity entry,
/// two for a single-site term and four for a bond.
pub open spec fn vertex_legs(operator: Operator, terms: Seq<SseTermShape>) -> nat {
    if operator.kind == OperatorKind::Identity {
        0
    } else {
        match terms[operator.term_index as int].sites {
            SseTermSites::Site(_) => 2,
            SseTermSites::Bond(_, _) => 4,
        }
    }
}

/// Number of legs of the first `count` operators, which is also the number
/// of the first leg of operator `count`.
pub open spec fn leg_offset(operators: Seq<Operator>, terms: Seq<SseTermShape>, count: int) -> nat
    decreases count,
{
    if count <= 0 {
        0
    } else {
        leg_offset(operators, terms, count - 1) + vertex_legs(operators[count - 1], terms)
    }
}

/// Whether the operator at `position` acts on `site`.
pub open spec fn touches(operators: Seq<Operator>, terms: Seq<SseTermShape>, position: int, site: int) -> bool {
    let operator = operators[position];
    &&& operator.kind != OperatorKind::Identity
    &&& match terms[operator.term_index as int].sites {
        SseTermSites::Site(s) => s == site,
        SseTermSites::Bond(i, j) => i == site || j == site,
    }
}

/// The leg entering the operator at `position` on `site`: the first leg of
/// the operator, or its third leg for the second site of a bond. The leg
/// leaving it is the next one.
pub open spec fn incoming_leg(operators: Seq<Operator>, terms: Seq<SseTermShape>, position: int, site: int) -> nat {
    leg_offset(operators, terms, position) + match terms[operators[position].term_index as int].sites {
        SseTermSites::Bond(i, j) => if j == site && i != site {
            2nat
        } else {
            0nat
        },
        SseTermSites::Site(_) => 0nat,
    }
}

/// The leg leaving the last operator before `count` that acts on `site`.
pub open spec fn last_leg_before(operators: Seq<Operator>, terms: Seq<SseTermShape>, count: int, site: int) -> Option<nat>
    decreases count,
{
    if count <= 0 {
        None
    } else if touches(operators, terms, count - 1, site) {
        Some(incoming_leg(operators, terms, count - 1, site) + 1)
    } else {
        last_leg_before(operators, terms, count - 1, site)
    }
}

/// The leg entering the first operator before `count` that acts on `site`.
pub open spec fn first_leg_before(operators: Seq<Operator>, terms: Seq<SseTermShape>, count: int, site: int) -> Option<nat>
    decreases count,
{
    if count <= 0 {
        None
    } else {
        match first_leg_before(operators, terms, count - 1, site) {
            Some(leg) => Some(leg),
            None => if touches(operators, terms, count - 1, site) {
                Some(incoming_leg(operators, terms, count - 1, site))
            } else {
                None
            },
        }
    }
}

/// Puts `x` and `y` in one class of the labelling `labels`.
pub open spec fn join(labels: Seq<nat>, x: int, y: int) -> Seq<nat> {
    if labels[x] == labels[y] {
        labels
    } else {
        merge_classes(labels, labels[x], labels[y])
    }
}

/// Joins `leg` to the previous leg of its world line, if there is one.
pub open spec fn link(labels: Seq<nat>, previous: Option<nat>, leg: nat) -> Seq<nat> {
    match previous {
        Some(p) => join(labels, p as int, leg as int),
        None => labels,
    }
}

/// The joins made for the operator at `position`, whose legs are already in
/// `labels`: its world lines are linked to their previous legs, a bond joins
/// its four legs, and a single-site vertex without a transverse partner
/// joins its two legs.
pub open spec fn vertex_joins(
    labels: Seq<nat>,
    operators: Seq<Operator>,
    terms: Seq<SseTermShape>,
    partners: Seq<Option<u32>>,
    position: int,
) -> Seq<nat> {
    let o = leg_offset(operators, terms, position) as int;
    let index = operators[position].term_index as int;
    match terms[index].sites {
        SseTermSites::Site(s) => {
            let linked = link(labels, last_leg_before(operators, terms, position, s as int), o as nat);
            if partners[index] is Some {
                linked
            } else {
                join(linked, o, o + 1)
            }
        },
        SseTermSites::Bond(i, j) => {
            let first = link(labels, last_leg_before(operators, terms, position, i as int), o as nat);
            let second = link(first, last_leg_before(operators, terms, position, j as int), (o + 2) as nat);
            join(join(join(second, o, o + 1), o, o + 2), o, o + 3)
        },
    }
}

/// Class labels of the legs of the first `count` operators, every new leg
/// starting in a class of its own.
pub open spec fn leg_labels(
    operators: Seq<Operator>,
    terms: Seq<SseTermShape>,
    partners: Seq<Option<u32>>,
    count: int,
) -> Seq<nat>
    decreases count,
{
    if count <= 0 {
        Seq::empty()
    } else {
        let before = leg_labels(operators, terms, partners, count - 1);
        if operators[count - 1].kind == OperatorKind::Identity {
            before
        } else {
            let o = leg_offset(operators, terms, count - 1);
            let pushed = before + Seq::new(
                vertex_legs(operators[count - 1], terms),
                |k: int| (o + k) as nat,
            );
            vertex_joins(pushed, operators, terms, partners, count - 1)
        }
    }
}

/// Joins the last leg of each of the first `count` sites to its first leg.
pub open spec fn close_world_lines(
    labels: Seq<nat>,
    operators: Seq<Operator>,
    terms: Seq<SseTermShape>,
    count: int,
) -> Seq<nat>
    decreases count,
{
    if count <= 0 {
        labels
    } else {
        let before = close_world_lines(labels, operators, terms, count - 1);
        let n = operators.len() as int;
        match (first_leg_before(operators, terms, n, count - 1), last_leg_before(operators, terms, n, count - 1)) {
            (Some(first), Some(last)) => join(before, first as int, last as int),
            _ => before,
        }
    }
}

/// Class labels of all legs of an operator string on `num_sites` sites.
pub open spec fn cluster_labels(
    operators: Seq<Operator>,
    terms: Seq<SseTermShape>,
    partners: Seq<Option<u32>>,
    num_sites: int,
) -> Seq<nat> {
    close_world_lines(
        leg_labels(operators, terms, partners, operators.len() as int),
        operators,
        terms,
        num_sites,
    )
}

/// Whether two labellings of the same legs have the same classes.
pub open spec fn same_partition(roots: Seq<nat>, labels: Seq<nat>) -> bool {
    &&& roots.len() == labels.len()
    &&& forall|a: int, b: int|
        0 <= a < roots.len() && 0 <= b < roots.len() ==> (#[trigger] roots[a] == #[trigger] roots[b])
            == (labels[a] == labels[b])
}

/// Every label names a leg.
pub open spec fn labels_bounded(labels: Seq<nat>) -> bool {
    forall|i: int| 0 <= i < labels.len() ==> #[trigger] labels[i] < labels.len()
}

/// The vertex recorded for the operator at `position`.
pub open spec fn vertex_of(
    operators: Seq<Operator>,
    terms: Seq<SseTermShape>,
    partners: Seq<Option<u32>>,
    position: int,
) -> ClusterVertex {
    let index = operators[position].term_index as int;
    let o = leg_offset(operators, terms, position);
    match (terms[index].sites, partners[index]) {
        (SseTermSites::Site(_), Some(partner)) => ClusterVertex::Site {
            position: position as usize,
            term_index: index as usize,
            incoming: o as usize,
            outgoing: (o + 1) as usize,
            partner,
            partner_kind: terms[partner as int].kind,
        },
        _ => ClusterVertex::Bond,
    }
}

/// The vertices of the non-identity operators among the first `count`.
pub open spec fn plan_vertices(
    operators: Seq<Operator>,
    terms: Seq<SseTermShape>,
    partners: Seq<Option<u32>>,
    count: int,
) -> Seq<ClusterVertex>
    decreases count,
{
    if count <= 0 {
        Seq::empty()
    } else if operators[count - 1].kind == OperatorKind::Identity {
        plan_vertices(operators, terms, partners, count - 1)
    } else {
        plan_vertices(operators, terms, partners, count - 1).push(
            vertex_of(operators, terms, partners, count - 1),
        )
    }
}

/// The first position before `count` whose operator refers to no term.
pub open spec fn reference_fault(operators: Seq<Operator>, num_terms: nat, count: int) -> Option<int>
    decreases count,
{
    if count <= 0 {
        None
    } else {
        match reference_fault(operators, num_terms, count - 1) {
            Some(p) => Some(p),
            None => if operators[count - 1].kind != OperatorKind::Identity
                && operators[count - 1].term_index >= num_terms {
                Some(count - 1)
            } else {
                None
            },
        }
    }
}

proof fn lemma_join_tracks_union(before: Seq<nat>, after: Seq<nat>, labels: Seq<nat>, x: int, y: int)
    requires
        same_partition(before, labels),
        labels_bounded(labels),
        0 <= x < before.len(),
        0 <= y < before.len(),
        union_result(before, x, y, after),
    ensures
        same_partition(after, join(labels, x, y)),
        labels_bounded(join(labels, x, y)),
{
    if before[x] != before[y] {
        let joined = join(labels, x, y);
        assert(labels[x] != labels[y]);
        assert forall|a: int, b: int|
            0 <= a < after.len() && 0 <= b < after.len() implies (#[trigger] after[a]
            == #[trigger] after[b]) == (joined[a] == joined[b]) by {
            lemma_merge_joins_exactly(labels, labels[x], labels[y], a, b);
            if after == merge_classes(before, before[x], before[y]) {
                lemma_merge_joins_exactly(before, before[x], before[y], a, b);
            } else {
                lemma_merge_joins_exactly(before, before[y], before[x], a, b);
            }
        }
        assert forall|i: int| 0 <= i < joined.len() implies #[trigger] joined[i] < joined.len() by {
            assert(labels[i] < labels.len());
        }
    }
}

proof fn lemma_push_fresh(roots: Seq<nat>, labels: Seq<nat>)
    requires
        same_partition(roots, labels),
        labels_bounded(labels),
        forall|i: int| 0 <= i < roots.len() ==> #[trigger] roots[i] < roots.len(),
    ensures
        same_partition(roots.push(roots.len()), labels.push(labels.len())),
        labels_bounded(labels.push(labels.len())),
{
    let r = roots.push(roots.len());
    let l = labels.push(labels.len());
    assert forall|a: int, b: int| 0 <= a < r.len() && 0 <= b < r.len() implies (#[trigger] r[a]
        == #[trigger] r[b]) == (l[a] == l[b]) by {
        if a < roots.len() {
            assert(r[a] == roots[a] && l[a] == labels[a]);
            assert(labels[a] < labels.len());
        }
        if b < roots.len() {
            assert(r[b] == roots[b] && l[b] == labels[b]);
            assert(labels[b] < labels.len());
        }
    }
    assert forall|i: int| 0 <= i < l.len() implies #[trigger] l[i] < l.len() by {
        if i < labels.len() {
            assert(l[i] == labels[i]);
        }
    }
}

/// Whether a recorded leg agrees with the leg the specification names.
pub open spec fn matches_leg(actual: Option<usize>, expected: Option<nat>) -> bool {
    match actual {
        Some(leg) => expected == Some(leg as nat),
        None => expected is None,
    }
}

/// The state of the construction after the first `count` operators.
spec fn build_state(
    roots: Seq<nat>,
    first: Seq<Option<usize>>,
    last: Seq<Option<usize>>,
    vertices: Seq<ClusterVertex>,
    operators: Seq<Operator>,
    terms: Seq<SseTermShape>,
    partners: Seq<Option<u32>>,
    num_sites: int,
    count: int,
) -> bool {
    let labels = leg_labels(operators, terms, partners, count);
    &&& roots.len() == leg_offset(operators, terms, count)
    &&& same_partition(roots, labels)
    &&& labels_bounded(labels)
    &&& first.len() == num_sites
    &&& last.len() == num_sites
    &&& forall|s: int|
        0 <= s < num_sites ==> matches_leg(#[trigger] first[s], first_leg_before(operators, terms, count, s))
    &&& forall|s: int|
        0 <= s < num_sites ==> matches_leg(#[trigger] last[s], last_leg_before(operators, terms, count, s))
    &&& forall|s: int| 0 <= s < num_sites ==> (#[trigger] first[s] matches Some(leg) ==> leg < roots.len())
    &&& forall|s: int| 0 <= s < num_sites ==> (#[trigger] last[s] matches Some(leg) ==> leg < roots.len())
    &&& vertices == plan_vertices(operators, terms, partners, count)
    &&& forall|k: int|
        0 <= k < vertices.len() ==> (#[trigger] vertices[k] matches ClusterVertex::Site {
            position,
            incoming,
            outgoing,
            ..
        } ==> position < count && incoming < roots.len() && outgoing < roots.len())
    &&& forall|k: int, l: int|
        0 <= k < l < vertices.len() ==> (#[trigger] vertices[k] matches ClusterVertex::Site {
            position: p,
            ..
        } ==> (#[trigger] vertices[l] matches ClusterVertex::Site { position: q, .. } ==> p < q))
}

pub(crate) proof fn lemma_offset_bounded(operators: Seq<Operator>, terms: Seq<SseTermShape>, count: int)
    requires
        0 <= count,
    ensures
        leg_offset(operators, terms, count) <= 4 * count,
    decreases count,
{
    if count > 0 {
        lemma_offset_bounded(operators, terms, count - 1);
    }
}

pub(crate) proof fn lemma_first_last_agree(operators: Seq<Operator>, terms: Seq<SseTermShape>, count: int, site: int)
    ensures
        first_leg_before(operators, terms, count, site) is Some <==> last_leg_before(
            operators,
            terms,
            count,
            site,
        ) is Some,
    decreases count,
{
    if count > 0 {
        lemma_first_last_agree(operators, terms, count - 1, site);
    }
}

/// Without a reference fault, every non-identity operator before `count`
/// refers to an existing term.
pub(crate) proof fn lemma_references_valid(operators: Seq<Operator>, num_terms: nat, count: int)
    requires
        0 <= count <= operators.len(),
        reference_fault(operators, num_terms, count) is None,
    ensures
        forall|p: int|
            0 <= p < count && #[trigger] operators[p].kind != OperatorKind::Identity
                ==> operators[p].term_index < num_terms,
    decreases count,
{
    if count > 0 {
        lemma_references_valid(operators, num_terms, count - 1);
    }
}

proof fn lemma_reference_fault_persists(operators: Seq<Operator>, num_terms: nat, count: int, later: int)
    requires
        0 <= count <= later,
        reference_fault(operators, num_terms, count) is Some,
    ensures
        reference_fault(operators, num_terms, later) == reference_fault(operators, num_terms, count),
    decreases later - count,
{
    if later > count {
        lemma_reference_fault_persists(operators, num_terms, count, later - 1);
    }
}

proof fn lemma_identity_step(
    roots: Seq<nat>,
    first: Seq<Option<usize>>,
    last: Seq<Option<usize>>,
    vertices: Seq<ClusterVertex>,
    operators: Seq<Operator>,
    terms: Seq<SseTermShape>,
    partners: Seq<Option<u32>>,
    num_sites: int,
    count: int,
)
    requires
        0 <= count < operators.len(),
        operators[count].kind == OperatorKind::Identity,
        build_state(roots, first, last, vertices, operators, terms, partners, num_sites, count),
    ensures
        build_state(roots, first, last, vertices, operators, terms, partners, num_sites, count + 1),
{
    assert forall|s: int| 0 <= s < num_sites implies matches_leg(
        #[trigger] first[s],
        first_leg_before(operators, terms, count + 1, s),
    ) by {
        assert(!touches(operators, terms, count, s));
    }
    assert forall|s: int| 0 <= s < num_sites implies matches_leg(
        #[trigger] last[s],
        last_leg_before(operators, terms, count + 1, s),
    ) by {
        assert(!touches(operators, terms, count, s));
    }
}

/// Adds the two legs of a single-site vertex, links them into the site's
/// world line, and records the vertex.
fn add_site_vertex(
    model: &SseStructure,
    operators: &[Operator],
    position: usize,
    term_index: usize,
    site: u32,
    union_find: &mut UnionFind,
    first_leg: &mut Vec<Option<usize>>,
    last_leg: &mut Vec<Option<usize>>,
    vertices: &mut Vec<ClusterVertex>,
)
    requires
        position < operators@.len(),
        operators@[position as int].kind != OperatorKind::Identity,
        operators@[position as int].term_index == term_index,
        term_index < model.term_seq().len(),
        model.term_seq()[term_index as int].sites == SseTermSites::Site(site),
        old(union_find).wf(),
        build_state(
            old(union_find)@,
            old(first_leg)@,
            old(last_leg)@,
            old(vertices)@,
            operators@,
            model.term_seq(),
            model.partner_seq(),
            model.site_count() as int,
            position as int,
        ),
        leg_offset(operators@, model.term_seq(), position + 1) < usize::MAX,
    ensures
        final(union_find).wf(),
        build_state(
            final(union_find)@,
            final(first_leg)@,
            final(last_leg)@,
            final(vertices)@,
            operators@,
            model.term_seq(),
            model.partner_seq(),
            model.site_count() as int,
            position + 1,
        ),
{
    let ghost ops = operators@;
    let ghost terms = model.term_seq();
    let ghost partners = model.partner_seq();
    let ghost num_sites = model.site_count() as int;
    let ghost p = position as int;
    let ghost labels = leg_labels(ops, terms, partners, p);
    let ghost o = leg_offset(ops, terms, p);
    let ghost old_first = first_leg@;
    let ghost old_last = last_leg@;
    let ghost old_vertices = vertices@;
    model.structure_facts();
    proof {
        assert(sites_in_range(terms[term_index as int].sites, num_sites as nat));
        union_find.lemma_representatives();
        lemma_push_fresh(union_find@, labels);
    }
    let incoming = union_find.add();
    proof {
        union_find.lemma_representatives();
        lemma_push_fresh(union_find@, labels.push(o));
    }
    let outgoing = union_find.add();
    let ghost pushed = labels.push(o).push(o + 1);
    let ghost previous = last_leg_before(ops, terms, p, site as int);
    proof {
        assert(pushed =~= labels + Seq::new(vertex_legs(ops[p], terms), |k: int| (o + k) as nat));
        assert(matches_leg(old_last[site as int], previous));
    }
    let ghost before_link = union_find@;
    link_world_line(site as usize, incoming, outgoing, first_leg, last_leg, union_find);
    let ghost linked = link(pushed, previous, o);
    proof {
        match old_last[site as int] {
            Some(prev) => {
                lemma_join_tracks_union(before_link, union_find@, pushed, prev as int, incoming as int);
            },
            None => {},
        }
    }
    match model.transverse_partner(term_index) {
        Some(partner) => {
            let partner_kind = match model.operator_kind(partner as usize) {
                Ok(kind) => kind,
                Err(_) => {
                    proof {
                        assert(false);
                    }
                    OperatorKind::Identity
                },
            };
            vertices.push(
                ClusterVertex::Site { position, term_index, incoming, outgoing, partner, partner_kind },
            );
            proof {
                assert(vertex_joins(pushed, ops, terms, partners, p) == linked);
            }
        },
        None => {
            let ghost before_union = union_find@;
            union_find.union(incoming, outgoing);
            proof {
                lemma_join_tracks_union(before_union, union_find@, linked, incoming as int, outgoing as int);
                assert(vertex_joins(pushed, ops, terms, partners, p) == join(linked, o as int, o as int + 1));
            }
            vertices.push(ClusterVertex::Bond);
        },
    }
    proof {
        let n = union_find@.len();
        assert(leg_labels(ops, terms, partners, p + 1) == vertex_joins(pushed, ops, terms, partners, p));
        assert forall|s: int| 0 <= s < num_sites implies matches_leg(
            #[trigger] first_leg@[s],
            first_leg_before(ops, terms, p + 1, s),
        ) && (first_leg@[s] matches Some(leg) ==> leg < n) by {
            if s != site {
                assert(!touches(ops, terms, p, s));
                assert(first_leg@[s] == old_first[s]);
            } else {
                lemma_first_last_agree(ops, terms, p, s);
                assert(touches(ops, terms, p, s));
            }
        }
        assert forall|s: int| 0 <= s < num_sites implies matches_leg(
            #[trigger] last_leg@[s],
            last_leg_before(ops, terms, p + 1, s),
        ) && (last_leg@[s] matches Some(leg) ==> leg < n) by {
            if s != site {
                assert(!touches(ops, terms, p, s));
                assert(last_leg@[s] == old_last[s]);
            } else {
                assert(touches(ops, terms, p, s));
            }
        }
        let vs = vertices@;
        assert(vs == old_vertices.push(vertex_of(ops, terms, partners, p)));
        assert forall|k: int|
            0 <= k < vs.len() implies (#[trigger] vs[k] matches ClusterVertex::Site {
                position,
                incoming,
                outgoing,
                ..
            } ==> position < p + 1 && incoming < n && outgoing < n) by {
            if k < old_vertices.len() {
                assert(vs[k] == old_vertices[k]);
            }
        }
        assert forall|k: int, l: int|
            0 <= k < l < vs.len() implies (#[trigger] vs[k] matches ClusterVertex::Site {
                position: pk,
                ..
            } ==> (#[trigger] vs[l] matches ClusterVertex::Site { position: q, .. } ==> pk < q)) by {
            assert(vs[k] == old_vertices[k]);
            if l < old_vertices.len() {
                assert(vs[l] == old_vertices[l]);
            }
        }
    }
}

/// Adds the four legs of a bond vertex, links them into the world lines of
/// both sites, joins all four, and records the vertex.
fn add_bond_vertex(
    model: &SseStructure,
    operators: &[Operator],
    position: usize,
    term_index: usize,
    first_site: u32,
    second_site: u32,
    union_find: &mut UnionFind,
    first_leg: &mut Vec<Option<usize>>,
    last_leg: &mut Vec<Option<usize>>,
    vertices: &mut Vec<ClusterVertex>,
)
    requires
        position < operators@.len(),
        operators@[position as int].kind != OperatorKind::Identity,
        operators@[position as int].term_index == term_index,
        term_index < model.term_seq().len(),
        model.term_seq()[term_index as int].sites == SseTermSites::Bond(first_site, second_site),
        old(union_find).wf(),
        build_state(
            old(union_find)@,
            old(first_leg)@,
            old(last_leg)@,
            old(vertices)@,
            operators@,
            model.term_seq(),
            model.partner_seq(),
            model.site_count() as int,
            position as int,
        ),
        leg_offset(operators@, model.term_seq(), position + 1) < usize::MAX,
    ensures
        final(union_find).wf(),
        build_state(
            final(union_find)@,
            final(first_leg)@,
            final(last_leg)@,
            final(vertices)@,
            operators@,
            model.term_seq(),
            model.partner_seq(),
            model.site_count() as int,
            position + 1,
        ),
{
    let ghost ops = operators@;
    let ghost terms = model.term_seq();
    let ghost partners = model.partner_seq();
    let ghost num_sites = model.site_count() as int;
    let ghost p = position as int;
    let ghost labels = leg_labels(ops, terms, partners, p);
    let ghost o = leg_offset(ops, terms, p);
    let ghost old_first = first_leg@;
    let ghost old_last = last_leg@;
    let ghost old_vertices = vertices@;
    model.structure_facts();
    proof {
        assert(sites_in_range(terms[term_index as int].sites, num_sites as nat));
        assert(first_site != second_site);
        union_find.lemma_representatives();
        lemma_push_fresh(union_find@, labels);
    }
    let first_in = union_find.add();
    proof {
        union_find.lemma_representatives();
        lemma_push_fresh(union_find@, labels.push(o));
    }
    let first_out = union_find.add();
    proof {
        union_find.lemma_representatives();
        lemma_push_fresh(union_find@, labels.push(o).push(o + 1));
    }
    let second_in = union_find.add();
    proof {
        union_find.lemma_representatives();
        lemma_push_fresh(union_find@, labels.push(o).push(o + 1).push(o + 2));
    }
    let second_out = union_find.add();
    let ghost pushed = labels.push(o).push(o + 1).push(o + 2).push(o + 3);
    let ghost first_previous = last_leg_before(ops, terms, p, first_site as int);
    let ghost second_previous = last_leg_before(ops, terms, p, second_site as int);
    proof {
        assert(pushed =~= labels + Seq::new(vertex_legs(ops[p], terms), |k: int| (o + k) as nat));
        assert(matches_leg(old_last[first_site as int], first_previous));
        assert(matches_leg(old_last[second_site as int], second_previous));
    }
    let ghost before_first = union_find@;
    link_world_line(first_site as usize, first_in, first_out, first_leg, last_leg, union_find);
    let ghost linked_first = link(pushed, first_previous, o);
    proof {
        match old_last[first_site as int] {
            Some(prev) => {
                lemma_join_tracks_union(before_first, union_find@, pushed, prev as int, first_in as int);
            },
            None => {},
        }
    }
    let ghost mid_first = first_leg@;
    let ghost mid_last = last_leg@;
    let ghost before_second = union_find@;
    link_world_line(second_site as usize, second_in, second_out, first_leg, last_leg, union_find);
    let ghost linked_second = link(linked_first, second_previous, (o + 2) as nat);
    proof {
        assert(mid_last[second_site as int] == old_last[second_site as int]);
        match old_last[second_site as int] {
            Some(prev) => {
                lemma_join_tracks_union(
                    before_second,
                    union_find@,
                    linked_first,
                    prev as int,
                    second_in as int,
                );
            },
            None => {},
        }
    }
    let ghost before_a = union_find@;
    union_find.union(first_in, first_out);
    let ghost joined_a = join(linked_second, o as int, o as int + 1);
    proof {
        lemma_join_tracks_union(before_a, union_find@, linked_second, first_in as int, first_out as int);
    }
    let ghost before_b = union_find@;
    union_find.union(first_in, second_in);
    let ghost joined_b = join(joined_a, o as int, o as int + 2);
    proof {
        lemma_join_tracks_union(before_b, union_find@, joined_a, first_in as int, second_in as int);
    }
    let ghost before_c = union_find@;
    union_find.union(first_in, second_out);
    proof {
        lemma_join_tracks_union(before_c, union_find@, joined_b, first_in as int, second_out as int);
    }
    vertices.push(ClusterVertex::Bond);
    proof {
        let n = union_find@.len();
        assert(vertex_joins(pushed, ops, terms, partners, p) == join(joined_b, o as int, o as int + 3));
        assert(leg_labels(ops, terms, partners, p + 1) == vertex_joins(pushed, ops, terms, partners, p));
        assert forall|s: int| 0 <= s < num_sites implies matches_leg(
            #[trigger] first_leg@[s],
            first_leg_before(ops, terms, p + 1, s),
        ) && (first_leg@[s] matches Some(leg) ==> leg < n) by {
            if s != first_site && s != second_site {
                assert(!touches(ops, terms, p, s));
                assert(first_leg@[s] == old_first[s]);
            } else {
                lemma_first_last_agree(ops, terms, p, s);
                assert(touches(ops, terms, p, s));
                if s == first_site {
                    assert(first_leg@[s] == mid_first[s]);
                }
            }
        }
        assert forall|s: int| 0 <= s < num_sites implies matches_leg(
            #[trigger] last_leg@[s],
            last_leg_before(ops, terms, p + 1, s),
        ) && (last_leg@[s] matches Some(leg) ==> leg < n) by {
            if s != first_site && s != second_site {
                assert(!touches(ops, terms, p, s));
                assert(last_leg@[s] == old_last[s]);
            } else {
                assert(touches(ops, terms, p, s));
                if s == first_site {
                    assert(last_leg@[s] == mid_last[s]);
                }
            }
        }
        let vs = vertices@;
        assert(vs == old_vertices.push(vertex_of(ops, terms, partners, p)));
        assert forall|k: int|
            0 <= k < vs.len() implies (#[trigger] vs[k] matches ClusterVertex::Site {
                position,
                incoming,
                outgoing,
                ..
            } ==> position < p + 1 && incoming < n && outgoing < n) by {
            if k < old_vertices.len() {
                assert(vs[k] == old_vertices[k]);
            }
        }
        assert forall|k: int, l: int|
            0 <= k < l < vs.len() implies (#[trigger] vs[k] matches ClusterVertex::Site {
                position: pk,
                ..
            } ==> (#[trigger] vs[l] matches ClusterVertex::Site { position: q, .. } ==> pk < q)) by {
            assert(vs[k] == old_vertices[k]);
            if l < old_vertices.len() {
                assert(vs[l] == old_vertices[l]);
            }
        }
    }
}

proof fn lemma_slot_table_classes(first: Seq<nat>, second: Seq<nat>)
    requires
        same_partition(first, second),
    ensures
        slot_table(first).1 == slot_table(second).1,
        forall|a: int|
            0 <= a < first.len() ==> slot_table(first).0[#[trigger] first[a]] == slot_table(
                second,
            ).0[second[a]],
    decreases first.len(),
{
    if first.len() > 0 {
        let head1 = first.drop_last();
        let head2 = second.drop_last();
        let last = first.len() - 1;
        assert(same_partition(head1, head2)) by {
            assert forall|a: int, b: int|
                0 <= a < head1.len() && 0 <= b < head1.len() implies (#[trigger] head1[a]
                == #[trigger] head1[b]) == (head2[a] == head2[b]) by {
                assert(head1[a] == first[a] && head1[b] == first[b]);
                assert(head2[a] == second[a] && head2[b] == second[b]);
            }
        }
        lemma_slot_table_classes(head1, head2);
        lemma_slot_table_facts(head1);
        lemma_slot_table_facts(head2);
        let x1 = first[last];
        let x2 = second[last];
        let table1 = slot_table(head1).0;
        let table2 = slot_table(head2).0;
        if table1.contains_key(x1) {
            let k = choose|k: int| 0 <= k < head1.len() && head1[k] == x1;
            assert(first[k] == first[last]);
            assert(second[k] == second[last]);
            assert(head2[k] == x2);
            assert(table2.contains_key(x2));
            assert forall|a: int| 0 <= a < first.len() implies slot_table(first).0[#[trigger] first[a]]
                == slot_table(second).0[second[a]] by {
                if a < last {
                    assert(head1[a] == first[a] && head2[a] == second[a]);
                } else {
                    assert(head1[k] == first[a] && head2[k] == second[a]);
                }
            }
        } else {
            assert(!table2.contains_key(x2)) by {
                if table2.contains_key(x2) {
                    let k = choose|k: int| 0 <= k < head2.len() && head2[k] == x2;
                    assert(second[k] == second[last]);
                    assert(first[k] == first[last]);
                    assert(head1[k] == x1);
                }
            }
            assert forall|a: int| 0 <= a < first.len() implies slot_table(first).0[#[trigger] first[a]]
                == slot_table(second).0[second[a]] by {
                if a < last {
                    assert(head1[a] == first[a] && head2[a] == second[a]);
                    assert(first[a] != x1);
                    assert(second[a] != x2);
                }
            }
        }
    }
}

/// The decisions of a cluster update depend only on which legs share a
/// class, not on which leg represents a class: two representative sequences
/// with the same classes need the same number of coins, flip the same legs
/// and sites, and toggle the same vertices.
pub proof fn lemma_decisions_depend_only_on_classes(
    first: Seq<nat>,
    second: Seq<nat>,
    first_legs: Seq<Option<usize>>,
    coins: Seq<bool>,
    operators: Seq<Operator>,
    vertices: Seq<ClusterVertex>,
)
    requires
        same_partition(first, second),
        forall|s: int|
            0 <= s < first_legs.len() ==> (#[trigger] first_legs[s] matches Some(leg) ==> leg
                < first.len()),
        forall|k: int|
            0 <= k < vertices.len() ==> (#[trigger] vertices[k] matches ClusterVertex::Site {
                incoming,
                outgoing,
                ..
            } ==> incoming < first.len() && outgoing < first.len()),
    ensures
        coins_needed(first_legs, first) == coins_needed(first_legs, second),
        forall|leg: int|
            0 <= leg < first.len() ==> #[trigger] leg_flipped(first, coins, leg) == leg_flipped(
                second,
                coins,
                leg,
            ),
        forall|s: int|
            0 <= s < first_legs.len() ==> #[trigger] site_flipped(first_legs, first, coins, s)
                == site_flipped(first_legs, second, coins, s),
        toggled_operators(operators, vertices, first, coins, vertices.len() as int)
            == toggled_operators(operators, vertices, second, coins, vertices.len() as int),
        toggle_count(vertices, first, coins, vertices.len() as int) == toggle_count(
            vertices,
            second,
            coins,
            vertices.len() as int,
        ),
{
    lemma_slot_table_classes(first, second);
    assert forall|s: int| 0 <= s < first_legs.len() implies #[trigger] site_flipped(
        first_legs,
        first,
        coins,
        s,
    ) == site_flipped(first_legs, second, coins, s) by {
        match first_legs[s] {
            Some(leg) => {
                assert(slot_table(first).0[first[leg as int]] == slot_table(second).0[second[leg as int]]);
            },
            None => {},
        }
    }
    assert forall|k: int| 0 <= k < vertices.len() implies vertex_toggled(
        #[trigger] vertices[k],
        first,
        coins,
    ) == vertex_toggled(vertices[k], second, coins) by {
        match vertices[k] {
            ClusterVertex::Site { incoming, outgoing, .. } => {
                assert(slot_table(first).0[first[incoming as int]] == slot_table(second).0[second[incoming as int]]);
                assert(slot_table(first).0[first[outgoing as int]] == slot_table(second).0[second[outgoing as int]]);
            },
            ClusterVertex::Bond => {},
        }
    }
    lemma_toggles_agree(operators, vertices, first, second, coins, vertices.len() as int);
}

proof fn lemma_toggles_agree(
    operators: Seq<Operator>,
    vertices: Seq<ClusterVertex>,
    first: Seq<nat>,
    second: Seq<nat>,
    coins: Seq<bool>,
    count: int,
)
    requires
        count <= vertices.len(),
        forall|k: int|
            0 <= k < vertices.len() ==> vertex_toggled(#[trigger] vertices[k], first, coins)
                == vertex_toggled(vertices[k], second, coins),
    ensures
        toggled_operators(operators, vertices, first, coins, count) == toggled_operators(
            operators,
            vertices,
            second,
            coins,
            count,
        ),
        toggle_count(vertices, first, coins, count) == toggle_count(vertices, second, coins, count),
    decreases count,
{
    if count > 0 {
        lemma_toggles_agree(operators, vertices, first, second, coins, count - 1);
        assert(vertex_toggled(vertices[count - 1], first, coins) == vertex_toggled(
            vertices[count - 1],
            second,
            coins,
        ));
    }
}

/// World-line legs, their classes, and the transverse vertices of one
/// operator string.
pub struct ClusterPlan {
    num_sites: usize,
    first_leg: Vec<Option<usize>>,
    union_find: UnionFind,
    vertices: Vec<ClusterVertex>,
}

impl ClusterPlan {
    /// Legs and vertices refer to existing legs and distinct string positions.
    pub closed spec fn wf(&self) -> bool {
        let n = self.union_find@.len();
        &&& self.union_find.wf()
        &&& self.first_leg@.len() == self.num_sites
        &&& n + self.num_sites <= usize::MAX
        &&& forall|s: int|
            0 <= s < self.num_sites ==> (#[trigger] self.first_leg@[s] matches Some(leg) ==> leg < n)
        &&& forall|k: int|
            0 <= k < self.vertices@.len() ==> (#[trigger] self.vertices@[k] matches ClusterVertex::Site {
                incoming,
                outgoing,
                ..
            } ==> incoming < n && outgoing < n)
        &&& forall|k: int, l: int|
            0 <= k < l < self.vertices@.len() ==> (#[trigger] self.vertices@[k] matches ClusterVertex::Site {
                position: p,
                ..
            } ==> (#[trigger] self.vertices@[l] matches ClusterVertex::Site { position: q, .. }
                ==> p < q))
    }

    /// Class representative of every leg.
    pub closed spec fn leg_roots(&self) -> Seq<nat> {
        self.union_find@
    }

    /// First leg of every site, if the site has one.
    pub closed spec fn first_legs(&self) -> Seq<Option<usize>> {
        self.first_leg@
    }

    /// The recorded vertices in string order.
    pub closed spec fn vertex_seq(&self) -> Seq<ClusterVertex> {
        self.vertices@
    }

    /// Number of sites covered by the plan.
    pub closed spec fn site_count(&self) -> usize {
        self.num_sites
    }

    /// The plan is the one `build` gives for `operators` under `model`:
    /// every reference is valid, the legs are partitioned into the clusters of
    /// the string, the first legs and vertices are those of the string.
    pub open spec fn built_for(&self, operators: Seq<Operator>, model: SseStructure) -> bool {
        &&& reference_fault(operators, model.term_seq().len(), operators.len() as int) is None
        &&& self.wf()
        &&& self.site_count() == model.site_count()
        &&& self.leg_roots().len() == leg_offset(operators, model.term_seq(), operators.len() as int)
        &&& same_partition(
            self.leg_roots(),
            cluster_labels(operators, model.term_seq(), model.partner_seq(), model.site_count() as int),
        )
        &&& self.first_legs().len() == model.site_count()
        &&& forall|s: int|
            0 <= s < model.site_count() ==> matches_leg(
                #[trigger] self.first_legs()[s],
                first_leg_before(operators, model.term_seq(), operators.len() as int, s),
            )
        &&& self.vertex_seq() == plan_vertices(
            operators,
            model.term_seq(),
            model.partner_seq(),
            operators.len() as int,
        )
        &&& forall|k: int|
            0 <= k < self.vertex_seq().len() ==> (#[trigger] self.vertex_seq()[k] matches ClusterVertex::Site {
                position,
                ..
            } ==> position < operators.len())
    }

    /// Breaks every vertex of the operator string into world-line legs and
    /// joins them into clusters.
    ///
    /// Fails with [`SseModelError::InvalidOperatorReference`] at the first
    /// non-identity entry that refers to no term of the model.
    pub fn build(state: &SSEState, model: &SseStructure) -> (result: Result<ClusterPlan, SseModelError>)
        requires
            4 * state.operator_seq().len() + model.site_count() <= usize::MAX,
        ensures
            match reference_fault(
                state.operator_seq(),
                model.term_seq().len(),
                state.operator_seq().len() as int,
            ) {
                Some(position) => result == Err::<ClusterPlan, SseModelError>(
                    SseModelError::InvalidOperatorReference {
                        position: position as usize,
                        term_index: state.operator_seq()[position].term_index,
                    },
                ),
                None => result matches Ok(plan) && plan.wf() && plan.site_count()
                    == model.site_count() && plan.leg_roots().len() == leg_offset(
                    state.operator_seq(),
                    model.term_seq(),
                    state.operator_seq().len() as int,
                ) && same_partition(
                    plan.leg_roots(),
                    cluster_labels(
                        state.operator_seq(),
                        model.term_seq(),
                        model.partner_seq(),
                        model.site_count() as int,
                    ),
                ) && plan.first_legs().len() == model.site_count() && (forall|s: int|
                    0 <= s < model.site_count() ==> matches_leg(
                        #[trigger] plan.first_legs()[s],
                        first_leg_before(
                            state.operator_seq(),
                            model.term_seq(),
                            state.operator_seq().len() as int,
                            s,
                        ),
                    )) && plan.vertex_seq() == plan_vertices(
                    state.operator_seq(),
                    model.term_seq(),
                    model.partner_seq(),
                    state.operator_seq().len() as int,
                ) && (forall|k: int|
                    0 <= k < plan.vertex_seq().len() ==> (#[trigger] plan.vertex_seq()[k] matches ClusterVertex::Site {
                        position,
                        ..
                    } ==> position < state.operator_seq().len())),
            },
    {
        let operators = state.operator_string();
        let num_sites = model.num_sites();
        let ghost ops = operators@;
        let ghost terms = model.term_seq();
        let ghost partners = model.partner_seq();
        let mut first_leg: Vec<Option<usize>> = Vec::new();
        let mut last_leg: Vec<Option<usize>> = Vec::new();
        let mut site: usize = 0;
        while site < num_sites
            invariant
                site <= num_sites,
                first_leg@.len() == site,
                last_leg@.len() == site,
                forall|s: int| 0 <= s < site ==> #[trigger] first_leg@[s] is None,
                forall|s: int| 0 <= s < site ==> #[trigger] last_leg@[s] is None,
            decreases num_sites - site,
        {
            first_leg.push(None);
            last_leg.push(None);
            site += 1;
        }
        let mut union_find = UnionFind::new();
        let mut vertices: Vec<ClusterVertex> = Vec::new();
        proof {
            assert(leg_labels(ops, terms, partners, 0) =~= Seq::<nat>::empty());
            assert(plan_vertices(ops, terms, partners, 0) =~= Seq::<ClusterVertex>::empty());
        }
        let mut position: usize = 0;
        while position < operators.len()
            invariant
                ops == state.operator_seq(),
                operators@ == ops,
                terms == model.term_seq(),
                partners == model.partner_seq(),
                num_sites == model.site_count(),
                4 * ops.len() + num_sites <= usize::MAX,
                position <= ops.len(),
                union_find.wf(),
                build_state(
                    union_find@,
                    first_leg@,
                    last_leg@,
                    vertices@,
                    ops,
                    terms,
                    partners,
                    num_sites as int,
                    position as int,
                ),
                reference_fault(ops, terms.len(), position as int) is None,
            decreases ops.len() - position,
        {
            let operator = operators[position];
            proof {
                lemma_offset_bounded(ops, terms, position + 1);
            }
            match operator.term_index() {
                None => {
                    proof {
                        lemma_identity_step(
                            union_find@,
                            first_leg@,
                            last_leg@,
                            vertices@,
                            ops,
                            terms,
                            partners,
                            num_sites as int,
                            position as int,
                        );
                    }
                },
                Some(term_index) => {
                    match model.term(term_index) {
                        None => {
                            proof {
                                assert(reference_fault(ops, terms.len(), position + 1) == Some(
                                    position as int,
                                ));
                                lemma_reference_fault_persists(
                                    ops,
                                    terms.len(),
                                    position + 1,
                                    ops.len() as int,
                                );
                            }
                            return Err(
                                SseModelError::InvalidOperatorReference {
                                    position,
                                    term_index: operator.term_index,
                                },
                            );
                        },
                        Some(term) => {
                            match term.sites {
                                SseTermSites::Site(site) => {
                                    add_site_vertex(
                                        model,
                                        operators,
                                        position,
                                        term_index,
                                        site,
                                        &mut union_find,
                                        &mut first_leg,
                                        &mut last_leg,
                                        &mut vertices,
                                    );
                                },
                                SseTermSites::Bond(i, j) => {
                                    add_bond_vertex(
                                        model,
                                        operators,
                                        position,
                                        term_index,
                                        i,
                                        j,
                                        &mut union_find,
                                        &mut first_leg,
                                        &mut last_leg,
                                        &mut vertices,
                                    );
                                },
                            }
                        },
                    }
                },
            }
            position += 1;
        }
        let ghost total = ops.len() as int;
        let ghost labels = leg_labels(ops, terms, partners, total);
        proof {
            lemma_offset_bounded(ops, terms, total);
        }
        let mut site: usize = 0;
        while site < num_sites
            invariant
                ops == state.operator_seq(),
                terms == model.term_seq(),
                partners == model.partner_seq(),
                num_sites == model.site_count(),
                total == ops.len(),
                labels == leg_labels(ops, terms, partners, total),
                site <= num_sites,
                union_find.wf(),
                union_find@.len() == leg_offset(ops, terms, total),
                union_find@.len() + num_sites <= usize::MAX,
                same_partition(union_find@, close_world_lines(labels, ops, terms, site as int)),
                labels_bounded(close_world_lines(labels, ops, terms, site as int)),
                first_leg@.len() == num_sites,
                last_leg@.len() == num_sites,
                forall|s: int|
                    0 <= s < num_sites ==> matches_leg(
                        #[trigger] first_leg@[s],
                        first_leg_before(ops, terms, total, s),
                    ),
                forall|s: int|
                    0 <= s < num_sites ==> matches_leg(
                        #[trigger] last_leg@[s],
                        last_leg_before(ops, terms, total, s),
                    ),
                forall|s: int|
                    0 <= s < num_sites ==> (#[trigger] first_leg@[s] matches Some(leg) ==> leg
                        < union_find@.len()),
                forall|s: int|
                    0 <= s < num_sites ==> (#[trigger] last_leg@[s] matches Some(leg) ==> leg
                        < union_find@.len()),
            decreases num_sites - site,
        {
            let ghost closed = close_world_lines(labels, ops, terms, site as int);
            match (first_leg[site], last_leg[site]) {
                (Some(first), Some(last)) => {
                    let ghost before = union_find@;
                    union_find.union(first, last);
                    proof {
                        lemma_join_tracks_union(before, union_find@, closed, first as int, last as int);
                    }
                },
                _ => {},
            }
            site += 1;
        }
        proof {
            assert(cluster_labels(ops, terms, partners, num_sites as int) == close_world_lines(
                labels,
                ops,
                terms,
                num_sites as int,
            ));
        }
        Ok(ClusterPlan { num_sites, first_leg, union_find, vertices })
    }

    /// Number of coins that `apply` consumes.
    pub fn coins_needed(&mut self) -> (count: usize)
        requires
            old(self).wf(),
        ensures
            final(self).wf(),
            final(self).leg_roots() == old(self).leg_roots(),
            final(self).first_legs() == old(self).first_legs(),
            final(self).vertex_seq() == old(self).vertex_seq(),
            final(self).site_count() == old(self).site_count(),
            count == coins_needed(old(self).first_legs(), old(self).leg_roots()),
    {
        let legs = self.union_find.len();
        let ghost roots = self.union_find@;
        let mut seen: Vec<bool> = Vec::new();
        let mut k: usize = 0;
        while k < legs
            invariant
                k <= legs,
                seen@.len() == k,
                forall|i: int| 0 <= i < k ==> !#[trigger] seen@[i],
            decreases legs - k,
        {
            seen.push(false);
            k += 1;
        }
        let mut count: usize = 0;
        let mut leg: usize = 0;
        while leg < legs
            invariant
                self.wf(),
                legs == roots.len(),
                self.union_find@ == roots,
                self.first_leg@ == old(self).first_leg@,
                self.vertices@ == old(self).vertices@,
                self.num_sites == old(self).num_sites,
                roots == old(self).union_find@,
                leg <= legs,
                seen@.len() == legs,
                count == slot_table(roots.take(leg as int)).1,
                forall|r: int|
                    0 <= r < legs ==> (#[trigger] seen@[r] <==> slot_table(
                        roots.take(leg as int),
                    ).0.contains_key(r as nat)),
            decreases legs - leg,
        {
            let root = self.union_find.find(leg);
            proof {
                self.union_find.lemma_representatives();
                assert(roots.take(leg + 1).drop_last() =~= roots.take(leg as int));
                lemma_slot_table_facts(roots.take(leg as int));
                lemma_slot_table_facts(roots);
                lemma_slot_table_prefix(roots, leg as int);
            }
            if !seen[root] {
                seen.set(root, true);
                count = count + 1;
            }
            leg += 1;
        }
        proof {
            assert(roots.take(legs as int) =~= roots);
            lemma_slot_table_facts(roots);
        }
        let ghost slots = count as nat;
        let mut site: usize = 0;
        while site < self.num_sites
            invariant
                self.wf(),
                self.first_leg@ == old(self).first_leg@,
                self.union_find@ == roots,
                self.vertices@ == old(self).vertices@,
                self.num_sites == old(self).num_sites,
                site <= self.num_sites,
                slots == slot_table(roots).1,
                slots <= legs,
                legs == roots.len(),
                count == slots + free_rank(self.first_leg@, site as int),
                count <= legs + site,
            decreases self.num_sites - site,
        {
            proof {
                lemma_free_rank_bounded(self.first_leg@, site as int);
            }
            if self.first_leg[site].is_none() {
                count = count + 1;
            }
            site += 1;
        }
        count
    }

    /// Flips the classes and free sites by `coins`, drawn in the documented
    /// order, and toggles the transverse vertices whose two legs received
    /// different decisions.
    ///
    /// The returned counters report one proposal, which the caller accepts
    /// or rejects.
    pub fn apply(&mut self, state: &mut SSEState, coins: &[bool]) -> (stats: ClusterSweepStats)
        requires
            old(self).wf(),
            old(state).basis_seq().len() == old(self).site_count(),
            coins@.len() == coins_needed(old(self).first_legs(), old(self).leg_roots()),
            forall|k: int|
                0 <= k < old(self).vertex_seq().len() ==> (#[trigger] old(self).vertex_seq()[k] matches ClusterVertex::Site {
                    position,
                    ..
                } ==> position < old(state).operator_seq().len()),
        ensures
            final(self).wf(),
            final(self).leg_roots() == old(self).leg_roots(),
            final(self).first_legs() == old(self).first_legs(),
            final(self).vertex_seq() == old(self).vertex_seq(),
            final(self).site_count() == old(self).site_count(),
            final(state).basis_seq() == Seq::new(
                old(state).basis_seq().len(),
                |site: int|
                    if site_flipped(old(self).first_legs(), old(self).leg_roots(), coins@, site) {
                        flipped(old(state).basis_seq()[site])
                    } else {
                        old(state).basis_seq()[site]
                    },
            ),
            final(state).operator_seq() == toggled_operators(
                old(state).operator_seq(),
                old(self).vertex_seq(),
                old(self).leg_roots(),
                coins@,
                old(self).vertex_seq().len() as int,
            ),
            stats == (ClusterSweepStats {
                clusters: coins@.len() as usize,
                flipped_clusters: heads(coins@) as usize,
                vertices_toggled: toggle_count(
                    old(self).vertex_seq(),
                    old(self).leg_roots(),
                    coins@,
                    old(self).vertex_seq().len() as int,
                ) as usize,
                proposals: 1,
                proposals_accepted: 0,
            }),
    {
        let legs = self.union_find.len();
        let ghost roots = self.union_find@;
        let ghost first_legs = self.first_leg@;
        let ghost vertices = self.vertices@;
        let ghost basis = state.basis_seq();
        let ghost operators = state.operator_seq();
        proof {
            lemma_slot_table_facts(roots);
            self.union_find.lemma_representatives();
        }
        let mut flip: Vec<bool> = Vec::new();
        let mut assigned: Vec<bool> = Vec::new();
        let mut k: usize = 0;
        while k < legs
            invariant
                k <= legs,
                flip@.len() == k,
                assigned@.len() == k,
                forall|i: int| 0 <= i < k ==> !#[trigger] assigned@[i],
            decreases legs - k,
        {
            flip.push(false);
            assigned.push(false);
            k += 1;
        }
        let mut clusters: usize = 0;
        let mut flipped_clusters: usize = 0;
        let mut leg: usize = 0;
        while leg < legs
            invariant
                self.wf(),
                legs == roots.len(),
                self.union_find@ == roots,
                self.first_leg@ == first_legs,
                self.vertices@ == vertices,
                self.num_sites == old(self).num_sites,
                roots == old(self).union_find@,
                first_legs == old(self).first_leg@,
                coins@.len() == coins_needed(first_legs, roots),
                forall|i: int| 0 <= i < roots.len() ==> #[trigger] roots[i] < roots.len(),
                leg <= legs,
                flip@.len() == legs,
                assigned@.len() == legs,
                clusters == slot_table(roots.take(leg as int)).1,
                clusters <= slot_table(roots).1,
                flipped_clusters == heads(coins@.take(clusters as int)),
                flipped_clusters <= clusters,
                forall|r: int|
                    0 <= r < legs ==> (#[trigger] assigned@[r] <==> slot_table(
                        roots.take(leg as int),
                    ).0.contains_key(r as nat)),
                forall|r: int|
                    0 <= r < legs && #[trigger] assigned@[r] ==> flip@[r] == coins@[slot_table(roots).0[r as nat] as int],
            decreases legs - leg,
        {
            let root = self.union_find.find(leg);
            proof {
                assert(roots.take(leg + 1).drop_last() =~= roots.take(leg as int));
                lemma_slot_table_facts(roots.take(leg as int));
                lemma_slot_table_prefix(roots, leg as int);
                lemma_slot_table_prefix(roots, leg + 1);
                lemma_free_rank_bounded(first_legs, first_legs.len() as int);
            }
            if !assigned[root] {
                proof {
                    assert(slot_table(roots.take(leg + 1)).0[root as nat] == clusters);
                    lemma_heads_push(coins@, clusters as int);
                }
                let ghost prev_assigned = assigned@;
                let ghost prev_flip = flip@;
                let ghost slot = clusters as int;
                proof {
                    assert(slot_table(roots.take(leg + 1)).0.contains_key(root as nat));
                    assert(slot_table(roots).0[root as nat] == slot);
                }
                assigned.set(root, true);
                let coin = coins[clusters];
                flip.set(root, coin);
                clusters = clusters + 1;
                if coin {
                    flipped_clusters = flipped_clusters + 1;
                }
                proof {
                    assert forall|r: int|
                        0 <= r < legs && #[trigger] assigned@[r] implies flip@[r] == coins@[slot_table(
                            roots,
                        ).0[r as nat] as int] by {
                        if r != root {
                            assert(prev_assigned[r]);
                            assert(prev_flip[r] == flip@[r]);
                        } else {
                            assert(flip@[r] == coins@[slot]);
                        }
                    }
                }
            }
            leg += 1;
        }
        proof {
            assert(roots.take(legs as int) =~= roots);
        }
        let ghost slots = clusters as nat;
        let mut site: usize = 0;
        while site < self.num_sites
            invariant
                self.wf(),
                legs == roots.len(),
                self.union_find@ == roots,
                self.first_leg@ == first_legs,
                self.vertices@ == vertices,
                self.num_sites == old(self).num_sites,
                roots == old(self).union_find@,
                first_legs == old(self).first_leg@,
                basis == old(state).basis_seq(),
                operators == old(state).operator_seq(),
                state.operator_seq() == operators,
                basis.len() == self.num_sites,
                coins@.len() == coins_needed(first_legs, roots),
                forall|i: int| 0 <= i < roots.len() ==> #[trigger] roots[i] < roots.len(),
                forall|r: int|
                    0 <= r < legs ==> (#[trigger] assigned@[r] <==> slot_table(roots).0.contains_key(
                        r as nat,
                    )),
                forall|r: int|
                    0 <= r < legs && #[trigger] assigned@[r] ==> flip@[r] == coins@[slot_table(roots).0[r as nat] as int],
                flip@.len() == legs,
                assigned@.len() == legs,
                site <= self.num_sites,
                slots == slot_table(roots).1,
                clusters == slots + free_rank(first_legs, site as int),
                flipped_clusters == heads(coins@.take(clusters as int)),
                flipped_clusters <= clusters,
                state.basis_seq() == Seq::new(
                    basis.len(),
                    |k: int|
                        if k < site && site_flipped(first_legs, roots, coins@, k) {
                            flipped(basis[k])
                        } else {
                            basis[k]
                        },
                ),
            decreases self.num_sites - site,
        {
            proof {
                lemma_free_rank_bounded(first_legs, site as int + 1);
                lemma_free_rank_bounded(first_legs, first_legs.len() as int);
                lemma_slot_table_facts(roots);
            }
            match self.first_leg[site] {
                Some(first) => {
                    proof {
                        assert(first_legs[site as int] == Some(first));
                        assert(first < legs);
                    }
                    let root = self.union_find.find(first);
                    proof {
                        assert(slot_table(roots).0.contains_key(roots[first as int]));
                        assert(assigned@[root as int]);
                    }
                    if flip[root] {
                        state.flip_boundary_spin(site);
                    }
                },
                None => {
                    proof {
                        lemma_heads_push(coins@, clusters as int);
                    }
                    let coin = coins[clusters];
                    clusters = clusters + 1;
                    if coin {
                        flipped_clusters = flipped_clusters + 1;
                        state.flip_boundary_spin(site);
                    }
                },
            }
            proof {
                assert(state.basis_seq() =~= Seq::new(
                    basis.len(),
                    |k: int|
                        if k < site + 1 && site_flipped(first_legs, roots, coins@, k) {
                            flipped(basis[k])
                        } else {
                            basis[k]
                        },
                ));
            }
            site += 1;
        }
        proof {
            assert(coins@.take(clusters as int) =~= coins@);
            assert(state.basis_seq() =~= Seq::new(
                basis.len(),
                |k: int|
                    if site_flipped(first_legs, roots, coins@, k) {
                        flipped(basis[k])
                    } else {
                        basis[k]
                    },
            ));
        }
        let ghost final_basis = state.basis_seq();
        let mut vertices_toggled: usize = 0;
        let mut index: usize = 0;
        while index < self.vertices.len()
            invariant
                self.wf(),
                legs == roots.len(),
                self.union_find@ == roots,
                self.first_leg@ == first_legs,
                self.vertices@ == vertices,
                self.num_sites == old(self).num_sites,
                roots == old(self).union_find@,
                first_legs == old(self).first_leg@,
                vertices == old(self).vertices@,
                operators == old(state).operator_seq(),
                forall|k: int|
                    0 <= k < vertices.len() ==> (#[trigger] vertices[k] matches ClusterVertex::Site {
                        position,
                        ..
                    } ==> position < operators.len()),
                coins@.len() == coins_needed(first_legs, roots),
                forall|i: int| 0 <= i < roots.len() ==> #[trigger] roots[i] < roots.len(),
                forall|r: int|
                    0 <= r < legs ==> (#[trigger] assigned@[r] <==> slot_table(roots).0.contains_key(
                        r as nat,
                    )),
                forall|r: int|
                    0 <= r < legs && #[trigger] assigned@[r] ==> flip@[r] == coins@[slot_table(roots).0[r as nat] as int],
                flip@.len() == legs,
                assigned@.len() == legs,
                index <= vertices.len(),
                vertices_toggled == toggle_count(vertices, roots, coins@, index as int),
                vertices_toggled <= index,
                state.basis_seq() == final_basis,
                state.operator_seq().len() == operators.len(),
                state.operator_seq() == toggled_operators(operators, vertices, roots, coins@, index as int),
            decreases vertices.len() - index,
        {
            match self.vertices[index] {
                ClusterVertex::Site { position, incoming, outgoing, partner, partner_kind, .. } => {
                    proof {
                        lemma_slot_table_facts(roots);
                        assert(vertices[index as int] matches ClusterVertex::Site { .. });
                    }
                    let incoming_root = self.union_find.find(incoming);
                    let outgoing_root = self.union_find.find(outgoing);
                    proof {
                        assert(slot_table(roots).0.contains_key(roots[incoming as int]));
                        assert(slot_table(roots).0.contains_key(roots[outgoing as int]));
                        assert(assigned@[incoming_root as int]);
                        assert(assigned@[outgoing_root as int]);
                        assert(vertex_toggled(vertices[index as int], roots, coins@) == (
                        flip@[incoming_root as int] != flip@[outgoing_root as int]));
                    }
                    if flip[incoming_root] != flip[outgoing_root] {
                        state.replace_operator(position, Operator { kind: partner_kind, term_index: partner });
                        vertices_toggled = vertices_toggled + 1;
                    }
                },
                ClusterVertex::Bond => {},
            }
            index += 1;
        }
        ClusterSweepStats {
            clusters,
            flipped_clusters,
            vertices_toggled,
            proposals: 1,
            proposals_accepted: 0,
        }
    }
}

/// Two operators make vertices of the same shape: both identities, or both
/// referring to existing terms on the same sites, both with or both without
/// a transverse partner.
pub open spec fn same_vertex_shape(
    first: Operator,
    second: Operator,
    terms: Seq<SseTermShape>,
    partners: Seq<Option<u32>>,
) -> bool {
    &&& (first.kind == OperatorKind::Identity) == (second.kind == OperatorKind::Identity)
    &&& first.kind != OperatorKind::Identity ==> {
        &&& first.term_index < terms.len()
        &&& second.term_index < terms.len()
        &&& terms[first.term_index as int].sites == terms[second.term_index as int].sites
        &&& (partners[first.term_index as int] is Some) == (partners[second.term_index as int] is Some)
    }
}

/// Two operator strings whose vertices have the same shapes, position by
/// position.
pub open spec fn same_vertex_shapes(
    first: Seq<Operator>,
    second: Seq<Operator>,
    terms: Seq<SseTermShape>,
    partners: Seq<Option<u32>>,
) -> bool {
    &&& first.len() == second.len()
    &&& forall|p: int|
        0 <= p < first.len() ==> #[trigger] same_vertex_shape(first[p], second[p], terms, partners)
}

proof fn lemma_shapes_offset(
    first: Seq<Operator>,
    second: Seq<Operator>,
    terms: Seq<SseTermShape>,
    partners: Seq<Option<u32>>,
    count: int,
)
    requires
        same_vertex_shapes(first, second, terms, partners),
        count <= first.len(),
    ensures
        leg_offset(first, terms, count) == leg_offset(second, terms, count),
    decreases count,
{
    if count > 0 {
        lemma_shapes_offset(first, second, terms, partners, count - 1);
        assert(same_vertex_shape(first[count - 1], second[count - 1], terms, partners));
    }
}

proof fn lemma_shapes_world_lines(
    first: Seq<Operator>,
    second: Seq<Operator>,
    terms: Seq<SseTermShape>,
    partners: Seq<Option<u32>>,
    count: int,
    site: int,
)
    requires
        same_vertex_shapes(first, second, terms, partners),
        count <= first.len(),
    ensures
        last_leg_before(first, terms, count, site) == last_leg_before(second, terms, count, site),
        first_leg_before(first, terms, count, site) == first_leg_before(second, terms, count, site),
    decreases count,
{
    if count > 0 {
        lemma_shapes_world_lines(first, second, terms, partners, count - 1, site);
        lemma_shapes_offset(first, second, terms, partners, count - 1);
        assert(same_vertex_shape(first[count - 1], second[count - 1], terms, partners));
        assert(touches(first, terms, count - 1, site) == touches(second, terms, count - 1, site));
        if first[count - 1].kind != OperatorKind::Identity {
            assert(incoming_leg(first, terms, count - 1, site) == incoming_leg(
                second,
                terms,
                count - 1,
                site,
            ));
        }
    }
}

proof fn lemma_shapes_leg_labels(
    first: Seq<Operator>,
    second: Seq<Operator>,
    terms: Seq<SseTermShape>,
    partners: Seq<Option<u32>>,
    count: int,
)
    requires
        same_vertex_shapes(first, second, terms, partners),
        count <= first.len(),
    ensures
        leg_labels(first, terms, partners, count) == leg_labels(second, terms, partners, count),
    decreases count,
{
    if count > 0 {
        let p = count - 1;
        lemma_shapes_leg_labels(first, second, terms, partners, p);
        lemma_shapes_offset(first, second, terms, partners, p);
        assert(same_vertex_shape(first[p], second[p], terms, partners));
        if first[p].kind != OperatorKind::Identity {
            let t1 = first[p].term_index as int;
            match terms[t1].sites {
                SseTermSites::Site(s) => {
                    lemma_shapes_world_lines(first, second, terms, partners, p, s as int);
                },
                SseTermSites::Bond(i, j) => {
                    lemma_shapes_world_lines(first, second, terms, partners, p, i as int);
                    lemma_shapes_world_lines(first, second, terms, partners, p, j as int);
                },
            }
            let o = leg_offset(first, terms, p);
            let pushed = leg_labels(first, terms, partners, p) + Seq::new(
                vertex_legs(first[p], terms),
                |k: int| (o + k) as nat,
            );
            assert(vertex_legs(first[p], terms) == vertex_legs(second[p], terms));
            assert(vertex_joins(pushed, first, terms, partners, p) == vertex_joins(
                pushed,
                second,
                terms,
                partners,
                p,
            ));
        }
    }
}

proof fn lemma_shapes_close(
    labels: Seq<nat>,
    first: Seq<Operator>,
    second: Seq<Operator>,
    terms: Seq<SseTermShape>,
    partners: Seq<Option<u32>>,
    count: int,
)
    requires
        same_vertex_shapes(first, second, terms, partners),
    ensures
        close_world_lines(labels, first, terms, count) == close_world_lines(
            labels,
            second,
            terms,
            count,
        ),
    decreases count,
{
    if count > 0 {
        lemma_shapes_close(labels, first, second, terms, partners, count - 1);
        lemma_shapes_world_lines(first, second, terms, partners, first.len() as int, count - 1);
    }
}

/// The clusters of an operator string depend only on the shapes of its
/// vertices: two strings whose vertices sit on the same sites and agree on
/// having a transverse partner, position by position, have the same legs,
/// the same world-line ends and the same leg classes, whether each vertex
/// is diagonal or off-diagonal.
pub proof fn lemma_clusters_depend_only_on_vertex_shapes(
    first: Seq<Operator>,
    second: Seq<Operator>,
    terms: Seq<SseTermShape>,
    partners: Seq<Option<u32>>,
    num_sites: int,
)
    requires
        same_vertex_shapes(first, second, terms, partners),
    ensures
        leg_offset(first, terms, first.len() as int) == leg_offset(second, terms, second.len() as int),
        forall|site: int|
            #[trigger] first_leg_before(first, terms, first.len() as int, site) == first_leg_before(
                second,
                terms,
                second.len() as int,
                site,
            ),
        cluster_labels(first, terms, partners, num_sites) == cluster_labels(
            second,
            terms,
            partners,
            num_sites,
        ),
{
    let n = first.len() as int;
    lemma_shapes_offset(first, second, terms, partners, n);
    assert forall|site: int|
        #[trigger] first_leg_before(first, terms, n, site) == first_leg_before(second, terms, n, site) by {
        lemma_shapes_world_lines(first, second, terms, partners, n, site);
    }
    lemma_shapes_leg_labels(first, second, terms, partners, n);
    lemma_shapes_close(
        leg_labels(first, terms, partners, n),
        first,
        second,
        terms,
        partners,
        num_sites,
    );
}

/// Exchanging a transverse vertex for its partner, which acts on the same
/// site and has a partner too, leaves the clusters of the operator string
/// unchanged: a partnered vertex never joins its own two legs, whichever of
/// the two it is.
pub proof fn lemma_partner_exchange_keeps_clusters(
    operators: Seq<Operator>,
    terms: Seq<SseTermShape>,
    partners: Seq<Option<u32>>,
    num_sites: int,
    position: int,
)
    requires
        0 <= position < operators.len(),
        operators[position].kind != OperatorKind::Identity,
        operators[position].term_index < terms.len(),
        partners[operators[position].term_index as int] matches Some(q) && q < terms.len()
            && terms[q as int].sites == terms[operators[position].term_index as int].sites
            && terms[q as int].kind != OperatorKind::Identity && partners[q as int] is Some,
        forall|p: int|
            0 <= p < operators.len() && #[trigger] operators[p].kind != OperatorKind::Identity
                ==> operators[p].term_index < terms.len(),
    ensures
        ({
            let q = partners[operators[position].term_index as int]->0;
            let exchanged = operators.update(
                position,
                Operator { kind: terms[q as int].kind, term_index: q },
            );
            cluster_labels(exchanged, terms, partners, num_sites) == cluster_labels(
                operators,
                terms,
                partners,
                num_sites,
            )
        }),
{
    let q = partners[operators[position].term_index as int]->0;
    let exchanged = operators.update(position, Operator { kind: terms[q as int].kind, term_index: q });
    assert forall|p: int| 0 <= p < exchanged.len() implies #[trigger] same_vertex_shape(
        exchanged[p],
        operators[p],
        terms,
        partners,
    ) by {
        if p != position {
            assert(exchanged[p] == operators[p]);
        }
    }
    lemma_clusters_depend_only_on_vertex_shapes(exchanged, operators, terms, partners, num_sites);
}

impl ClusterPlan {
    /// Plans built for two operator strings with the same vertex shapes draw
    /// the same number of coins; in particular exchanging a transverse vertex
    /// for its partner does not change how many clusters an update flips.
    pub proof fn lemma_same_shapes_need_same_coins(
        first: ClusterPlan,
        second: ClusterPlan,
        first_operators: Seq<Operator>,
        second_operators: Seq<Operator>,
        model: SseStructure,
    )
        requires
            first.built_for(first_operators, model),
            second.built_for(second_operators, model),
            same_vertex_shapes(first_operators, second_operators, model.term_seq(), model.partner_seq()),
        ensures
            first.first_legs() == second.first_legs(),
            coins_needed(first.first_legs(), first.leg_roots()) == coins_needed(
                second.first_legs(),
                second.leg_roots(),
            ),
    {
        let terms = model.term_seq();
        let partners = model.partner_seq();
        let n = model.site_count() as int;
        lemma_clusters_depend_only_on_vertex_shapes(
            first_operators,
            second_operators,
            terms,
            partners,
            n,
        );
        let labels = cluster_labels(first_operators, terms, partners, n);
        assert forall|s: int| 0 <= s < n implies first.first_legs()[s] == second.first_legs()[s] by {
            assert(matches_leg(
                first.first_legs()[s],
                first_leg_before(first_operators, terms, first_operators.len() as int, s),
            ));
            assert(matches_leg(
                second.first_legs()[s],
                first_leg_before(second_operators, terms, second_operators.len() as int, s),
            ));
        }
        assert(first.first_legs() =~= second.first_legs());
        assert(same_partition(first.leg_roots(), second.leg_roots())) by {
            assert forall|a: int, b: int|
                0 <= a < first.leg_roots().len() && 0 <= b < first.leg_roots().len() implies (
                #[trigger] first.leg_roots()[a] == #[trigger] first.leg_roots()[b]) == (
            second.leg_roots()[a] == second.leg_roots()[b]) by {
                assert((first.leg_roots()[a] == first.leg_roots()[b]) == (labels[a] == labels[b]));
                assert((second.leg_roots()[a] == second.leg_roots()[b]) == (labels[a] == labels[b]));
            }
        }
        lemma_decisions_depend_only_on_classes(
            first.leg_roots(),
            second.leg_roots(),
            first.first_legs(),
            Seq::empty(),
            first_operators,
            Seq::empty(),
        );
    }
}

} // verus!
