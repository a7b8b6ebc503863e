//! Sign-safe stochastic-series-expansion state and update building blocks.
//!
//! A model represents the physical Hamiltonian as
//! `H = energy_shift - sum_a B_a`, where every sampled local matrix element of
//! `B_a` is non-negative. [`SSEState`] stores a padded operator string over the
//! `B_a`. The integer structure of a model that the updates read (term
//! supports, diagonal classification, transverse partners, and the local
//! configurations on which each matrix element is positive) is held by
//! [`SseStructure`].

use vstd::prelude::*;

use vstd::string::StringExecFns;

use crate::labels::{eigenvalue, occupation_number, OperatorKind, Spin};
use crate::text::{decimal, push_decimal};
use crate::sse::cluster_trace::{tfim_vertex, tfim_vertices, valid_structure};

pub mod cluster_trace;
pub mod clusters;
pub mod parallel;
pub mod schedule;
pub mod state;
pub mod stats;
pub mod union_find;

verus! {

/// Site support of a local SSE term, without its coefficients.
#[derive(Clone, Copy, Debug, PartialEq, Eq, Structural)]
pub enum SseTermSites {
    /// A single site.
    Site(u32),
    /// A two-site bond.
    Bond(u32, u32),
}

/// Local spin configurations on which a term's matrix element is positive.
///
/// The built-in decompositions have matrix elements that vanish exactly on a
/// fixed set of local configurations, determined by the sign of their
/// coefficient:
///
/// - a site constant or spin flip with amplitude `a` is positive everywhere
///   when `a > 0` and nowhere when `a == 0`;
/// - a TFIM bond `J (1 + s_i s_j)` is positive on aligned spins when `J > 0`;
/// - a Rydberg detuning term `max(-d, 0) + d n_i` is positive on an empty
///   site when `d < 0` and on an occupied site when `d > 0`;
/// - a Rydberg interaction `max(V, 0) - V n_i n_j` is positive unless both
///   sites are occupied when `V > 0`, and only when both are occupied when
///   `V < 0`.
#[derive(Clone, Copy, Debug, PartialEq, Eq, Structural)]
pub enum PositiveWeight {
    /// Positive on every configuration.
    Always,
    /// Zero on every configuration.
    Never,
    /// Positive when the two bond spins are equal.
    Aligned,
    /// Positive when the site is empty (`Down`).
    Empty,
    /// Positive when the site is occupied (`Up`).
    Occupied,
    /// Positive unless both bond sites are occupied.
    NotBothOccupied,
    /// Positive only when both bond sites are occupied.
    BothOccupied,
}

/// Integer description of one local SSE term.
#[derive(Clone, Copy, Debug, PartialEq, Eq, Structural)]
pub struct SseTermShape {
    /// Sites on which the term acts.
    pub sites: SseTermSites,
    /// Diagonal or off-diagonal classification.
    pub kind: OperatorKind,
    /// Configurations on which the matrix element is positive.
    pub positive: PositiveWeight,
}

/// Failure while validating or propagating an SSE state against a model.
#[allow(inconsistent_fields)]
#[derive(Debug)]
pub enum SseModelError {
    /// The model contains no local terms.
    EmptyModel,
    /// A basis state does not contain one spin per model site.
    InvalidBasisStateLength {
        /// Received number of spins.
        received: usize,
        /// Required number of spins.
        expected: usize,
    },
    /// The padded operator-string cutoff is zero.
    InvalidOperatorStringLength,
    /// A local term refers to a site outside the model.
    InvalidSite {
        /// Invalid site ID.
        site: u32,
        /// Number of model sites.
        num_sites: usize,
    },
    /// A term index lies outside the model's local-term array.
    InvalidTermIndex {
        /// Invalid zero-based term index.
        term_index: usize,
        /// Number of model terms.
        num_terms: usize,
    },
    /// An operator-string entry has the wrong diagonal classification.
    InvalidOperatorKind {
        /// Referenced term index.
        term_index: usize,
        /// Classification required by the model term.
        expected: OperatorKind,
        /// Classification stored in the operator string.
        received: OperatorKind,
    },
    /// A two-site term names the same site twice.
    IdenticalEndpoints {
        /// The repeated site.
        site: u32,
    },
    /// The number of terms cannot be addressed with `u32` indices.
    TooManyTerms {
        /// Requested number of terms.
        num_terms: usize,
    },
    /// An operator acts with zero weight on the propagated state.
    ZeroMatrixElement {
        /// Term with zero matrix element.
        term_index: usize,
    },
    /// An operator-string entry refers to a term that does not exist.
    InvalidOperatorReference {
        /// Position in the padded operator string.
        position: usize,
        /// Invalid referenced term index.
        term_index: u32,
    },
    /// Propagation around imaginary time did not return to the initial state.
    TraceNotClosed,
    /// Geometry construction or distance evaluation failed.
    GeometryError(String),
}

/// Name of an operator classification as written in messages.
pub open spec fn kind_name(kind: OperatorKind) -> Seq<char> {
    match kind {
        OperatorKind::Identity => "Identity"@,
        OperatorKind::Diagonal => "Diagonal"@,
        OperatorKind::OffDiagonal => "OffDiagonal"@,
    }
}

/// Human-readable description of a model error.
pub open spec fn model_error_text(error: SseModelError) -> Seq<char> {
    match error {
        SseModelError::EmptyModel => "SSE model must contain at least one local term"@,
        SseModelError::InvalidBasisStateLength { received, expected } => "basis-state length "@
            + decimal(received as nat) + " does not match model site count "@ + decimal(
            expected as nat,
        ),
        SseModelError::InvalidOperatorStringLength => "operator string length M must be greater than zero"@,
        SseModelError::InvalidSite { site, num_sites } => "site "@ + decimal(site as nat)
            + " is invalid for a model with "@ + decimal(num_sites as nat) + " sites"@,
        SseModelError::InvalidTermIndex { term_index, num_terms } => "term index "@ + decimal(
            term_index as nat,
        ) + " is invalid for a model with "@ + decimal(num_terms as nat) + " terms"@,
        SseModelError::InvalidOperatorKind { term_index, expected, received } => "term "@
            + decimal(term_index as nat) + " requires operator kind "@ + kind_name(expected)
            + ", but received "@ + kind_name(received),
        SseModelError::IdenticalEndpoints { site } => "two-site term with identical endpoints must be finite and non-negative; got "@
            + decimal(site as nat),
        SseModelError::TooManyTerms { num_terms } => "number of terms must be finite and non-negative; got "@
            + decimal(num_terms as nat),
        SseModelError::ZeroMatrixElement { term_index } => "term "@ + decimal(term_index as nat)
            + " has zero matrix element on the current state"@,
        SseModelError::InvalidOperatorReference { position, term_index } => "operator-string position "@
            + decimal(position as nat) + " refers to invalid term index "@ + decimal(
            term_index as nat,
        ),
        SseModelError::TraceNotClosed => "propagated basis state does not return to its initial state"@,
        SseModelError::GeometryError(message) => "geometry error: "@ + message@,
    }
}

fn kind_str(kind: OperatorKind) -> (text: &'static str)
    ensures
        text@ == kind_name(kind),
{
    match kind {
        OperatorKind::Identity => "Identity",
        OperatorKind::Diagonal => "Diagonal",
        OperatorKind::OffDiagonal => "OffDiagonal",
    }
}

impl SseModelError {
    /// Describes the error in one sentence.
    pub fn message(&self) -> (text: String)
        ensures
            text@ == model_error_text(*self),
    {
        match self {
            SseModelError::EmptyModel => String::from_str(
                "SSE model must contain at least one local term",
            ),
            SseModelError::InvalidBasisStateLength { received, expected } => {
                let mut text = String::from_str("basis-state length ");
                push_decimal(&mut text, *received);
                text.append(" does not match model site count ");
                push_decimal(&mut text, *expected);
                text
            },
            SseModelError::InvalidOperatorStringLength => String::from_str(
                "operator string length M must be greater than zero",
            ),
            SseModelError::InvalidSite { site, num_sites } => {
                let mut text = String::from_str("site ");
                push_decimal(&mut text, *site as usize);
                text.append(" is invalid for a model with ");
                push_decimal(&mut text, *num_sites);
                text.append(" sites");
                text
            },
            SseModelError::InvalidTermIndex { term_index, num_terms } => {
                let mut text = String::from_str("term index ");
                push_decimal(&mut text, *term_index);
                text.append(" is invalid for a model with ");
                push_decimal(&mut text, *num_terms);
                text.append(" terms");
                text
            },
            SseModelError::InvalidOperatorKind { term_index, expected, received } => {
                let mut text = String::from_str("term ");
                push_decimal(&mut text, *term_index);
                text.append(" requires operator kind ");
                text.append(kind_str(*expected));
                text.append(", but received ");
                text.append(kind_str(*received));
                text
            },
            SseModelError::IdenticalEndpoints { site } => {
                let mut text = String::from_str(
                    "two-site term with identical endpoints must be finite and non-negative; got ",
                );
                push_decimal(&mut text, *site as usize);
                text
            },
            SseModelError::TooManyTerms { num_terms } => {
                let mut text = String::from_str(
                    "number of terms must be finite and non-negative; got ",
                );
                push_decimal(&mut text, *num_terms);
                text
            },
            SseModelError::ZeroMatrixElement { term_index } => {
                let mut text = String::from_str("term ");
                push_decimal(&mut text, *term_index);
                text.append(" has zero matrix element on the current state");
                text
            },
            SseModelError::InvalidOperatorReference { position, term_index } => {
                let mut text = String::from_str("operator-string position ");
                push_decimal(&mut text, *position);
                text.append(" refers to invalid term index ");
                push_decimal(&mut text, *term_index as usize);
                text
            },
            SseModelError::TraceNotClosed => String::from_str(
                "propagated basis state does not return to its initial state",
            ),
            SseModelError::GeometryError(message) => {
                let mut text = String::from_str("geometry error: ");
                text.append(message.as_str());
                text
            },
        }
    }
}

/// Whether the matrix element of `shape` is positive on `state`.
pub open spec fn weight_positive(shape: SseTermShape, state: Seq<Spin>) -> bool {
    match shape.positive {
        PositiveWeight::Always => true,
        PositiveWeight::Never => false,
        PositiveWeight::Aligned => match shape.sites {
            SseTermSites::Bond(i, j) => state[i as int] == state[j as int],
            SseTermSites::Site(_) => false,
        },
        PositiveWeight::Empty => match shape.sites {
            SseTermSites::Site(s) => state[s as int] == Spin::Down,
            SseTermSites::Bond(_, _) => false,
        },
        PositiveWeight::Occupied => match shape.sites {
            SseTermSites::Site(s) => state[s as int] == Spin::Up,
            SseTermSites::Bond(_, _) => false,
        },
        PositiveWeight::NotBothOccupied => match shape.sites {
            SseTermSites::Bond(i, j) => !(state[i as int] == Spin::Up && state[j as int]
                == Spin::Up),
            SseTermSites::Site(_) => false,
        },
        PositiveWeight::BothOccupied => match shape.sites {
            SseTermSites::Bond(i, j) => state[i as int] == Spin::Up && state[j as int]
                == Spin::Up,
            SseTermSites::Site(_) => false,
        },
    }
}

/// Positivity follows the matrix elements of the sign-safe decomposition,
/// each divided by its positive coefficient and written in Pauli-z
/// eigenvalues `s` and occupations `n`: a TFIM bond `1 + s_i s_j`, a
/// detuning term `1 - n` (negative detuning) or `n` (positive detuning), and
/// an interaction `1 - n_i n_j` (repulsive) or `n_i n_j` (attractive); a
/// constant term is positive everywhere and a zero one nowhere.
pub proof fn lemma_weight_positive_follows_matrix_elements(shape: SseTermShape, state: Seq<Spin>)
    requires
        sites_in_range(shape.sites, state.len()),
    ensures
        shape.positive == PositiveWeight::Always ==> weight_positive(shape, state),
        shape.positive == PositiveWeight::Never ==> !weight_positive(shape, state),
        shape.sites matches SseTermSites::Bond(i, j) ==> {
            let (si, sj) = (state[i as int], state[j as int]);
            &&& shape.positive == PositiveWeight::Aligned ==> (weight_positive(shape, state) <==> 1
                + eigenvalue(si) * eigenvalue(sj) > 0)
            &&& shape.positive == PositiveWeight::NotBothOccupied ==> (weight_positive(shape, state)
                <==> 1 - occupation_number(si) * occupation_number(sj) > 0)
            &&& shape.positive == PositiveWeight::BothOccupied ==> (weight_positive(shape, state)
                <==> occupation_number(si) * occupation_number(sj) > 0)
        },
        shape.sites matches SseTermSites::Site(s) ==> {
            let spin = state[s as int];
            &&& shape.positive == PositiveWeight::Empty ==> (weight_positive(shape, state) <==> 1
                - occupation_number(spin) > 0)
            &&& shape.positive == PositiveWeight::Occupied ==> (weight_positive(shape, state)
                <==> occupation_number(spin) > 0)
        },
{
    match shape.sites {
        SseTermSites::Bond(i, j) => {
            let (si, sj) = (state[i as int], state[j as int]);
            assert(eigenvalue(si) * eigenvalue(sj) == if si == sj {
                1int
            } else {
                -1int
            }) by (nonlinear_arith)
                requires
                    eigenvalue(si) == 1 || eigenvalue(si) == -1,
                    eigenvalue(sj) == 1 || eigenvalue(sj) == -1,
                    (eigenvalue(si) == eigenvalue(sj)) == (si == sj),
            ;
            assert(occupation_number(si) * occupation_number(sj) == if si == Spin::Up && sj
                == Spin::Up {
                1int
            } else {
                0int
            }) by (nonlinear_arith)
                requires
                    occupation_number(si) == 1 || occupation_number(si) == 0,
                    occupation_number(sj) == 1 || occupation_number(sj) == 0,
                    (occupation_number(si) == 1) == (si == Spin::Up),
                    (occupation_number(sj) == 1) == (sj == Spin::Up),
            ;
        },
        SseTermSites::Site(_) => {},
    }
}

/// Every site named by `sites` is below `num_sites`.
pub open spec fn sites_in_range(sites: SseTermSites, num_sites: nat) -> bool {
    match sites {
        SseTermSites::Site(s) => s < num_sites,
        SseTermSites::Bond(i, j) => i < num_sites && j < num_sites,
    }
}

/// Whether two terms are matching transverse vertices: single-site terms on
/// the same site, with equal amplitude keys and opposite classification.
pub open spec fn transverse_match(
    terms: Seq<SseTermShape>,
    keys: Seq<Option<u64>>,
    left: int,
    right: int,
) -> bool {
    &&& keys[left] is Some
    &&& keys[right] is Some
    &&& keys[left] == keys[right]
    &&& terms[left].sites is Site
    &&& terms[right].sites == terms[left].sites
    &&& terms[left].kind != terms[right].kind
}

/// The first term matching `left` as a transverse partner.
pub open spec fn first_transverse_match(
    terms: Seq<SseTermShape>,
    keys: Seq<Option<u64>>,
    left: int,
) -> Option<u32> {
    if keys[left] is Some && exists|right: int|
        0 <= right < terms.len() && transverse_match(terms, keys, left, right) {
        let right = choose|right: int|
            0 <= right < terms.len() && transverse_match(terms, keys, left, right) && forall|
                other: int,
            |
                0 <= other < right ==> !transverse_match(terms, keys, left, other);
        Some(right as u32)
    } else {
        None
    }
}

/// Validated integer structure of a local SSE decomposition.
#[derive(Debug)]
pub struct SseStructure {
    num_sites: usize,
    terms: Vec<SseTermShape>,
    diagonal_term_indices: Vec<u32>,
    transverse_partners: Vec<Option<u32>>,
    supports_tfim_cluster_update: bool,
}

impl SseStructure {
    /// Term supports lie inside the site set, two-site terms are distinct,
    /// off-diagonal terms act on one site, the diagonal index list enumerates
    /// the diagonal terms in order, and every partner is a matching vertex.
    #[verifier::type_invariant]
    pub closed spec fn inv(self) -> bool {
        let terms = self.terms@;
        &&& 0 < terms.len() <= u32::MAX
        &&& forall|t: int|
            0 <= t < terms.len() ==> sites_in_range(#[trigger] terms[t].sites, self.num_sites as nat)
        &&& forall|t: int|
            0 <= t < terms.len() ==> (#[trigger] terms[t].sites matches SseTermSites::Bond(i, j)
                ==> i != j)
        &&& forall|t: int|
            0 <= t < terms.len() && #[trigger] terms[t].kind == OperatorKind::OffDiagonal
                ==> terms[t].sites is Site
        &&& forall|t: int| 0 <= t < terms.len() ==> #[trigger] terms[t].kind != OperatorKind::Identity
        &&& self.diagonal_term_indices@ == diagonal_indices(terms, terms.len() as int)
        &&& self.transverse_partners@.len() == terms.len()
        &&& forall|t: int|
            0 <= t < terms.len() && #[trigger] self.transverse_partners@[t] is Some ==> {
                let p = self.transverse_partners@[t]->0 as int;
                &&& 0 <= p < terms.len()
                &&& terms[p].sites == terms[t].sites
                &&& terms[p].kind != terms[t].kind
                &&& self.transverse_partners@[p] is Some
            }
        &&& self.supports_tfim_cluster_update ==> tfim_vertices(terms, self.transverse_partners@)
    }

    /// Number of sites in a basis state.
    pub closed spec fn site_count(self) -> usize {
        self.num_sites
    }

    /// The local terms in index order.
    pub closed spec fn term_seq(self) -> Seq<SseTermShape> {
        self.terms@
    }

    /// The diagonal-update candidates.
    pub closed spec fn diagonal_seq(self) -> Seq<u32> {
        self.diagonal_term_indices@
    }

    /// The transverse partner of every term.
    pub closed spec fn partner_seq(self) -> Seq<Option<u32>> {
        self.transverse_partners@
    }

    /// Whether the TFIM cluster breakup was asked for and is valid for every
    /// vertex of this validated structure.
    pub closed spec fn tfim_cluster(self) -> bool {
        &&& self.supports_tfim_cluster_update
        &&& tfim_vertices(self.terms@, self.transverse_partners@)
        &&& valid_structure(self.terms@, self.transverse_partners@, self.num_sites as nat)
    }

    /// A structure that supports the cluster update has the vertices of the
    /// transverse-field Ising decomposition on a validated term set.
    pub proof fn lemma_tfim_cluster_vertices(self)
        requires
            self.tfim_cluster(),
        ensures
            valid_structure(self.term_seq(), self.partner_seq(), self.site_count() as nat),
            tfim_vertices(self.term_seq(), self.partner_seq()),
    {
    }

    /// Validates term supports and derives diagonal candidates and partners.
    ///
    /// `amplitude_keys[t]` is `Some` exactly for site-constant and spin-flip
    /// terms and identifies their amplitude; a term's partner is the first
    /// other such term on the same site with an equal key and the opposite
    /// classification.
    pub fn new(
        num_sites: usize,
        terms: Vec<SseTermShape>,
        amplitude_keys: Vec<Option<u64>>,
        supports_tfim_cluster_update: bool,
    ) -> (result: Result<Self, SseModelError>)
        requires
            amplitude_keys@.len() == terms@.len(),
        ensures
            match structure_fault(terms@, num_sites) {
                Some(error) => result == Err::<Self, SseModelError>(error),
                None => result matches Ok(structure) && structure.site_count() == num_sites
                    && structure.term_seq() == terms@ && structure.tfim_cluster() == (
                supports_tfim_cluster_update && tfim_vertices(terms@, structure.partner_seq()))
                    && structure.diagonal_seq()
                    == diagonal_indices(terms@, terms@.len() as int) && structure.partner_seq()
                    == Seq::new(
                    terms@.len(),
                    |t: int| first_transverse_match(terms@, amplitude_keys@, t),
                ),
            },
    {
        if terms.len() == 0 {
            return Err(SseModelError::EmptyModel);
        }
        if terms.len() > 0xffff_ffff {
            return Err(SseModelError::TooManyTerms { num_terms: terms.len() });
        }
        let count = terms.len();
        let mut index: usize = 0;
        while index < count
            invariant
                count == terms@.len(),
                0 < count <= u32::MAX,
                index <= count,
                term_fault_prefix(terms@, num_sites, index as int) is None,
            decreases count - index,
        {
            let shape = terms[index];
            proof {
                lemma_fault_prefix_step(terms@, num_sites, index as int);
            }
            match check_term(shape, index, num_sites) {
                Ok(()) => {},
                Err(error) => {
                    proof {
                        lemma_fault_prefix_reaches(terms@, num_sites, index + 1);
                    }
                    return Err(error);
                },
            }
            index += 1;
        }
        proof {
            lemma_fault_prefix_reaches(terms@, num_sites, count as int);
            assert forall|t: int| 0 <= t < count implies term_fault(terms@[t], t, num_sites) is None by {
                lemma_fault_prefix_none(terms@, num_sites, count as int, t);
            }
        }
        let diagonal_term_indices = collect_diagonal_indices(&terms);
        let transverse_partners = pair_transverse_vertices(&terms, &amplitude_keys);
        let tfim_cluster = supports_tfim_cluster_update && has_tfim_vertices(
            &terms,
            &transverse_partners,
        );
        proof {
            let ps = transverse_partners@;
            assert forall|t: int| 0 <= t < count && #[trigger] ps[t] is Some implies ps[ps[t]->0 as int] is Some by {
                let q = ps[t]->0 as int;
                assert(transverse_match(terms@, amplitude_keys@, t, q));
                assert(transverse_match(terms@, amplitude_keys@, q, t));
                assert(ps[q] == first_transverse_match(terms@, amplitude_keys@, q));
            }
        }
        let structure = SseStructure {
            num_sites,
            terms,
            diagonal_term_indices,
            transverse_partners,
            supports_tfim_cluster_update: tfim_cluster,
        };
        proof {
            use_type_invariant(&structure);
        }
        proof {
            let t_seq = structure.terms@;
            assert forall|t: int|
                0 <= t < t_seq.len() implies sites_in_range(#[trigger] t_seq[t].sites, num_sites as nat) by {
                assert(term_fault(t_seq[t], t, num_sites) is None);
            }
            assert forall|t: int|
                0 <= t < t_seq.len() implies (#[trigger] t_seq[t].sites matches SseTermSites::Bond(i, j)
                    ==> i != j) by {
                assert(term_fault(t_seq[t], t, num_sites) is None);
            }
            assert forall|t: int|
                0 <= t < t_seq.len() && #[trigger] t_seq[t].kind == OperatorKind::OffDiagonal
                    implies t_seq[t].sites is Site by {
                assert(term_fault(t_seq[t], t, num_sites) is None);
            }
            assert forall|t: int| 0 <= t < t_seq.len() implies #[trigger] t_seq[t].kind != OperatorKind::Identity by {
                assert(term_fault(t_seq[t], t, num_sites) is None);
            }
        }
        Ok(structure)
    }

    /// Returns the number of spins in a basis state.
    pub fn num_sites(&self) -> (count: usize)
        ensures
            count == self.site_count(),
    {
        self.num_sites
    }

    /// Returns the number of local terms.
    pub fn num_terms(&self) -> (count: usize)
        ensures
            count == self.term_seq().len(),
            0 < count <= u32::MAX,
    {
        proof {
            use_type_invariant(self);
        }
        self.terms.len()
    }

    /// Borrows a term by zero-based index.
    pub fn term(&self, term_index: usize) -> (term: Option<&SseTermShape>)
        ensures
            term_index < self.term_seq().len() ==> term == Some(&self.term_seq()[term_index as int]),
            term_index >= self.term_seq().len() ==> term is None,
    {
        if term_index < self.terms.len() {
            Some(&self.terms[term_index])
        } else {
            None
        }
    }

    /// Term indices eligible for diagonal insertion and removal updates.
    pub fn diagonal_term_indices(&self) -> (indices: &[u32])
        ensures
            indices@ == self.diagonal_seq(),
            indices@ == diagonal_indices(self.term_seq(), self.term_seq().len() as int),
    {
        proof {
            use_type_invariant(self);
        }
        self.diagonal_term_indices.as_slice()
    }

    /// Whether every vertex supports the transverse-field Ising cluster
    /// breakup.
    pub fn supports_tfim_cluster_update(&self) -> (supported: bool)
        ensures
            supported == self.tfim_cluster(),
    {
        proof {
            use_type_invariant(self);
        }
        self.supports_tfim_cluster_update
    }

    /// Matching diagonal/off-diagonal single-site vertex, when one exists.
    pub fn transverse_partner(&self, term_index: usize) -> (partner: Option<u32>)
        ensures
            term_index < self.partner_seq().len() ==> partner == self.partner_seq()[term_index as int],
            term_index >= self.partner_seq().len() ==> partner is None,
    {
        if term_index < self.transverse_partners.len() {
            self.transverse_partners[term_index]
        } else {
            None
        }
    }

    /// Returns the required operator-string classification for a term.
    pub fn operator_kind(&self, term_index: usize) -> (result: Result<OperatorKind, SseModelError>)
        ensures
            term_index < self.term_seq().len() ==> result == Ok::<OperatorKind, SseModelError>(
                self.term_seq()[term_index as int].kind,
            ),
            term_index >= self.term_seq().len() ==> result == Err::<OperatorKind, SseModelError>(
                SseModelError::InvalidTermIndex { term_index, num_terms: self.term_seq().len() as usize },
            ),
    {
        if term_index < self.terms.len() {
            Ok(self.terms[term_index].kind)
        } else {
            Err(SseModelError::InvalidTermIndex { term_index, num_terms: self.terms.len() })
        }
    }

    /// Whether the matrix element of a term is positive on `basis_state`.
    pub fn weight_positive(&self, term_index: usize, basis_state: &[Spin]) -> (positive: bool)
        requires
            term_index < self.term_seq().len(),
            basis_state@.len() == self.site_count(),
        ensures
            positive == weight_positive(self.term_seq()[term_index as int], basis_state@),
    {
        proof {
            use_type_invariant(self);
        }
        let shape = self.terms[term_index];
        match shape.positive {
            PositiveWeight::Always => true,
            PositiveWeight::Never => false,
            PositiveWeight::Aligned => match shape.sites {
                SseTermSites::Bond(i, j) => basis_state[i as usize] == basis_state[j as usize],
                SseTermSites::Site(_) => false,
            },
            PositiveWeight::Empty => match shape.sites {
                SseTermSites::Site(s) => basis_state[s as usize] == Spin::Down,
                SseTermSites::Bond(_, _) => false,
            },
            PositiveWeight::Occupied => match shape.sites {
                SseTermSites::Site(s) => basis_state[s as usize] == Spin::Up,
                SseTermSites::Bond(_, _) => false,
            },
            PositiveWeight::NotBothOccupied => match shape.sites {
                SseTermSites::Bond(i, j) => !(basis_state[i as usize] == Spin::Up
                    && basis_state[j as usize] == Spin::Up),
                SseTermSites::Site(_) => false,
            },
            PositiveWeight::BothOccupied => match shape.sites {
                SseTermSites::Bond(i, j) => basis_state[i as usize] == Spin::Up
                    && basis_state[j as usize] == Spin::Up,
                SseTermSites::Site(_) => false,
            },
        }
    }

    /// Brings the structure's invariant into scope.
    pub(crate) fn structure_facts(&self)
        ensures
            0 < self.term_seq().len() <= u32::MAX,
            forall|t: int|
                0 <= t < self.term_seq().len() ==> sites_in_range(
                    #[trigger] self.term_seq()[t].sites,
                    self.site_count() as nat,
                ),
            forall|t: int|
                0 <= t < self.term_seq().len() ==> (#[trigger] self.term_seq()[t].sites matches SseTermSites::Bond(
                    i,
                    j,
                ) ==> i != j),
            forall|t: int|
                0 <= t < self.term_seq().len() && #[trigger] self.term_seq()[t].kind
                    == OperatorKind::OffDiagonal ==> self.term_seq()[t].sites is Site,
            forall|t: int|
                0 <= t < self.term_seq().len() ==> #[trigger] self.term_seq()[t].kind
                    != OperatorKind::Identity,
            self.partner_seq().len() == self.term_seq().len(),
            forall|t: int|
                0 <= t < self.term_seq().len() && #[trigger] self.partner_seq()[t] is Some ==> {
                    let p = self.partner_seq()[t]->0 as int;
                    &&& 0 <= p < self.term_seq().len()
                    &&& self.term_seq()[p].sites == self.term_seq()[t].sites
                    &&& self.term_seq()[p].kind != self.term_seq()[t].kind
                    &&& self.partner_seq()[p] is Some
                },
    {
        proof {
            use_type_invariant(self);
        }
    }
}

/// Checks the sites and the classification of the term at `index`.
///
/// A site outside the model, a bond naming one site twice, an identity
/// classification, or an off-diagonal bond is an error, reported in that
/// order.
pub fn check_term(shape: SseTermShape, index: usize, num_sites: usize) -> (result: Result<(), SseModelError>)
    ensures
        match term_fault(shape, index as int, num_sites) {
            Some(error) => result == Err::<(), SseModelError>(error),
            None => result == Ok::<(), SseModelError>(()),
        },
{
    match shape.sites {
        SseTermSites::Site(site) => {
            if site as usize >= num_sites {
                return Err(SseModelError::InvalidSite { site, num_sites });
            }
        },
        SseTermSites::Bond(site_i, site_j) => {
            if site_i as usize >= num_sites {
                return Err(SseModelError::InvalidSite { site: site_i, num_sites });
            }
            if site_j as usize >= num_sites {
                return Err(SseModelError::InvalidSite { site: site_j, num_sites });
            }
            if site_i == site_j {
                return Err(SseModelError::IdenticalEndpoints { site: site_i });
            }
        },
    }
    match shape.kind {
        OperatorKind::Identity => Err(
            SseModelError::InvalidOperatorKind {
                term_index: index,
                expected: OperatorKind::Diagonal,
                received: OperatorKind::Identity,
            },
        ),
        OperatorKind::OffDiagonal => {
            if matches!(shape.sites, SseTermSites::Bond(_, _)) {
                Err(
                    SseModelError::InvalidOperatorKind {
                        term_index: index,
                        expected: OperatorKind::Diagonal,
                        received: OperatorKind::OffDiagonal,
                    },
                )
            } else {
                Ok(())
            }
        },
        OperatorKind::Diagonal => Ok(()),
    }
}

/// The error that term `index` raises during structure validation.
pub open spec fn term_fault(shape: SseTermShape, index: int, num_sites: usize) -> Option<SseModelError> {
    match shape.sites {
        SseTermSites::Site(site) => if site as int >= num_sites {
            Some(SseModelError::InvalidSite { site, num_sites })
        } else {
            kind_fault(shape, index)
        },
        SseTermSites::Bond(i, j) => if i as int >= num_sites {
            Some(SseModelError::InvalidSite { site: i, num_sites })
        } else if j as int >= num_sites {
            Some(SseModelError::InvalidSite { site: j, num_sites })
        } else if i == j {
            Some(SseModelError::IdenticalEndpoints { site: i })
        } else {
            kind_fault(shape, index)
        },
    }
}

/// The classification error of a term, if any.
pub open spec fn kind_fault(shape: SseTermShape, index: int) -> Option<SseModelError> {
    match shape.kind {
        OperatorKind::Identity => Some(
            SseModelError::InvalidOperatorKind {
                term_index: index as usize,
                expected: OperatorKind::Diagonal,
                received: OperatorKind::Identity,
            },
        ),
        OperatorKind::OffDiagonal => if matches!(shape.sites, SseTermSites::Bond(_, _)) {
            Some(
                SseModelError::InvalidOperatorKind {
                    term_index: index as usize,
                    expected: OperatorKind::Diagonal,
                    received: OperatorKind::OffDiagonal,
                },
            )
        } else {
            None
        },
        OperatorKind::Diagonal => None,
    }
}

/// The first fault among the first `count` terms.
pub open spec fn term_fault_prefix(terms: Seq<SseTermShape>, num_sites: usize, count: int) -> Option<
    SseModelError,
>
    decreases count,
{
    if count <= 0 {
        None
    } else {
        match term_fault_prefix(terms, num_sites, count - 1) {
            Some(error) => Some(error),
            None => term_fault(terms[count - 1], count - 1, num_sites),
        }
    }
}

/// The error raised by structure validation, if any.
pub open spec fn structure_fault(terms: Seq<SseTermShape>, num_sites: usize) -> Option<SseModelError> {
    if terms.len() == 0 {
        Some(SseModelError::EmptyModel)
    } else if terms.len() > u32::MAX {
        Some(SseModelError::TooManyTerms { num_terms: terms.len() as usize })
    } else {
        term_fault_prefix(terms, num_sites, terms.len() as int)
    }
}

proof fn lemma_fault_prefix_step(terms: Seq<SseTermShape>, num_sites: usize, count: int)
    requires
        0 <= count,
        term_fault_prefix(terms, num_sites, count) is None,
    ensures
        term_fault_prefix(terms, num_sites, count + 1) == term_fault(terms[count], count, num_sites),
{
}

proof fn lemma_fault_prefix_reaches(terms: Seq<SseTermShape>, num_sites: usize, count: int)
    requires
        0 <= count <= terms.len(),
    ensures
        term_fault_prefix(terms, num_sites, count) is Some ==> term_fault_prefix(
            terms,
            num_sites,
            terms.len() as int,
        ) == term_fault_prefix(terms, num_sites, count),
    decreases terms.len() - count,
{
    if count < terms.len() {
        lemma_fault_prefix_reaches(terms, num_sites, count + 1);
    }
}

proof fn lemma_fault_prefix_none(terms: Seq<SseTermShape>, num_sites: usize, count: int, t: int)
    requires
        0 <= t < count,
        term_fault_prefix(terms, num_sites, count) is None,
    ensures
        term_fault(terms[t], t, num_sites) is None,
    decreases count,
{
    if t < count - 1 {
        lemma_fault_prefix_none(terms, num_sites, count - 1, t);
    }
}

/// Indices of the diagonal terms among the first `count` terms, in order.
pub open spec fn diagonal_indices(terms: Seq<SseTermShape>, count: int) -> Seq<u32>
    decreases count,
{
    if count <= 0 {
        Seq::empty()
    } else if terms[count - 1].kind == OperatorKind::Diagonal {
        diagonal_indices(terms, count - 1).push((count - 1) as u32)
    } else {
        diagonal_indices(terms, count - 1)
    }
}

/// Every entry of the diagonal index list names a diagonal term, and every
/// diagonal term is listed.
pub proof fn lemma_diagonal_indices_exact(terms: Seq<SseTermShape>, count: int, t: int)
    requires
        0 <= count <= terms.len() <= u32::MAX,
    ensures
        (exists|k: int|
            0 <= k < diagonal_indices(terms, count).len() && diagonal_indices(terms, count)[k] as int
                == t) <==> (0 <= t < count && terms[t].kind == OperatorKind::Diagonal),
        forall|k: int|
            0 <= k < diagonal_indices(terms, count).len() ==> {
                let d = #[trigger] diagonal_indices(terms, count)[k] as int;
                0 <= d < count && terms[d].kind == OperatorKind::Diagonal
            },
    decreases count,
{
    if count > 0 {
        lemma_diagonal_indices_exact(terms, count - 1, t);
        let prev = diagonal_indices(terms, count - 1);
        if terms[count - 1].kind == OperatorKind::Diagonal {
            let cur = prev.push((count - 1) as u32);
            if 0 <= t < count - 1 && terms[t].kind == OperatorKind::Diagonal {
                let k = choose|k: int| 0 <= k < prev.len() && prev[k] as int == t;
                assert(cur[k] as int == t);
            }
            if t == count - 1 {
                assert(cur[prev.len() as int] as int == t);
            }
            if exists|k: int| 0 <= k < cur.len() && cur[k] as int == t {
                let k = choose|k: int| 0 <= k < cur.len() && cur[k] as int == t;
                if k < prev.len() {
                    assert(prev[k] as int == t);
                }
            }
        }
    }
}

fn collect_diagonal_indices(terms: &Vec<SseTermShape>) -> (indices: Vec<u32>)
    requires
        terms@.len() <= u32::MAX,
    ensures
        indices@ == diagonal_indices(terms@, terms@.len() as int),
{
    let mut indices: Vec<u32> = Vec::new();
    let mut index: usize = 0;
    while index < terms.len()
        invariant
            index <= terms@.len() <= u32::MAX,
            indices@ == diagonal_indices(terms@, index as int),
        decreases terms@.len() - index,
    {
        if terms[index].kind == OperatorKind::Diagonal {
            indices.push(index as u32);
        }
        index += 1;
    }
    indices
}

/// Whether the terms, with their partners, are the vertices of the
/// transverse-field Ising decomposition.
fn has_tfim_vertices(terms: &Vec<SseTermShape>, partners: &Vec<Option<u32>>) -> (holds: bool)
    requires
        partners@.len() == terms@.len(),
        forall|t: int|
            0 <= t < terms@.len() && #[trigger] partners@[t] is Some ==> (partners@[t]->0 as int)
                < terms@.len(),
    ensures
        holds == tfim_vertices(terms@, partners@),
{
    let count = terms.len();
    let mut index: usize = 0;
    while index < count
        invariant
            count == terms@.len() == partners@.len(),
            index <= count,
            forall|t: int|
                0 <= t < terms@.len() && #[trigger] partners@[t] is Some ==> (partners@[t]->0 as int)
                    < terms@.len(),
            forall|t: int| 0 <= t < index ==> tfim_vertex(terms@, partners@, t),
        decreases count - index,
    {
        let term = terms[index];
        let fits = match term.sites {
            SseTermSites::Site(_) => match partners[index] {
                Some(partner) => (term.positive == PositiveWeight::Always || term.positive
                    == PositiveWeight::Never) && terms[partner as usize].positive == term.positive,
                None => false,
            },
            SseTermSites::Bond(_, _) => term.kind == OperatorKind::Diagonal && (term.positive
                == PositiveWeight::Aligned || term.positive == PositiveWeight::Never),
        };
        if !fits {
            proof {
                assert(!tfim_vertex(terms@, partners@, index as int));
            }
            return false;
        }
        index += 1;
    }
    true
}

fn pair_transverse_vertices(terms: &Vec<SseTermShape>, keys: &Vec<Option<u64>>) -> (partners: Vec<
    Option<u32>,
>)
    requires
        keys@.len() == terms@.len() <= u32::MAX,
    ensures
        partners@ == Seq::new(terms@.len(), |t: int| first_transverse_match(terms@, keys@, t)),
        forall|t: int|
            0 <= t < terms@.len() && #[trigger] partners@[t] is Some ==> {
                let p = partners@[t]->0 as int;
                &&& 0 <= p < terms@.len()
                &&& terms@[p].sites == terms@[t].sites
                &&& terms@[p].kind != terms@[t].kind
                &&& transverse_match(terms@, keys@, t, p)
            },
{
    let count = terms.len();
    let mut partners: Vec<Option<u32>> = Vec::new();
    let mut left: usize = 0;
    while left < count
        invariant
            count == terms@.len() == keys@.len() <= u32::MAX,
            left <= count,
            partners@ =~= Seq::new(left as nat, |t: int| first_transverse_match(terms@, keys@, t)),
            forall|t: int|
                0 <= t < left && #[trigger] partners@[t] is Some ==> {
                    let p = partners@[t]->0 as int;
                    &&& 0 <= p < terms@.len()
                    &&& terms@[p].sites == terms@[t].sites
                    &&& terms@[p].kind != terms@[t].kind
                    &&& transverse_match(terms@, keys@, t, p)
                },
        decreases count - left,
    {
        let mut found: Option<u32> = None;
        if keys[left].is_some() {
            let mut right: usize = 0;
            while right < count && found.is_none()
                invariant
                    count == terms@.len() == keys@.len() <= u32::MAX,
                    left < count,
                    right <= count,
                    keys@[left as int] is Some,
                    found is None ==> forall|other: int|
                        0 <= other < right ==> !transverse_match(terms@, keys@, left as int, other),
                    found matches Some(r) ==> r < count && transverse_match(
                        terms@,
                        keys@,
                        left as int,
                        r as int,
                    ) && forall|other: int|
                        0 <= other < r ==> !transverse_match(terms@, keys@, left as int, other),
                decreases count - right,
            {
                let same_key = match (keys[left], keys[right]) {
                    (Some(a), Some(b)) => a == b,
                    _ => false,
                };
                let left_shape = terms[left];
                let right_shape = terms[right];
                let left_site = match left_shape.sites {
                    SseTermSites::Site(s) => Some(s),
                    SseTermSites::Bond(_, _) => None,
                };
                let right_site = match right_shape.sites {
                    SseTermSites::Site(s) => Some(s),
                    SseTermSites::Bond(_, _) => None,
                };
                let same_site = match (left_site, right_site) {
                    (Some(a), Some(b)) => a == b,
                    _ => false,
                };
                if same_key && same_site && left_shape.kind != right_shape.kind {
                    found = Some(right as u32);
                }
                right += 1;
            }
            proof {
                let m = first_transverse_match(terms@, keys@, left as int);
                match found {
                    Some(r) => {
                        let witness = choose|right: int|
                            0 <= right < terms@.len() && transverse_match(
                                terms@,
                                keys@,
                                left as int,
                                right,
                            ) && forall|other: int|
                                0 <= other < right ==> !transverse_match(
                                    terms@,
                                    keys@,
                                    left as int,
                                    other,
                                );
                        assert(transverse_match(terms@, keys@, left as int, r as int));
                        assert(exists|right: int|
                            0 <= right < terms@.len() && transverse_match(
                                terms@,
                                keys@,
                                left as int,
                                right,
                            ) && forall|other: int|
                                0 <= other < right ==> !transverse_match(
                                    terms@,
                                    keys@,
                                    left as int,
                                    other,
                                ));
                        if witness < r {
                        } else if witness > r {
                        }
                        assert(witness == r);
                        assert(m == Some(r));
                    },
                    None => {
                        assert(m is None);
                    },
                }
            }
        }
        partners.push(found);
        left += 1;
    }
    partners
}

} // verus!
