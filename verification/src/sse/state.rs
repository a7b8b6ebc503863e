//! Basis state, padded operator string, and trace propagation.

use vstd::prelude::*;

use crate::labels::{eigenvalue, flipped, OperatorKind, Spin};
use crate::sse::clusters::{cluster_labels, lemma_partner_exchange_keeps_clusters};
use crate::sse::{weight_positive, SseModelError, SseStructure, SseTermShape, SseTermSites};

verus! {

/// Term index stored in identity entries.
pub const NO_TERM: u32 = 0xffff_ffff;

/// One position in a padded SSE operator string.
///
/// Identity entries use an internal sentinel term index. For non-identity
/// entries, `term_index` addresses the corresponding model term.
#[derive(Clone, Copy, Debug)]
pub struct Operator {
    /// Identity, diagonal, or off-diagonal classification.
    pub kind: OperatorKind,
    /// Model term index, or an internal sentinel for an identity entry.
    pub term_index: u32,
}

impl Operator {
    /// Constructs an unused identity entry.
    #[must_use]
    pub fn identity() -> (operator: Self)
        ensures
            operator == (Operator { kind: OperatorKind::Identity, term_index: NO_TERM }),
    {
        Self { kind: OperatorKind::Identity, term_index: NO_TERM }
    }

    /// Constructs a diagonal entry referring to `term_index`.
    #[must_use]
    pub fn diagonal(term_index: u32) -> (operator: Self)
        ensures
            operator == (Operator { kind: OperatorKind::Diagonal, term_index }),
    {
        Self { kind: OperatorKind::Diagonal, term_index }
    }

    /// Constructs an off-diagonal entry referring to `term_index`.
    #[must_use]
    pub fn off_diagonal(term_index: u32) -> (operator: Self)
        ensures
            operator == (Operator { kind: OperatorKind::OffDiagonal, term_index }),
    {
        Self { kind: OperatorKind::OffDiagonal, term_index }
    }

    /// Returns the referenced model index, or `None` for an identity entry.
    #[must_use]
    pub fn term_index(&self) -> (index: Option<usize>)
        ensures
            self.kind == OperatorKind::Identity ==> index is None,
            self.kind != OperatorKind::Identity ==> index == Some(self.term_index as usize),
    {
        match self.kind {
            OperatorKind::Identity => None,
            OperatorKind::Diagonal | OperatorKind::OffDiagonal => Some(self.term_index as usize),
        }
    }
}

/// Number of non-identity operators in a string.
pub open spec fn expansion_order_of(operators: Seq<Operator>) -> nat
    decreases operators.len(),
{
    if operators.len() == 0 {
        0
    } else {
        expansion_order_of(operators.drop_last()) + if operators.last().kind
            == OperatorKind::Identity {
            0nat
        } else {
            1nat
        }
    }
}

/// Effect of one operator-string entry on the propagated basis state.
pub open spec fn propagation_step(
    terms: Seq<SseTermShape>,
    state: Seq<Spin>,
    operator: Operator,
) -> Result<Seq<Spin>, SseModelError> {
    if operator.kind == OperatorKind::Identity {
        Ok(state)
    } else {
        let t = operator.term_index as int;
        if t >= terms.len() {
            Err(
                SseModelError::InvalidTermIndex {
                    term_index: operator.term_index as usize,
                    num_terms: terms.len() as usize,
                },
            )
        } else if operator.kind != terms[t].kind {
            Err(
                SseModelError::InvalidOperatorKind {
                    term_index: operator.term_index as usize,
                    expected: terms[t].kind,
                    received: operator.kind,
                },
            )
        } else if !weight_positive(terms[t], state) {
            Err(SseModelError::ZeroMatrixElement { term_index: operator.term_index as usize })
        } else if operator.kind == OperatorKind::OffDiagonal {
            match terms[t].sites {
                SseTermSites::Site(s) => Ok(state.update(s as int, flipped(state[s as int]))),
                SseTermSites::Bond(_, _) => Ok(state),
            }
        } else {
            Ok(state)
        }
    }
}

/// Propagation of `state` through every entry of `operators` in order.
pub open spec fn propagate_through(
    terms: Seq<SseTermShape>,
    state: Seq<Spin>,
    operators: Seq<Operator>,
) -> Result<Seq<Spin>, SseModelError>
    decreases operators.len(),
{
    if operators.len() == 0 {
        Ok(state)
    } else {
        match propagate_through(terms, state, operators.drop_last()) {
            Err(error) => Err(error),
            Ok(current) => propagation_step(terms, current, operators.last()),
        }
    }
}

/// Whether the operator string propagates `state` without error back to
/// itself.
pub open spec fn trace_closes(
    terms: Seq<SseTermShape>,
    state: Seq<Spin>,
    operators: Seq<Operator>,
) -> bool {
    propagate_through(terms, state, operators) == Ok::<Seq<Spin>, SseModelError>(state)
}

/// Result of propagating an [`SSEState`] through its operator string.
#[derive(Debug)]
pub struct BasisPropagation {
    /// Basis state after applying every non-identity operator in order.
    pub final_state: Vec<Spin>,
    /// Whether `final_state` equals the state's initial boundary state.
    pub trace_closed: bool,
}

/// Mutable Monte Carlo state for a fixed-length SSE representation.
///
/// The state contains the Pauli-z basis state at the imaginary-time boundary
/// and a padded operator string. Valid configurations close the trace when the
/// entire string is propagated.
#[derive(Clone, Debug)]
pub struct SSEState {
    basis_state: Vec<Spin>,
    operator_string: Vec<Operator>,
}

/// Two basis states are equal exactly when every spin agrees.
fn same_spins(left: &Vec<Spin>, right: &Vec<Spin>) -> (equal: bool)
    ensures
        equal == (left@ == right@),
{
    if left.len() != right.len() {
        return false;
    }
    let mut index: usize = 0;
    while index < left.len()
        invariant
            left@.len() == right@.len(),
            index <= left@.len(),
            forall|k: int| 0 <= k < index ==> left@[k] == right@[k],
        decreases left@.len() - index,
    {
        if left[index] != right[index] {
            return false;
        }
        index += 1;
    }
    proof {
        assert(left@ =~= right@);
    }
    true
}

impl SSEState {
    /// The spin state at the imaginary-time boundary.
    pub closed spec fn basis_seq(&self) -> Seq<Spin> {
        self.basis_state@
    }

    /// The complete padded operator string.
    pub closed spec fn operator_seq(&self) -> Seq<Operator> {
        self.operator_string@
    }

    /// Creates an identity-filled operator string around an initial basis state.
    ///
    /// Returns [`SseModelError::InvalidBasisStateLength`] if there is not one
    /// spin per model site, or [`SseModelError::InvalidOperatorStringLength`]
    /// if `operator_string_length` is zero.
    pub fn new(model: &SseStructure, basis_state: Vec<Spin>, operator_string_length: usize) -> (result: Result<
        Self,
        SseModelError,
    >)
        ensures
            basis_state@.len() != model.site_count() ==> result == Err::<Self, SseModelError>(
                SseModelError::InvalidBasisStateLength {
                    received: basis_state@.len() as usize,
                    expected: model.site_count(),
                },
            ),
            basis_state@.len() == model.site_count() && operator_string_length == 0 ==> result
                == Err::<Self, SseModelError>(SseModelError::InvalidOperatorStringLength),
            basis_state@.len() == model.site_count() && operator_string_length > 0 ==> (result matches Ok(
                state,
            ) && state.basis_seq() == basis_state@ && state.operator_seq() == Seq::new(
                operator_string_length as nat,
                |k: int| Operator { kind: OperatorKind::Identity, term_index: NO_TERM },
            )),
    {
        if basis_state.len() != model.num_sites() {
            return Err(
                SseModelError::InvalidBasisStateLength {
                    received: basis_state.len(),
                    expected: model.num_sites(),
                },
            );
        }
        if operator_string_length == 0 {
            return Err(SseModelError::InvalidOperatorStringLength);
        }
        let mut operator_string: Vec<Operator> = Vec::with_capacity(operator_string_length);
        let mut count: usize = 0;
        while count < operator_string_length
            invariant
                count <= operator_string_length,
                operator_string@ =~= Seq::new(
                    count as nat,
                    |k: int| Operator { kind: OperatorKind::Identity, term_index: NO_TERM },
                ),
            decreases operator_string_length - count,
        {
            operator_string.push(Operator::identity());
            count += 1;
        }
        Ok(Self { basis_state, operator_string })
    }

    /// Borrows the spin state at the imaginary-time boundary.
    #[must_use]
    pub fn basis_state(&self) -> (spins: &[Spin])
        ensures
            spins@ == self.basis_seq(),
    {
        self.basis_state.as_slice()
    }

    /// Borrows the complete padded operator string.
    #[must_use]
    pub fn operator_string(&self) -> (operators: &[Operator])
        ensures
            operators@ == self.operator_seq(),
    {
        self.operator_string.as_slice()
    }

    /// Number of non-identity operators in the current string.
    #[must_use]
    pub fn expansion_order(&self) -> (order: usize)
        ensures
            order == expansion_order_of(self.operator_seq()),
    {
        let mut order: usize = 0;
        let mut index: usize = 0;
        while index < self.operator_string.len()
            invariant
                index <= self.operator_string@.len(),
                order == expansion_order_of(self.operator_string@.take(index as int)),
                order <= index,
            decreases self.operator_string@.len() - index,
        {
            proof {
                assert(self.operator_string@.take(index + 1).drop_last() =~= self.operator_string@.take(
                    index as int,
                ));
            }
            if self.operator_string[index].kind != OperatorKind::Identity {
                order += 1;
            }
            index += 1;
        }
        proof {
            assert(self.operator_string@.take(index as int) =~= self.operator_string@);
        }
        order
    }

    /// Returns the current padded operator-string cutoff `M`.
    #[must_use]
    pub fn operator_string_length(&self) -> (length: usize)
        ensures
            length == self.operator_seq().len(),
    {
        self.operator_string.len()
    }

    /// Increase the fixed-length cutoff while preserving all operators.
    ///
    /// Requests at or below the current length have no effect.
    pub fn grow_operator_string(&mut self, new_length: usize)
        ensures
            final(self).basis_seq() == old(self).basis_seq(),
            new_length <= old(self).operator_seq().len() ==> final(self).operator_seq() == old(
                self,
            ).operator_seq(),
            new_length > old(self).operator_seq().len() ==> final(self).operator_seq() == old(
                self,
            ).operator_seq() + Seq::new(
                (new_length - old(self).operator_seq().len()) as nat,
                |k: int| Operator { kind: OperatorKind::Identity, term_index: NO_TERM },
            ),
    {
        let ghost original = self.operator_string@;
        if new_length > self.operator_string.len() {
            let start = self.operator_string.len();
            while self.operator_string.len() < new_length
                invariant
                    start == original.len(),
                    self.basis_state@ == old(self).basis_state@,
                    start <= self.operator_string@.len() <= new_length,
                    self.operator_string@ =~= original + Seq::new(
                        (self.operator_string@.len() - start) as nat,
                        |k: int| Operator { kind: OperatorKind::Identity, term_index: NO_TERM },
                    ),
                decreases new_length - self.operator_string@.len(),
            {
                self.operator_string.push(Operator::identity());
            }
        }
    }

    /// Grows the cutoff when fewer than `max(M / 4, 16)` identity positions
    /// remain, by `max(M / 3, 16)` positions.
    ///
    /// Returns `true` if the cutoff grew. Growth preserves all existing
    /// operators and appends identity positions.
    pub fn ensure_operator_headroom(&mut self) -> (grew: bool)
        requires
            old(self).operator_seq().len() + max_nat(old(self).operator_seq().len() / 3, 16)
                <= usize::MAX,
        ensures
            ({
                let cutoff = old(self).operator_seq().len();
                let order = expansion_order_of(old(self).operator_seq());
                let minimum_empty = max_nat(cutoff / 4, 16);
                let growth = max_nat(cutoff / 3, 16);
                &&& grew == (cutoff - order < minimum_empty)
                &&& final(self).basis_seq() == old(self).basis_seq()
                &&& grew ==> final(self).operator_seq() == old(self).operator_seq() + Seq::new(
                    growth as nat,
                    |k: int| Operator { kind: OperatorKind::Identity, term_index: NO_TERM },
                )
                &&& !grew ==> final(self).operator_seq() == old(self).operator_seq()
            }),
    {
        let cutoff = self.operator_string_length();
        let expansion_order = self.expansion_order();
        proof {
            lemma_order_bounded(self.operator_string@);
        }
        let quarter = cutoff / 4;
        let minimum_empty = if quarter > 16 {
            quarter
        } else {
            16
        };
        if cutoff - expansion_order >= minimum_empty {
            return false;
        }
        let third = cutoff / 3;
        let growth = if third > 16 {
            third
        } else {
            16
        };
        self.grow_operator_string(cutoff + growth);
        true
    }

    /// Propagates the basis state through the complete operator string.
    ///
    /// Identity positions are skipped. Every other position is checked against
    /// the model's operator classification, must have a positive matrix
    /// element, and applies its off-diagonal action when necessary.
    pub fn propagate(&self, model: &SseStructure) -> (result: Result<BasisPropagation, SseModelError>)
        ensures
            self.basis_seq().len() != model.site_count() ==> result == Err::<
                BasisPropagation,
                SseModelError,
            >(
                SseModelError::InvalidBasisStateLength {
                    received: self.basis_seq().len() as usize,
                    expected: model.site_count(),
                },
            ),
            self.basis_seq().len() == model.site_count() ==> match propagate_through(
                model.term_seq(),
                self.basis_seq(),
                self.operator_seq(),
            ) {
                Ok(final_state) => result matches Ok(propagation) && propagation.final_state@
                    == final_state && propagation.trace_closed == (final_state
                    == self.basis_seq()),
                Err(error) => result == Err::<BasisPropagation, SseModelError>(error),
            },
    {
        if self.basis_state.len() != model.num_sites() {
            return Err(
                SseModelError::InvalidBasisStateLength {
                    received: self.basis_state.len(),
                    expected: model.num_sites(),
                },
            );
        }
        let mut working_state = self.basis_state.clone();
        model.structure_facts();
        proof {
            assert(working_state@ =~= self.basis_state@);
        }
        let ghost terms = model.term_seq();
        let ghost ops = self.operator_string@;
        let mut position: usize = 0;
        while position < self.operator_string.len()
            invariant
                terms == model.term_seq(),
                ops == self.operator_string@,
                position <= ops.len(),
                working_state@.len() == model.site_count(),
                self.basis_state@.len() == model.site_count(),
                propagate_through(terms, self.basis_state@, ops.take(position as int)) == Ok::<
                    Seq<Spin>,
                    SseModelError,
                >(working_state@),
                forall|t: int|
                    0 <= t < terms.len() && #[trigger] terms[t].kind == OperatorKind::OffDiagonal
                        ==> terms[t].sites is Site,
                forall|t: int|
                    0 <= t < terms.len() ==> crate::sse::sites_in_range(
                        #[trigger] terms[t].sites,
                        model.site_count() as nat,
                    ),
            decreases ops.len() - position,
        {
            let operator = self.operator_string[position];
            proof {
                assert(ops.take(position + 1).drop_last() =~= ops.take(position as int));
                if propagate_through(terms, self.basis_state@, ops.take(position + 1)) is Err {
                    lemma_prefix_error_persists(terms, self.basis_state@, ops, position + 1);
                }
            }
            if operator.kind != OperatorKind::Identity {
                let term_index = match operator.term_index() {
                    Some(index) => index,
                    None => {
                        return Err(
                            SseModelError::InvalidOperatorReference {
                                position,
                                term_index: operator.term_index,
                            },
                        );
                    },
                };
                let expected_kind = match model.operator_kind(term_index) {
                    Ok(kind) => kind,
                    Err(error) => {
                        return Err(error);
                    },
                };
                if operator.kind != expected_kind {
                    return Err(
                        SseModelError::InvalidOperatorKind {
                            term_index,
                            expected: expected_kind,
                            received: operator.kind,
                        },
                    );
                }
                if !model.weight_positive(term_index, working_state.as_slice()) {
                    return Err(SseModelError::ZeroMatrixElement { term_index });
                }
                if operator.kind == OperatorKind::OffDiagonal {
                    match model.apply_off_diagonal(term_index, &mut working_state) {
                        Ok(()) => {},
                        Err(error) => {
                            return Err(error);
                        },
                    }
                }
            }
            position += 1;
        }
        proof {
            assert(ops.take(position as int) =~= ops);
        }
        let trace_closed = same_spins(&working_state, &self.basis_state);
        Ok(BasisPropagation { final_state: working_state, trace_closed })
    }

    /// Verifies periodic imaginary-time boundary conditions.
    ///
    /// Propagation errors are forwarded. A valid propagation whose final state
    /// differs from its initial state returns [`SseModelError::TraceNotClosed`].
    pub fn validate_trace(&self, model: &SseStructure) -> (result: Result<(), SseModelError>)
        ensures
            self.basis_seq().len() != model.site_count() ==> result == Err::<(), SseModelError>(
                SseModelError::InvalidBasisStateLength {
                    received: self.basis_seq().len() as usize,
                    expected: model.site_count(),
                },
            ),
            self.basis_seq().len() == model.site_count() ==> match propagate_through(
                model.term_seq(),
                self.basis_seq(),
                self.operator_seq(),
            ) {
                Ok(final_state) => if final_state == self.basis_seq() {
                    result == Ok::<(), SseModelError>(())
                } else {
                    result == Err::<(), SseModelError>(SseModelError::TraceNotClosed)
                },
                Err(error) => result == Err::<(), SseModelError>(error),
            },
            result is Ok <==> (self.basis_seq().len() == model.site_count() && trace_closes(
                model.term_seq(),
                self.basis_seq(),
                self.operator_seq(),
            )),
    {
        let propagation = match self.propagate(model) {
            Ok(propagation) => propagation,
            Err(error) => {
                return Err(error);
            },
        };
        if !propagation.trace_closed {
            return Err(SseModelError::TraceNotClosed);
        }
        Ok(())
    }

    /// Places a diagonal operator at an identity position.
    pub fn insert_diagonal(&mut self, position: usize, term_index: u32)
        requires
            position < old(self).operator_seq().len(),
            old(self).operator_seq()[position as int].kind == OperatorKind::Identity,
        ensures
            final(self).basis_seq() == old(self).basis_seq(),
            final(self).operator_seq() == old(self).operator_seq().update(
                position as int,
                Operator { kind: OperatorKind::Diagonal, term_index },
            ),
            expansion_order_of(final(self).operator_seq()) == expansion_order_of(
                old(self).operator_seq(),
            ) + 1,
    {
        proof {
            lemma_order_update(self.operator_string@, position as int, Operator::diagonal_spec(term_index));
        }
        self.operator_string.set(position, Operator::diagonal(term_index));
    }

    /// Replaces a diagonal operator with an identity entry.
    pub fn remove_diagonal(&mut self, position: usize)
        requires
            position < old(self).operator_seq().len(),
            old(self).operator_seq()[position as int].kind == OperatorKind::Diagonal,
        ensures
            final(self).basis_seq() == old(self).basis_seq(),
            final(self).operator_seq() == old(self).operator_seq().update(
                position as int,
                Operator { kind: OperatorKind::Identity, term_index: NO_TERM },
            ),
            expansion_order_of(final(self).operator_seq()) + 1 == expansion_order_of(
                old(self).operator_seq(),
            ),
    {
        proof {
            lemma_order_update(self.operator_string@, position as int, Operator { kind: OperatorKind::Identity, term_index: NO_TERM });
        }
        self.operator_string.set(position, Operator::identity());
    }

    /// Replaces the operator at `position` by its transverse partner vertex.
    pub fn toggle_transverse(&mut self, position: usize, model: &SseStructure) -> (result: Result<
        (),
        SseModelError,
    >)
        requires
            position < old(self).operator_seq().len(),
        ensures
            final(self).basis_seq() == old(self).basis_seq(),
            ({
                let operator = old(self).operator_seq()[position as int];
                let t = operator.term_index as int;
                if operator.kind != OperatorKind::Identity && t < model.partner_seq().len()
                    && model.partner_seq()[t] is Some {
                    let partner = model.partner_seq()[t]->0;
                    &&& result is Ok
                    &&& final(self).operator_seq() == old(self).operator_seq().update(
                        position as int,
                        Operator { kind: model.term_seq()[partner as int].kind, term_index: partner },
                    )
                } else {
                    &&& result == Err::<(), SseModelError>(
                        SseModelError::InvalidOperatorReference {
                            position,
                            term_index: operator.term_index,
                        },
                    )
                    &&& final(self).operator_seq() == old(self).operator_seq()
                }
            }),
            forall|site: int|
                #[trigger] transverse_positions_before(
                    final(self).operator_seq(),
                    model.term_seq(),
                    model.partner_seq(),
                    site,
                    final(self).operator_seq().len() as int,
                ) == transverse_positions_before(
                    old(self).operator_seq(),
                    model.term_seq(),
                    model.partner_seq(),
                    site,
                    old(self).operator_seq().len() as int,
                ),
            (forall|p: int|
                0 <= p < old(self).operator_seq().len() && #[trigger] old(self).operator_seq()[p].kind
                    != OperatorKind::Identity ==> old(self).operator_seq()[p].term_index
                    < model.term_seq().len()) ==> cluster_labels(
                final(self).operator_seq(),
                model.term_seq(),
                model.partner_seq(),
                model.site_count() as int,
            ) == cluster_labels(
                old(self).operator_seq(),
                model.term_seq(),
                model.partner_seq(),
                model.site_count() as int,
            ),
    {
        model.structure_facts();
        proof {
            let ops = self.operator_string@;
            let operator = ops[position as int];
            let t = operator.term_index as int;
            if operator.kind != OperatorKind::Identity && t < model.partner_seq().len()
                && model.partner_seq()[t] is Some {
                assert forall|site: int|
                    #[trigger] transverse_positions_before(
                        ops.update(
                            position as int,
                            Operator {
                                kind: model.term_seq()[model.partner_seq()[t]->0 as int].kind,
                                term_index: model.partner_seq()[t]->0,
                            },
                        ),
                        model.term_seq(),
                        model.partner_seq(),
                        site,
                        ops.len() as int,
                    ) == transverse_positions_before(
                        ops,
                        model.term_seq(),
                        model.partner_seq(),
                        site,
                        ops.len() as int,
                    ) by {
                    lemma_partner_exchange_keeps_transverse_positions(
                        ops,
                        model.term_seq(),
                        model.partner_seq(),
                        position as int,
                        site,
                    );
                }
                if forall|p: int|
                    0 <= p < ops.len() && #[trigger] ops[p].kind != OperatorKind::Identity
                        ==> ops[p].term_index < model.term_seq().len() {
                    lemma_partner_exchange_keeps_clusters(
                        ops,
                        model.term_seq(),
                        model.partner_seq(),
                        model.site_count() as int,
                        position as int,
                    );
                }
            }
        }
        let operator = self.operator_string[position];
        let term_index = match operator.term_index() {
            Some(index) => index,
            None => {
                return Err(
                    SseModelError::InvalidOperatorReference {
                        position,
                        term_index: operator.term_index,
                    },
                );
            },
        };
        let partner = match model.transverse_partner(term_index) {
            Some(partner) => partner,
            None => {
                return Err(
                    SseModelError::InvalidOperatorReference {
                        position,
                        term_index: operator.term_index,
                    },
                );
            },
        };
        let kind = match model.operator_kind(partner as usize) {
            Ok(kind) => kind,
            Err(error) => {
                return Err(error);
            },
        };
        self.operator_string.set(position, Operator { kind, term_index: partner });
        Ok(())
    }

    /// Overwrites the operator at `position`.
    pub(crate) fn replace_operator(&mut self, position: usize, operator: Operator)
        requires
            position < old(self).operator_seq().len(),
        ensures
            final(self).basis_seq() == old(self).basis_seq(),
            final(self).operator_seq() == old(self).operator_seq().update(position as int, operator),
    {
        self.operator_string.set(position, operator);
    }

    /// Flips the boundary spin of one site.
    pub fn flip_boundary_spin(&mut self, site: usize)
        requires
            site < old(self).basis_seq().len(),
        ensures
            final(self).operator_seq() == old(self).operator_seq(),
            final(self).basis_seq() == old(self).basis_seq().update(
                site as int,
                flipped(old(self).basis_seq()[site as int]),
            ),
    {
        let spin = self.basis_state[site];
        self.basis_state.set(site, spin.flip());
    }
}

impl Operator {
    /// A diagonal operator referring to `term_index`.
    pub open spec fn diagonal_spec(term_index: u32) -> Operator {
        Operator { kind: OperatorKind::Diagonal, term_index }
    }
}

/// The larger of two natural numbers.
pub open spec fn max_nat(a: nat, b: nat) -> nat {
    if a > b {
        a
    } else {
        b
    }
}

impl SseStructure {
    /// Applies an off-diagonal local term to a mutable basis state.
    ///
    /// Returns an error for invalid indices or diagonal terms.
    pub fn apply_off_diagonal(&self, term_index: usize, basis_state: &mut Vec<Spin>) -> (result: Result<
        (),
        SseModelError,
    >)
        requires
            old(basis_state)@.len() == self.site_count(),
        ensures
            term_index >= self.term_seq().len() ==> result == Err::<(), SseModelError>(
                SseModelError::InvalidTermIndex { term_index, num_terms: self.term_seq().len() as usize },
            ) && final(basis_state)@ == old(basis_state)@,
            term_index < self.term_seq().len() && self.term_seq()[term_index as int].kind
                != OperatorKind::OffDiagonal ==> result == Err::<(), SseModelError>(
                SseModelError::InvalidOperatorKind {
                    term_index,
                    expected: OperatorKind::OffDiagonal,
                    received: OperatorKind::Diagonal,
                },
            ) && final(basis_state)@ == old(basis_state)@,
            term_index < self.term_seq().len() && self.term_seq()[term_index as int].kind
                == OperatorKind::OffDiagonal ==> result is Ok && match self.term_seq()[term_index as int].sites {
                SseTermSites::Site(s) => final(basis_state)@ == old(basis_state)@.update(
                    s as int,
                    flipped(old(basis_state)@[s as int]),
                ),
                SseTermSites::Bond(_, _) => final(basis_state)@ == old(basis_state)@,
            },
    {
        self.structure_facts();
        let shape = match self.term(term_index) {
            Some(shape) => *shape,
            None => {
                return Err(
                    SseModelError::InvalidTermIndex { term_index, num_terms: self.num_terms() },
                );
            },
        };
        if shape.kind != OperatorKind::OffDiagonal {
            return Err(
                SseModelError::InvalidOperatorKind {
                    term_index,
                    expected: OperatorKind::OffDiagonal,
                    received: OperatorKind::Diagonal,
                },
            );
        }
        match shape.sites {
            SseTermSites::Site(site) => {
                let spin = basis_state[site as usize];
                basis_state.set(site as usize, spin.flip());
                Ok(())
            },
            SseTermSites::Bond(_, _) => Ok(()),
        }
    }
}

proof fn lemma_order_bounded(operators: Seq<Operator>)
    ensures
        expansion_order_of(operators) <= operators.len(),
    decreases operators.len(),
{
    if operators.len() > 0 {
        lemma_order_bounded(operators.drop_last());
    }
}

proof fn lemma_order_update(operators: Seq<Operator>, position: int, replacement: Operator)
    requires
        0 <= position < operators.len(),
    ensures
        expansion_order_of(operators.update(position, replacement)) + (if operators[position].kind
            == OperatorKind::Identity {
            0int
        } else {
            1int
        }) == expansion_order_of(operators) + (if replacement.kind == OperatorKind::Identity {
            0int
        } else {
            1int
        }),
    decreases operators.len(),
{
    let updated = operators.update(position, replacement);
    if position < operators.len() - 1 {
        assert(updated.drop_last() =~= operators.drop_last().update(position, replacement));
        lemma_order_update(operators.drop_last(), position, replacement);
    } else {
        assert(updated.drop_last() =~= operators.drop_last());
    }
}

pub(crate) proof fn lemma_prefix_error_persists(
    terms: Seq<SseTermShape>,
    state: Seq<Spin>,
    operators: Seq<Operator>,
    count: int,
)
    requires
        0 <= count <= operators.len(),
        propagate_through(terms, state, operators.take(count)) is Err,
    ensures
        propagate_through(terms, state, operators) == propagate_through(
            terms,
            state,
            operators.take(count),
        ),
    decreases operators.len() - count,
{
    if count < operators.len() {
        assert(operators.take(count + 1).drop_last() =~= operators.take(count));
        lemma_prefix_error_persists(terms, state, operators, count + 1);
    } else {
        assert(operators.take(count) =~= operators);
    }
}

/// Propagation of a string is propagation of its prefix followed by
/// propagation of the remainder.
pub proof fn lemma_propagate_split(
    terms: Seq<SseTermShape>,
    state: Seq<Spin>,
    operators: Seq<Operator>,
    split: int,
)
    requires
        0 <= split <= operators.len(),
    ensures
        propagate_through(terms, state, operators) == match propagate_through(
            terms,
            state,
            operators.take(split),
        ) {
            Err(error) => Err(error),
            Ok(middle) => propagate_through(terms, middle, operators.skip(split)),
        },
    decreases operators.len(),
{
    if split == operators.len() {
        assert(operators.take(split) =~= operators);
        assert(operators.skip(split) =~= Seq::<Operator>::empty());
    } else {
        let shorter = operators.drop_last();
        lemma_propagate_split(terms, state, shorter, split);
        assert(shorter.take(split) =~= operators.take(split));
        assert(operators.skip(split).drop_last() =~= shorter.skip(split));
        assert(operators.skip(split).last() == operators.last());
        match propagate_through(terms, state, operators.take(split)) {
            Err(error) => {},
            Ok(middle) => {},
        }
    }
}

/// Inserting a diagonal operator whose matrix element is positive on the
/// state propagated up to its position leaves the propagation, and hence the
/// trace, unchanged.
pub proof fn lemma_diagonal_insertion_preserves_propagation(
    terms: Seq<SseTermShape>,
    state: Seq<Spin>,
    operators: Seq<Operator>,
    position: int,
    term_index: u32,
)
    requires
        0 <= position < operators.len(),
        operators[position].kind == OperatorKind::Identity,
        term_index < terms.len(),
        terms[term_index as int].kind == OperatorKind::Diagonal,
        propagate_through(terms, state, operators.take(position)) matches Ok(middle)
            && weight_positive(terms[term_index as int], middle),
    ensures
        propagate_through(
            terms,
            state,
            operators.update(position, Operator { kind: OperatorKind::Diagonal, term_index }),
        ) == propagate_through(terms, state, operators),
{
    let updated = operators.update(position, Operator { kind: OperatorKind::Diagonal, term_index });
    lemma_propagate_split(terms, state, operators, position + 1);
    lemma_propagate_split(terms, state, updated, position + 1);
    assert(updated.skip(position + 1) =~= operators.skip(position + 1));
    assert(updated.take(position + 1).drop_last() =~= operators.take(position));
    assert(operators.take(position + 1).drop_last() =~= operators.take(position));
}

/// Removing a diagonal operator from a string that propagates without error
/// leaves the propagation, and hence the trace, unchanged.
pub proof fn lemma_diagonal_removal_preserves_propagation(
    terms: Seq<SseTermShape>,
    state: Seq<Spin>,
    operators: Seq<Operator>,
    position: int,
)
    requires
        0 <= position < operators.len(),
        operators[position].kind == OperatorKind::Diagonal,
        propagate_through(terms, state, operators) is Ok,
    ensures
        propagate_through(
            terms,
            state,
            operators.update(position, Operator { kind: OperatorKind::Identity, term_index: NO_TERM }),
        ) == propagate_through(terms, state, operators),
{
    let updated = operators.update(
        position,
        Operator { kind: OperatorKind::Identity, term_index: NO_TERM },
    );
    lemma_propagate_split(terms, state, operators, position + 1);
    lemma_propagate_split(terms, state, updated, position + 1);
    assert(updated.skip(position + 1) =~= operators.skip(position + 1));
    assert(updated.take(position + 1).drop_last() =~= operators.take(position));
    assert(operators.take(position + 1).drop_last() =~= operators.take(position));
    if propagate_through(terms, state, operators.take(position + 1)) is Err {
        lemma_prefix_error_persists(terms, state, operators, position + 1);
    }
    if propagate_through(terms, state, operators.take(position)) is Err {
        lemma_prefix_error_persists(terms, state, operators.take(position + 1), position);
        assert(operators.take(position + 1).take(position) =~= operators.take(position));
        lemma_prefix_error_persists(terms, state, operators, position + 1);
    }
}

/// Appending identity positions leaves the propagation unchanged.
pub proof fn lemma_identity_padding_preserves_propagation(
    terms: Seq<SseTermShape>,
    state: Seq<Spin>,
    operators: Seq<Operator>,
    padding: nat,
)
    ensures
        propagate_through(
            terms,
            state,
            operators + Seq::new(
                padding,
                |k: int| Operator { kind: OperatorKind::Identity, term_index: NO_TERM },
            ),
        ) == propagate_through(terms, state, operators),
        expansion_order_of(
            operators + Seq::new(
                padding,
                |k: int| Operator { kind: OperatorKind::Identity, term_index: NO_TERM },
            ),
        ) == expansion_order_of(operators),
    decreases padding,
{
    let padded = operators + Seq::new(
        padding,
        |k: int| Operator { kind: OperatorKind::Identity, term_index: NO_TERM },
    );
    if padding > 0 {
        let shorter = operators + Seq::new(
            (padding - 1) as nat,
            |k: int| Operator { kind: OperatorKind::Identity, term_index: NO_TERM },
        );
        assert(padded.drop_last() =~= shorter);
        lemma_identity_padding_preserves_propagation(terms, state, operators, (padding - 1) as nat);
    } else {
        assert(padded =~= operators);
    }
}

/// Whether the operator is a single-site vertex on `site` with a transverse
/// partner.
pub open spec fn is_transverse_on(
    operator: Operator,
    terms: Seq<SseTermShape>,
    partners: Seq<Option<u32>>,
    site: int,
) -> bool {
    let t = operator.term_index as int;
    &&& operator.kind != OperatorKind::Identity
    &&& 0 <= t < terms.len()
    &&& terms[t].sites == SseTermSites::Site(site as u32)
    &&& partners[t] is Some
}

/// Positions among the first `count` operators that hold a transverse vertex
/// on `site`, in string order.
pub open spec fn transverse_positions_before(
    operators: Seq<Operator>,
    terms: Seq<SseTermShape>,
    partners: Seq<Option<u32>>,
    site: int,
    count: int,
) -> Seq<usize>
    decreases count,
{
    if count <= 0 {
        Seq::empty()
    } else {
        let before = transverse_positions_before(operators, terms, partners, site, count - 1);
        if is_transverse_on(operators[count - 1], terms, partners, site) {
            before.push((count - 1) as usize)
        } else {
            before
        }
    }
}

proof fn lemma_same_transverse_positions(
    first: Seq<Operator>,
    second: Seq<Operator>,
    terms: Seq<SseTermShape>,
    partners: Seq<Option<u32>>,
    site: int,
    count: int,
)
    requires
        first.len() == second.len(),
        count <= first.len(),
        forall|p: int|
            0 <= p < first.len() ==> is_transverse_on(#[trigger] first[p], terms, partners, site)
                == is_transverse_on(second[p], terms, partners, site),
    ensures
        transverse_positions_before(first, terms, partners, site, count)
            == transverse_positions_before(second, terms, partners, site, count),
    decreases count,
{
    if count > 0 {
        lemma_same_transverse_positions(first, second, terms, partners, site, count - 1);
        assert(is_transverse_on(first[count - 1], terms, partners, site) == is_transverse_on(
            second[count - 1],
            terms,
            partners,
            site,
        ));
    }
}

/// A transverse vertex and its partner, which acts on the same site and has
/// a partner too, are pair-move candidates alike, diagonal or off-diagonal:
/// exchanging one for the other leaves the candidates of every site, and
/// their order, unchanged.
pub proof fn lemma_partner_exchange_keeps_transverse_positions(
    operators: Seq<Operator>,
    terms: Seq<SseTermShape>,
    partners: Seq<Option<u32>>,
    position: int,
    site: int,
)
    requires
        0 <= position < operators.len(),
        operators[position].kind != OperatorKind::Identity,
        operators[position].term_index < terms.len(),
        partners[operators[position].term_index as int] matches Some(q) && q < terms.len()
            && terms[q as int].sites == terms[operators[position].term_index as int].sites
            && terms[q as int].kind != OperatorKind::Identity && partners[q as int] is Some,
    ensures
        ({
            let q = partners[operators[position].term_index as int]->0;
            let partner = Operator { kind: terms[q as int].kind, term_index: q };
            &&& is_transverse_on(partner, terms, partners, site) == is_transverse_on(
                operators[position],
                terms,
                partners,
                site,
            )
            &&& transverse_positions_before(
                operators.update(position, partner),
                terms,
                partners,
                site,
                operators.len() as int,
            ) == transverse_positions_before(operators, terms, partners, site, operators.len() as int)
        }),
{
    let q = partners[operators[position].term_index as int]->0;
    let partner = Operator { kind: terms[q as int].kind, term_index: q };
    let exchanged = operators.update(position, partner);
    assert forall|p: int| 0 <= p < exchanged.len() implies is_transverse_on(
        #[trigger] exchanged[p],
        terms,
        partners,
        site,
    ) == is_transverse_on(operators[p], terms, partners, site) by {
        if p != position {
            assert(exchanged[p] == operators[p]);
        }
    }
    lemma_same_transverse_positions(exchanged, operators, terms, partners, site, operators.len() as int);
}

impl SSEState {
    /// Positions of the transverse vertices on `site`, in string order: the
    /// vertices a local world-line pair move may toggle.
    pub fn transverse_positions(&self, model: &SseStructure, site: u32) -> (positions: Vec<usize>)
        ensures
            positions@ == transverse_positions_before(
                self.operator_seq(),
                model.term_seq(),
                model.partner_seq(),
                site as int,
                self.operator_seq().len() as int,
            ),
    {
        let ghost ops = self.operator_string@;
        model.structure_facts();
        let mut positions: Vec<usize> = Vec::new();
        let mut position: usize = 0;
        while position < self.operator_string.len()
            invariant
                ops == self.operator_string@,
                position <= ops.len(),
                model.partner_seq().len() == model.term_seq().len(),
                positions@ == transverse_positions_before(
                    ops,
                    model.term_seq(),
                    model.partner_seq(),
                    site as int,
                    position as int,
                ),
            decreases ops.len() - position,
        {
            let operator = self.operator_string[position];
            if let Some(term_index) = operator.term_index() {
                if let Some(term) = model.term(term_index) {
                    if term.sites == SseTermSites::Site(site) && model.transverse_partner(
                        term_index,
                    ).is_some() {
                        positions.push(position);
                    }
                }
            }
            position += 1;
        }
        positions
    }
}

/// Picks two distinct indices below `count` from a first draw below `count`
/// and a second draw below `count - 1`: the second skips over the first.
pub fn distinct_pair(count: usize, first: usize, second_draw: usize) -> (pair: (usize, usize))
    requires
        2 <= count,
        first < count,
        second_draw < count - 1,
    ensures
        pair.0 == first,
        pair.1 == if second_draw >= first {
            second_draw + 1
        } else {
            second_draw as int
        },
        pair.1 < count,
        pair.0 != pair.1,
{
    if second_draw >= first {
        (first, second_draw + 1)
    } else {
        (first, second_draw)
    }
}

/// The eigenvalue product of two spins is `+1` exactly when they are equal.
pub proof fn lemma_aligned_product(left: Spin, right: Spin)
    ensures
        (eigenvalue(left) * eigenvalue(right) == 1) <==> (left == right),
{
}

} // verus!
