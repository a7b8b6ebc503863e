//! Operator labels and supports of physical Hamiltonian terms.

use vstd::prelude::*;
use vstd::string::StringExecFns;

use crate::text::{decimal, push_decimal};

verus! {

/// Local operator represented by a physical Hamiltonian term.
#[derive(Clone, Copy, Debug, PartialEq, Eq, Structural)]
pub enum LocalOperatorKind {
    /// Identity contribution.
    Identity,
    /// Two-site Pauli operator `sigma_z(i) sigma_z(j)`.
    SpinZZ,
    /// Single-site transverse Pauli operator `sigma_x(i)`.
    SpinX,
    /// Single-site Rydberg occupation `n(i)`.
    Number,
    /// Two-site Rydberg occupation product `n(i) n(j)`.
    NumberNumber,
}

/// Sites on which a local Hamiltonian term acts.
///
/// Pair support is stored in canonical ascending site order when created with
/// [`TermSupport::pair`].
#[derive(Clone, Copy, Debug, PartialEq, Eq, Hash, Structural)]
pub enum TermSupport {
    /// A single-site term.
    Site(u32),
    /// A two-site term with endpoints `(site_i, site_j)`.
    Pair(u32, u32),
}

/// Why a support does not fit a system.
#[derive(Clone, Copy, Debug, PartialEq, Eq, Structural)]
pub enum SupportFault {
    /// A support site lies outside the system.
    InvalidSite {
        /// Invalid site ID.
        site: u32,
        /// Number of sites in the system.
        num_sites: usize,
    },
    /// A pair names the same site twice.
    RepeatedSite {
        /// The offending support.
        support: TermSupport,
    },
}

/// The first reason `support` does not fit a system of `num_sites` sites:
/// its sites are checked in order, then a pair's two sites are compared.
pub open spec fn support_fault(support: TermSupport, num_sites: usize) -> Option<SupportFault> {
    match support {
        TermSupport::Site(site) => if site as int >= num_sites {
            Some(SupportFault::InvalidSite { site, num_sites })
        } else {
            None
        },
        TermSupport::Pair(i, j) => if i as int >= num_sites {
            Some(SupportFault::InvalidSite { site: i, num_sites })
        } else if j as int >= num_sites {
            Some(SupportFault::InvalidSite { site: j, num_sites })
        } else if i == j {
            Some(SupportFault::RepeatedSite { support })
        } else {
            None
        },
    }
}

/// Checks that a term's support lies inside a system of `num_sites` sites.
pub fn check_support(support: TermSupport, num_sites: usize) -> (result: Result<(), SupportFault>)
    ensures
        match support_fault(support, num_sites) {
            Some(fault) => result == Err::<(), SupportFault>(fault),
            None => result == Ok::<(), SupportFault>(()),
        },
{
    match support {
        TermSupport::Site(site) => {
            if site as usize >= num_sites {
                return Err(SupportFault::InvalidSite { site, num_sites });
            }
            Ok(())
        },
        TermSupport::Pair(site_i, site_j) => {
            if site_i as usize >= num_sites {
                return Err(SupportFault::InvalidSite { site: site_i, num_sites });
            }
            if site_j as usize >= num_sites {
                return Err(SupportFault::InvalidSite { site: site_j, num_sites });
            }
            if site_i == site_j {
                return Err(SupportFault::RepeatedSite { support });
            }
            Ok(())
        },
    }
}

/// Message reported when a pair names the same site twice.
pub open spec fn repeated_site_message(site: u32) -> Seq<char> {
    "a two-site term cannot act twice on site "@ + decimal(site as nat)
}

impl TermSupport {
    /// Creates single-site support.
    #[must_use]
    pub fn site(site: u32) -> (support: Self)
        ensures
            support == TermSupport::Site(site),
    {
        Self::Site(site)
    }

    /// Creates two-site support with canonical endpoint ordering.
    ///
    /// Returns a message if both endpoints identify the same site.
    pub fn pair(site_i: u32, site_j: u32) -> (result: Result<Self, String>)
        ensures
            site_i == site_j ==> (result matches Err(message) && message@ == repeated_site_message(
                site_i,
            )),
            site_i < site_j ==> result == Ok::<Self, String>(TermSupport::Pair(site_i, site_j)),
            site_i > site_j ==> result == Ok::<Self, String>(TermSupport::Pair(site_j, site_i)),
    {
        if site_i == site_j {
            let mut message = String::from_str("a two-site term cannot act twice on site ");
            push_decimal(&mut message, site_i as usize);
            return Err(message);
        }
        let pair = if site_i < site_j {
            (site_i, site_j)
        } else {
            (site_j, site_i)
        };
        Ok(Self::Pair(pair.0, pair.1))
    }
}

/// Whether an operator has the arity of a support: single-site operators are
/// `SpinX` and `Number`, two-site operators are `SpinZZ` and `NumberNumber`,
/// and the identity fits either.
pub open spec fn operator_fits_support(support: TermSupport, operator: LocalOperatorKind) -> bool {
    match support {
        TermSupport::Site(_) => operator == LocalOperatorKind::SpinX || operator
            == LocalOperatorKind::Number || operator == LocalOperatorKind::Identity,
        TermSupport::Pair(_, _) => operator == LocalOperatorKind::SpinZZ || operator
            == LocalOperatorKind::NumberNumber || operator == LocalOperatorKind::Identity,
    }
}

/// Checks that an operator has the arity of its support.
pub fn supports_operator(support: TermSupport, operator: LocalOperatorKind) -> (fits: bool)
    ensures
        fits == operator_fits_support(support, operator),
{
    match (support, operator) {
        (
            TermSupport::Site(_),
            LocalOperatorKind::SpinX | LocalOperatorKind::Number | LocalOperatorKind::Identity,
        ) => true,
        (
            TermSupport::Pair(_, _),
            LocalOperatorKind::SpinZZ | LocalOperatorKind::NumberNumber
            | LocalOperatorKind::Identity,
        ) => true,
        _ => false,
    }
}

/// Whether an operator is diagonal in the Pauli-z basis.
pub open spec fn diagonal_in_z_basis(operator: LocalOperatorKind) -> bool {
    operator != LocalOperatorKind::SpinX
}

impl LocalOperatorKind {
    /// Reports whether the operator is diagonal in the Pauli-z basis: every
    /// operator except `SpinX`.
    #[must_use]
    pub fn is_diagonal_in_z_basis(self) -> (diagonal: bool)
        ensures
            diagonal == diagonal_in_z_basis(self),
    {
        match self {
            Self::Identity | Self::SpinZZ | Self::Number | Self::NumberNumber => true,
            Self::SpinX => false,
        }
    }
}

} // verus!
