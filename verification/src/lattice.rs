//! Bond topology built from explicit site pairs.

use std::collections::HashSet;

use vstd::prelude::*;
use vstd::std_specs::hash::group_hash_axioms;
use vstd::string::StringExecFns;

use crate::text::{decimal, push_decimal};

verus! {

broadcast use group_hash_axioms;

/// Failure while building a validated [`Lattice`].
#[derive(Debug)]
pub enum LatticeError {
    /// A lattice was requested with zero sites.
    EmptyLattice,
    /// A bond endpoint is outside the lattice.
    InvalidSite {
        /// Invalid endpoint.
        site: u32,
        /// Number of sites in the lattice.
        num_sites: usize,
    },
    /// A bond connected a site to itself.
    SelfBond {
        /// Repeated endpoint.
        site: u32,
    },
    /// The input contained the same unordered bond more than once.
    DuplicateBond {
        /// Canonically ordered duplicate endpoints.
        sites: (u32, u32),
    },
    /// Geometry-based pair generation failed.
    GeometryError(String),
}

/// Human-readable description of a lattice error.
pub open spec fn lattice_error_text(error: LatticeError) -> Seq<char> {
    match error {
        LatticeError::EmptyLattice => "a lattice must contain at least one site"@,
        LatticeError::InvalidSite { site, num_sites } => "site "@ + decimal(site as nat)
            + " is invalid for a lattice with "@ + decimal(num_sites as nat) + " sites"@,
        LatticeError::SelfBond { site } => "a bond cannot connect site "@ + decimal(site as nat)
            + " to itself"@,
        LatticeError::DuplicateBond { sites } => "duplicate bond detected between sites "@
            + decimal(sites.0 as nat) + " and "@ + decimal(sites.1 as nat),
        LatticeError::GeometryError(message) => "geometry error: "@ + message@,
    }
}

impl LatticeError {
    /// Describes the error in one sentence.
    pub fn message(&self) -> (text: String)
        ensures
            text@ == lattice_error_text(*self),
    {
        match self {
            LatticeError::EmptyLattice => String::from_str("a lattice must contain at least one site"),
            LatticeError::InvalidSite { site, num_sites } => {
                let mut text = String::from_str("site ");
                push_decimal(&mut text, *site as usize);
                text.append(" is invalid for a lattice with ");
                push_decimal(&mut text, *num_sites);
                text.append(" sites");
                text
            },
            LatticeError::SelfBond { site } => {
                let mut text = String::from_str("a bond cannot connect site ");
                push_decimal(&mut text, *site as usize);
                text.append(" to itself");
                text
            },
            LatticeError::DuplicateBond { sites } => {
                let mut text = String::from_str("duplicate bond detected between sites ");
                push_decimal(&mut text, sites.0 as usize);
                text.append(" and ");
                push_decimal(&mut text, sites.1 as usize);
                text
            },
            LatticeError::GeometryError(message) => {
                let mut text = String::from_str("geometry error: ");
                text.append(message.as_str());
                text
            },
        }
    }
}

/// The endpoints of an unordered pair with the smaller site first.
pub open spec fn canonical_pair(pair: (u32, u32)) -> (u32, u32) {
    if pair.0 < pair.1 {
        pair
    } else {
        (pair.1, pair.0)
    }
}

/// The error that the `index`-th input pair raises, given the pairs before it.
pub open spec fn pair_fault(pairs: Seq<(u32, u32)>, index: int, num_sites: usize) -> Option<
    LatticeError,
> {
    let pair = pairs[index];
    if pair.0 as int >= num_sites {
        Some(LatticeError::InvalidSite { site: pair.0, num_sites })
    } else if pair.1 as int >= num_sites {
        Some(LatticeError::InvalidSite { site: pair.1, num_sites })
    } else if pair.0 == pair.1 {
        Some(LatticeError::SelfBond { site: pair.0 })
    } else if pairs.take(index).map_values(|p: (u32, u32)| canonical_pair(p)).contains(
        canonical_pair(pair),
    ) {
        Some(LatticeError::DuplicateBond { sites: canonical_pair(pair) })
    } else {
        None
    }
}

/// The error raised by the first faulty pair, if any pair is faulty.
pub open spec fn first_pair_fault(pairs: Seq<(u32, u32)>, num_sites: usize) -> Option<
    LatticeError,
>
    decreases pairs.len(),
{
    if pairs.len() == 0 {
        None
    } else {
        match first_pair_fault(pairs.drop_last(), num_sites) {
            Some(error) => Some(error),
            None => pair_fault(pairs, pairs.len() - 1, num_sites),
        }
    }
}

proof fn lemma_pair_fault_local(pairs: Seq<(u32, u32)>, index: int, num_sites: usize)
    requires
        0 <= index < pairs.len(),
    ensures
        pair_fault(pairs.take(index + 1), index, num_sites) == pair_fault(pairs, index, num_sites),
{
    assert(pairs.take(index + 1).take(index) =~= pairs.take(index));
}

proof fn lemma_first_fault_extends(pairs: Seq<(u32, u32)>, count: int, num_sites: usize)
    requires
        0 <= count <= pairs.len(),
        first_pair_fault(pairs.take(count), num_sites) is Some,
    ensures
        first_pair_fault(pairs, num_sites) == first_pair_fault(pairs.take(count), num_sites),
    decreases pairs.len() - count,
{
    if count < pairs.len() {
        let longer = pairs.take(count + 1);
        assert(longer.drop_last() =~= pairs.take(count));
        lemma_first_fault_extends(pairs, count + 1, num_sites);
    } else {
        assert(pairs.take(count) =~= pairs);
    }
}

/// An unordered, non-self bond stored in canonical endpoint order.
#[derive(Clone, Copy, Debug, PartialEq, Eq, Hash)]
pub struct Bond {
    /// Endpoints as `(smaller_site, larger_site)`.
    pub sites: (u32, u32),
}

impl Bond {
    /// Creates a bond and canonicalizes the endpoint order.
    ///
    /// Returns [`LatticeError::SelfBond`] when both endpoints are equal.
    pub fn new(site_i: u32, site_j: u32) -> (result: Result<Self, LatticeError>)
        ensures
            site_i == site_j ==> result == Err::<Self, LatticeError>(
                LatticeError::SelfBond { site: site_i },
            ),
            site_i != site_j ==> result == Ok::<Self, LatticeError>(
                Bond { sites: canonical_pair((site_i, site_j)) },
            ),
    {
        if site_i == site_j {
            return Err(LatticeError::SelfBond { site: site_i });
        }
        let sites = if site_i < site_j {
            (site_i, site_j)
        } else {
            (site_j, site_i)
        };
        Ok(Self { sites })
    }

    /// Returns both endpoints in canonical order.
    #[must_use]
    pub fn sites(&self) -> (sites: (u32, u32))
        ensures
            sites == self.sites,
    {
        self.sites
    }

    /// Returns the smaller endpoint.
    #[must_use]
    pub fn first_site(&self) -> (site: u32)
        ensures
            site == self.sites.0,
    {
        self.sites.0
    }

    /// Returns the larger endpoint.
    #[must_use]
    pub fn second_site(&self) -> (site: u32)
        ensures
            site == self.sites.1,
    {
        self.sites.1
    }
}

/// A validated collection of unique, unordered bonds over a fixed site set.
///
/// Bond endpoints are canonicalized so the smaller site ID is always first.
#[derive(Debug)]
pub struct Lattice {
    bonds: Vec<Bond>,
    num_sites: usize,
}

/// Key that identifies a canonical pair in the duplicate-detection set.
pub open spec fn pair_key(pair: (u32, u32)) -> u64 {
    (pair.0 as int * 0x1_0000_0000 + pair.1 as int) as u64
}

proof fn lemma_pair_key_injective(a: (u32, u32), b: (u32, u32))
    ensures
        pair_key(a) == pair_key(b) <==> a == b,
{
    assert(pair_key(a) == a.0 as int * 0x1_0000_0000 + a.1 as int);
    assert(pair_key(b) == b.0 as int * 0x1_0000_0000 + b.1 as int);
    if pair_key(a) == pair_key(b) {
        assert(a.0 == b.0 && a.1 == b.1) by (nonlinear_arith)
            requires
                a.0 as int * 0x1_0000_0000 + a.1 as int == b.0 as int * 0x1_0000_0000
                    + b.1 as int,
                a.1 < 0x1_0000_0000,
                b.1 < 0x1_0000_0000,
                a.0 < 0x1_0000_0000,
                b.0 < 0x1_0000_0000,
        ;
    }
}

impl Lattice {
    /// Every bond is canonical, lies inside the site set, and occurs once.
    #[verifier::type_invariant]
    pub closed spec fn inv(self) -> bool {
        &&& self.num_sites > 0
        &&& forall|k: int|
            0 <= k < self.bonds@.len() ==> #[trigger] self.bonds@[k].sites.0
                < self.bonds@[k].sites.1 && (self.bonds@[k].sites.1 as int) < self.num_sites
        &&& forall|k: int, l: int|
            0 <= k < l < self.bonds@.len() ==> #[trigger] self.bonds@[k] != #[trigger] self.bonds@[l]
    }

    /// The bonds in construction order.
    pub closed spec fn bond_seq(self) -> Seq<Bond> {
        self.bonds@
    }

    /// The number of sites.
    pub closed spec fn site_count(self) -> usize {
        self.num_sites
    }

    /// Constructs a lattice from explicit unordered site pairs.
    ///
    /// Input pairs may use either endpoint order. Each stored [`Bond`] is
    /// canonicalized, and reversed duplicates are rejected.
    pub fn from_pairs(num_sites: usize, pairs: Vec<(u32, u32)>) -> (result: Result<
        Self,
        LatticeError,
    >)
        ensures
            num_sites == 0 ==> result == Err::<Self, LatticeError>(LatticeError::EmptyLattice),
            num_sites > 0 ==> match first_pair_fault(pairs@, num_sites) {
                Some(error) => result == Err::<Self, LatticeError>(error),
                None => result matches Ok(lattice) && lattice.site_count() == num_sites
                    && lattice.bond_seq() == pairs@.map_values(
                    |p: (u32, u32)| Bond { sites: canonical_pair(p) },
                ),
            },
    {
        if num_sites == 0 {
            return Err(LatticeError::EmptyLattice);
        }
        let mut bonds: Vec<Bond> = Vec::with_capacity(pairs.len());
        let mut seen: HashSet<u64> = HashSet::with_capacity(pairs.len());
        let ghost canon = pairs@.map_values(|p: (u32, u32)| canonical_pair(p));
        let mut index: usize = 0;
        while index < pairs.len()
            invariant
                0 < num_sites,
                index <= pairs@.len(),
                canon == pairs@.map_values(|p: (u32, u32)| canonical_pair(p)),
                first_pair_fault(pairs@.take(index as int), num_sites) is None,
                bonds@ == pairs@.take(index as int).map_values(
                    |p: (u32, u32)| Bond { sites: canonical_pair(p) },
                ),
                forall|k: int|
                    0 <= k < index ==> #[trigger] canon[k].0 < canon[k].1 && (canon[k].1 as int)
                        < num_sites,
                forall|k: int, l: int| 0 <= k < l < index ==> #[trigger] canon[k] != #[trigger] canon[l],
                forall|key: u64|
                    seen@.contains(key) <==> exists|k: int|
                        0 <= k < index && #[trigger] pair_key(canon[k]) == key,
            decreases pairs@.len() - index,
        {
            let (site_i, site_j) = pairs[index];
            let ghost prefix = pairs@.take(index as int);
            let ghost next = pairs@.take(index + 1);
            proof {
                assert(next.drop_last() =~= prefix);
                assert(prefix.map_values(|p: (u32, u32)| canonical_pair(p)) =~= canon.take(
                    index as int,
                ));
                assert(next.take(index as int) =~= prefix);
                lemma_pair_fault_local(pairs@, index as int, num_sites);
                assert(first_pair_fault(next, num_sites) == pair_fault(pairs@, index as int, num_sites));
                if pair_fault(pairs@, index as int, num_sites) is Some {
                    lemma_first_fault_extends(pairs@, index + 1, num_sites);
                }
            }
            if site_i as usize >= num_sites {
                return Err(LatticeError::InvalidSite { site: site_i, num_sites });
            }
            if site_j as usize >= num_sites {
                return Err(LatticeError::InvalidSite { site: site_j, num_sites });
            }
            let bond = match Bond::new(site_i, site_j) {
                Ok(bond) => bond,
                Err(error) => {
                    return Err(error);
                },
            };
            let key = bond.sites.0 as u64 * 0x1_0000_0000 + bond.sites.1 as u64;
            proof {
                assert(key == pair_key(canon[index as int]));
                assert(canon[index as int] == canonical_pair((site_i, site_j)));
                if canon.take(index as int).contains(canon[index as int]) {
                    let k = choose|k: int|
                        0 <= k < index && canon.take(index as int)[k] == canon[index as int];
                    assert(canon[k] == canon[index as int]);
                    assert(seen@.contains(key));
                } else {
                    assert forall|k: int| 0 <= k < index implies pair_key(canon[k]) != key by {
                        lemma_pair_key_injective(canon[k], canon[index as int]);
                        assert(canon.take(index as int)[k] == canon[k]);
                    }
                }
            }
            if !seen.insert(key) {
                proof {
                    let k = choose|k: int| 0 <= k < index && #[trigger] pair_key(canon[k]) == key;
                    lemma_pair_key_injective(canon[k], canon[index as int]);
                    assert(canon.take(index as int)[k] == canon[k]);
                }
                return Err(LatticeError::DuplicateBond { sites: bond.sites });
            }
            bonds.push(bond);
            proof {
                assert(bonds@ =~= next.map_values(
                    |p: (u32, u32)| Bond { sites: canonical_pair(p) },
                ));
                assert forall|k: int, l: int|
                    0 <= k < l < index + 1 implies #[trigger] canon[k] != #[trigger] canon[l] by {
                    if l == index {
                        assert(canon.take(index as int)[k] == canon[k]);
                    }
                }
                assert forall|key2: u64|
                    seen@.contains(key2) <==> exists|k: int|
                        0 <= k < index + 1 && #[trigger] pair_key(canon[k]) == key2 by {
                    if seen@.contains(key2) && key2 != key {
                        let k = choose|k: int| 0 <= k < index && #[trigger] pair_key(canon[k]) == key2;
                        assert(0 <= k < index + 1 && pair_key(canon[k]) == key2);
                    }
                }
            }
            index += 1;
        }
        proof {
            assert(pairs@.take(index as int) =~= pairs@);
            assert forall|k: int| 0 <= k < bonds@.len() implies #[trigger] bonds@[k].sites == canon[k] by {}
            assert forall|k: int, l: int|
                0 <= k < l < bonds@.len() implies #[trigger] bonds@[k] != #[trigger] bonds@[l] by {
                assert(bonds@[k].sites == canon[k]);
                assert(bonds@[l].sites == canon[l]);
            }
            assert forall|k: int|
                0 <= k < bonds@.len() implies #[trigger] bonds@[k].sites.0 < bonds@[k].sites.1 && (
                bonds@[k].sites.1 as int) < num_sites by {
                assert(bonds@[k].sites == canon[k]);
            }
        }
        let lattice = Self { num_sites, bonds };
        Ok(lattice)
    }

    /// Returns the number of sites, including sites with no bonds.
    #[must_use]
    pub fn num_sites(&self) -> (count: usize)
        ensures
            count == self.site_count(),
            count > 0,
    {
        proof {
            use_type_invariant(self);
        }
        self.num_sites
    }

    /// Returns the number of bonds.
    #[must_use]
    pub fn num_bonds(&self) -> (count: usize)
        ensures
            count == self.bond_seq().len(),
    {
        self.bonds.len()
    }

    /// Borrows all bonds in construction order.
    ///
    /// Every bond has a smaller first endpoint, lies inside the site set, and
    /// no bond occurs twice.
    #[must_use]
    pub fn bonds(&self) -> (bonds: &[Bond])
        ensures
            bonds@ == self.bond_seq(),
            forall|k: int|
                0 <= k < bonds@.len() ==> #[trigger] bonds@[k].sites.0 < bonds@[k].sites.1 && (
                bonds@[k].sites.1 as int) < self.site_count(),
            forall|k: int, l: int|
                0 <= k < l < bonds@.len() ==> #[trigger] bonds@[k] != #[trigger] bonds@[l],
    {
        proof {
            use_type_invariant(self);
        }
        self.bonds.as_slice()
    }

    /// Borrows a bond by zero-based index, or returns `None` if out of range.
    #[must_use]
    pub fn bond(&self, bond_index: usize) -> (bond: Option<&Bond>)
        ensures
            bond_index < self.bond_seq().len() ==> bond == Some(&self.bond_seq()[bond_index as int]),
            bond_index >= self.bond_seq().len() ==> bond is None,
    {
        if bond_index < self.bonds.len() {
            Some(&self.bonds[bond_index])
        } else {
            None
        }
    }
}

} // verus!
