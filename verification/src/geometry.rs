//! Integer structure shared by the simulation geometries: site counts and
//! their validity, row-major indexing, and pair enumeration.
//!
//! Chains and rectangular lattices use row-major indexing
//! `site = x + lx * y`; every geometry enumerates unordered site pairs in
//! ascending lexicographic order.

use vstd::prelude::*;

verus! {

/// Boundary condition applied along a lattice direction.
#[derive(Clone, Copy, Debug, PartialEq, Eq, Structural)]
pub enum BoundaryCondition {
    /// Sites do not wrap across the boundary.
    Open,
    /// Sites wrap with the minimum-image convention.
    Periodic,
}

/// The extent of a geometry: what its number of sites depends on.
#[derive(Clone, Copy, Debug, PartialEq, Eq, Structural)]
pub enum Extent {
    /// A chain of `length` sites.
    Chain {
        /// Number of sites.
        length: usize,
    },
    /// An `lx` by `ly` rectangular lattice.
    Rectangular {
        /// Sites along x.
        lx: usize,
        /// Sites along y.
        ly: usize,
    },
    /// `count` explicitly placed sites.
    Points {
        /// Number of placed sites.
        count: usize,
    },
}

/// A rectangular axis.
#[derive(Clone, Copy, Debug, PartialEq, Eq, Structural)]
pub enum Axis {
    /// The x axis, of extent `lx`.
    X,
    /// The y axis, of extent `ly`.
    Y,
}

/// Why an extent describes no usable geometry.
#[derive(Clone, Copy, Debug, PartialEq, Eq, Structural)]
pub enum ExtentFault {
    /// A chain with no sites.
    ZeroLength,
    /// A rectangular axis with no sites.
    ZeroDimension {
        /// The empty axis.
        axis: Axis,
    },
    /// `lx * ly` does not fit in `usize`.
    SiteCountOverflow,
    /// No sites were placed.
    EmptyCustomGeometry,
    /// More sites than `u32` site IDs can name.
    TooManySites {
        /// Requested number of sites.
        num_sites: usize,
    },
}

/// The number of sites of an extent, or why it has none that can be used:
/// empty extents first, then an overflowing product, then a count beyond
/// the `u32` site IDs.
pub open spec fn extent_sites(extent: Extent) -> Result<usize, ExtentFault> {
    let counted: Result<int, ExtentFault> = match extent {
        Extent::Chain { length } => if length == 0 {
            Err(ExtentFault::ZeroLength)
        } else {
            Ok(length as int)
        },
        Extent::Rectangular { lx, ly } => if lx == 0 {
            Err(ExtentFault::ZeroDimension { axis: Axis::X })
        } else if ly == 0 {
            Err(ExtentFault::ZeroDimension { axis: Axis::Y })
        } else if lx * ly > usize::MAX {
            Err(ExtentFault::SiteCountOverflow)
        } else {
            Ok(lx * ly)
        },
        Extent::Points { count } => if count == 0 {
            Err(ExtentFault::EmptyCustomGeometry)
        } else {
            Ok(count as int)
        },
    };
    match counted {
        Err(fault) => Err(fault),
        Ok(num_sites) => if num_sites > u32::MAX {
            Err(ExtentFault::TooManySites { num_sites: num_sites as usize })
        } else {
            Ok(num_sites as usize)
        },
    }
}

/// Counts the sites of an extent, checking that the geometry is usable.
pub fn extent_site_count(extent: Extent) -> (result: Result<usize, ExtentFault>)
    ensures
        result == extent_sites(extent),
{
    let num_sites = match extent {
        Extent::Chain { length } => {
            if length == 0 {
                return Err(ExtentFault::ZeroLength);
            }
            length
        },
        Extent::Rectangular { lx, ly } => {
            if lx == 0 {
                return Err(ExtentFault::ZeroDimension { axis: Axis::X });
            }
            if ly == 0 {
                return Err(ExtentFault::ZeroDimension { axis: Axis::Y });
            }
            match lx.checked_mul(ly) {
                Some(product) => product,
                None => {
                    return Err(ExtentFault::SiteCountOverflow);
                },
            }
        },
        Extent::Points { count } => {
            if count == 0 {
                return Err(ExtentFault::EmptyCustomGeometry);
            }
            count
        },
    };
    if num_sites > 0xffff_ffff {
        return Err(ExtentFault::TooManySites { num_sites });
    }
    Ok(num_sites)
}

/// Maps `(x, y)` to the flattened site index `x + lx * y`, or `None` when the
/// coordinate lies outside an `lx` by `ly` lattice.
pub fn rectangular_site_index(lx: usize, ly: usize, x: usize, y: usize) -> (site: Option<u32>)
    requires
        lx * ly <= u32::MAX,
    ensures
        (x >= lx || y >= ly) ==> site is None,
        (x < lx && y < ly) ==> site == Some((x + lx * y) as u32) && x + lx * y < lx * ly,
{
    if x >= lx || y >= ly {
        return None;
    }
    proof {
        assert(x + lx * y < lx * ly) by (nonlinear_arith)
            requires
                x < lx,
                y < ly,
        ;
    }
    Some((x + lx * y) as u32)
}

/// Maps a flattened site index back to `(x, y) = (site % lx, site / lx)`.
pub fn rectangular_coordinates(lx: usize, site: usize) -> (coordinates: (usize, usize))
    requires
        lx > 0,
    ensures
        coordinates == (site % lx, site / lx),
        coordinates.0 < lx,
        coordinates.0 + lx * coordinates.1 == site,
{
    proof {
        assert(site % lx + lx * (site / lx) == site) by (nonlinear_arith)
            requires
                lx > 0,
        ;
    }
    (site % lx, site / lx)
}

/// Row-major indexing and its inverse are mutually inverse on the sites of an
/// `lx` by `ly` lattice.
pub proof fn lemma_rectangular_indexing_roundtrip(lx: nat, ly: nat, x: nat, y: nat, site: nat)
    requires
        lx > 0,
    ensures
        x < lx && y < ly ==> (x + lx * y) % lx == x && (x + lx * y) / lx == y && x + lx * y
            < lx * ly,
        site < lx * ly ==> (site % lx) + lx * (site / lx) == site && site / lx < ly,
{
    if x < lx && y < ly {
        assert((x + lx * y) % lx == x && (x + lx * y) / lx == y) by (nonlinear_arith)
            requires
                x < lx,
                lx > 0,
        ;
        assert(x + lx * y < lx * ly) by (nonlinear_arith)
            requires
                x < lx,
                y < ly,
        ;
    }
    if site < lx * ly {
        assert((site % lx) + lx * (site / lx) == site && site / lx < ly) by (nonlinear_arith)
            requires
                lx > 0,
                site < lx * ly,
        ;
    }
}

/// The pairs `(row, j)` with `row < j < num_sites`, in ascending order of `j`.
pub open spec fn pair_row(num_sites: nat, row: nat) -> Seq<(u32, u32)> {
    Seq::new(
        (num_sites - row - 1) as nat,
        |k: int| (row as u32, (row + 1 + k) as u32),
    )
}

/// All pairs `(i, j)` with `i < rows` and `i < j < num_sites`, ordered by `i`
/// and then by `j`.
pub open spec fn pairs_before(num_sites: nat, rows: nat) -> Seq<(u32, u32)>
    decreases rows,
{
    if rows == 0 {
        Seq::empty()
    } else {
        pairs_before(num_sites, (rows - 1) as nat) + pair_row(num_sites, (rows - 1) as nat)
    }
}

/// Generates every unordered pair `(i, j)` with `i < j < num_sites`.
#[must_use]
pub fn all_pairs(num_sites: usize) -> (pairs: Vec<(u32, u32)>)
    requires
        num_sites <= u32::MAX + 1,
    ensures
        pairs@ == pairs_before(num_sites as nat, num_sites as nat),
{
    let mut pairs: Vec<(u32, u32)> = Vec::new();
    let mut i: usize = 0;
    while i < num_sites
        invariant
            num_sites <= u32::MAX + 1,
            i <= num_sites,
            pairs@ == pairs_before(num_sites as nat, i as nat),
        decreases num_sites - i,
    {
        let ghost before = pairs@;
        let mut j: usize = i + 1;
        while j < num_sites
            invariant
                num_sites <= u32::MAX + 1,
                i < num_sites,
                i + 1 <= j <= num_sites,
                pairs@ =~= before + pair_row(num_sites as nat, i as nat).take(j - i - 1),
            decreases num_sites - j,
        {
            pairs.push((i as u32, j as u32));
            j += 1;
        }
        proof {
            assert(pair_row(num_sites as nat, i as nat).take(j - i - 1) =~= pair_row(
                num_sites as nat,
                i as nat,
            ));
        }
        i += 1;
    }
    pairs
}

/// Every enumerated pair is ordered and in range, and every ordered pair in
/// range is enumerated.
pub proof fn lemma_pairs_enumerate_all(num_sites: nat, rows: nat, i: int, j: int)
    requires
        rows <= num_sites <= u32::MAX + 1,
    ensures
        (0 <= i < rows && i < j < num_sites) ==> pairs_before(num_sites, rows).contains(
            (i as u32, j as u32),
        ),
        forall|k: int|
            0 <= k < pairs_before(num_sites, rows).len() ==> {
                let pair = #[trigger] pairs_before(num_sites, rows)[k];
                pair.0 < pair.1 && pair.0 < rows && (pair.1 as int) < num_sites
            },
    decreases rows,
{
    if rows > 0 {
        let prev = pairs_before(num_sites, (rows - 1) as nat);
        let row = pair_row(num_sites, (rows - 1) as nat);
        lemma_pairs_enumerate_all(num_sites, (rows - 1) as nat, i, j);
        let all = prev + row;
        if 0 <= i < rows && i < j < num_sites {
            if i < rows - 1 {
                let k = choose|k: int| 0 <= k < prev.len() && prev[k] == (i as u32, j as u32);
                assert(all[k] == (i as u32, j as u32));
            } else {
                let k = j - i - 1;
                assert(row[k] == (i as u32, j as u32));
                assert(all[prev.len() + k] == (i as u32, j as u32));
            }
        }
        assert forall|k: int| 0 <= k < all.len() implies {
            let pair = #[trigger] all[k];
            pair.0 < pair.1 && pair.0 < rows && (pair.1 as int) < num_sites
        } by {
            if k >= prev.len() {
                assert(all[k] == row[k - prev.len()]);
            } else {
                assert(all[k] == prev[k]);
            }
        }
    }
}

} // verus!
