//! Backbone hydrogen bonds: which residues can donate, and which donor and
//! acceptor pairs are recorded.

use vstd::prelude::*;

verus! {

/// A backbone hydrogen bond: the donor supplies the amide N-H, the acceptor
/// the carbonyl C=O.
#[derive(Debug, Clone, Copy, PartialEq, Eq, Structural)]
pub struct HydrogenBond {
    pub donor_idx: usize,
    pub acceptor_idx: usize,
}

/// Whether some bond in `hb` runs from `donor` to `acceptor`.
pub open spec fn has_bond(hb: Seq<HydrogenBond>, donor: int, acceptor: int) -> bool {
    exists|k: int|
        0 <= k < hb.len() && (#[trigger] hb[k]).donor_idx == donor && hb[k].acceptor_idx
            == acceptor
}

/// Whether `hbonds` holds a bond from `donor` to `acceptor`.
pub fn bond_exists(hbonds: &Vec<HydrogenBond>, donor: usize, acceptor: usize) -> (r: bool)
    ensures
        r == has_bond(hbonds@, donor as int, acceptor as int),
{
    let mut k: usize = 0;
    while k < hbonds.len()
        invariant
            k <= hbonds.len(),
            forall|m: int|
                0 <= m < k ==> !((#[trigger] hbonds@[m]).donor_idx == donor
                    && hbonds@[m].acceptor_idx == acceptor),
        decreases hbonds.len() - k,
    {
        if hbonds[k].donor_idx == donor && hbonds[k].acceptor_idx == acceptor {
            return true;
        }
        k += 1;
    }
    false
}

/// Pushing onto a sequence keeps what it held.
pub proof fn lemma_push_contains<T>(s: Seq<T>, v: T, x: T)
    requires
        s.contains(x),
    ensures
        s.push(v).contains(x),
{
    let w = choose|w: int| 0 <= w < s.len() && s[w] == x;
    assert(s.push(v)[w] == x);
}

/// Residue `i` can donate a hydrogen bond: it is not a proline and it has an
/// amide hydrogen, given or placed. A hydrogen is placed on every residue
/// but the first, which has no preceding carbonyl to place it from.
pub open spec fn can_donate(proline: Seq<bool>, given_h: Seq<bool>, i: int) -> bool {
    !proline[i] && (given_h[i] || i >= 1)
}

/// Which residues can donate a hydrogen bond.
pub fn eligible_donors(proline: &Vec<bool>, given_h: &Vec<bool>) -> (donors: Vec<bool>)
    requires
        proline@.len() == given_h@.len(),
    ensures
        donors@.len() == proline@.len(),
        forall|i: int| 0 <= i < donors@.len() ==> donors@[i] == can_donate(proline@, given_h@, i),
{
    let mut donors: Vec<bool> = Vec::new();
    let mut i: usize = 0;
    while i < proline.len()
        invariant
            proline@.len() == given_h@.len(),
            i <= proline@.len(),
            donors@.len() == i,
            forall|m: int| 0 <= m < i ==> donors@[m] == can_donate(proline@, given_h@, m),
        decreases proline@.len() - i,
    {
        donors.push(!proline[i] && (given_h[i] || i >= 1));
        i += 1;
    }
    donors
}

/// A bond from `donor` to `acceptor` is recorded: the two residues are at
/// least two apart, the donor can donate, and the energy test passed for
/// this acceptor and donor (`bonded[acceptor][donor]`).
pub open spec fn is_recorded_bond(donors: Seq<bool>, bonded: Seq<Vec<bool>>, donor: int, acceptor: int) -> bool {
    &&& 0 <= donor < donors.len()
    &&& 0 <= acceptor < donors.len()
    &&& (donor + 2 <= acceptor || acceptor + 2 <= donor)
    &&& donors[donor]
    &&& bonded[acceptor]@[donor]
}

/// Scan key of a bond: the unordered pair of its residues.
spec fn bond_key_before(b: HydrogenBond, i: int, j: int) -> bool {
    let lo = if b.donor_idx <= b.acceptor_idx {
        b.donor_idx as int
    } else {
        b.acceptor_idx as int
    };
    let hi = if b.donor_idx <= b.acceptor_idx {
        b.acceptor_idx as int
    } else {
        b.donor_idx as int
    };
    lo < i || (lo == i && hi < j)
}

/// Records the bonds of a chain. `donors[i]` tells whether residue `i` can
/// donate; `bonded[a][d]` whether the energy of acceptor `a` with donor `d`
/// passed the cutoff. Every pair at least two apart is tested in both
/// directions; each bond is listed once.
pub fn find_hydrogen_bonds(donors: &Vec<bool>, bonded: &Vec<Vec<bool>>) -> (hbonds: Vec<HydrogenBond>)
    requires
        bonded@.len() == donors@.len(),
        forall|a: int| 0 <= a < bonded@.len() ==> (#[trigger] bonded@[a])@.len() == donors@.len(),
    ensures
        forall|x: int|
            0 <= x < hbonds@.len() ==> is_recorded_bond(
                donors@,
                bonded@,
                (#[trigger] hbonds@[x]).donor_idx as int,
                hbonds@[x].acceptor_idx as int,
            ),
        forall|d: int, a: int|
            is_recorded_bond(donors@, bonded@, d, a) ==> hbonds@.contains(
                HydrogenBond { donor_idx: d as usize, acceptor_idx: a as usize },
            ),
        forall|x: int, y: int| 0 <= x < y < hbonds@.len() ==> hbonds@[x] != hbonds@[y],
{
    let n = donors.len();
    let mut hbonds: Vec<HydrogenBond> = Vec::new();
    let mut i: usize = 0;
    while i < n
        invariant
            n == donors@.len(),
            bonded@.len() == n,
            forall|a: int| 0 <= a < bonded@.len() ==> (#[trigger] bonded@[a])@.len() == n,
            i <= n,
            forall|x: int|
                0 <= x < hbonds@.len() ==> is_recorded_bond(
                    donors@,
                    bonded@,
                    (#[trigger] hbonds@[x]).donor_idx as int,
                    hbonds@[x].acceptor_idx as int,
                ) && bond_key_before(hbonds@[x], i as int, 0),
            forall|d: int, a: int|
                is_recorded_bond(donors@, bonded@, d, a) && (d < i || a < i) ==> hbonds@.contains(
                    HydrogenBond { donor_idx: d as usize, acceptor_idx: a as usize },
                ),
            forall|x: int, y: int| 0 <= x < y < hbonds@.len() ==> hbonds@[x] != hbonds@[y],
        decreases n - i,
    {
        let mut j: usize = if n - i >= 2 {
            i + 2
        } else {
            n
        };
        while j < n
            invariant
                n == donors@.len(),
                bonded@.len() == n,
                forall|a: int| 0 <= a < bonded@.len() ==> (#[trigger] bonded@[a])@.len() == n,
                i < n,
                i + 2 <= j || j == n,
                forall|x: int|
                    0 <= x < hbonds@.len() ==> is_recorded_bond(
                        donors@,
                        bonded@,
                        (#[trigger] hbonds@[x]).donor_idx as int,
                        hbonds@[x].acceptor_idx as int,
                    ) && bond_key_before(hbonds@[x], i as int, j as int),
                forall|d: int, a: int|
                    is_recorded_bond(donors@, bonded@, d, a) && (d < i || a < i || (d == i && a < j) || (a == i && d < j))
                        ==> hbonds@.contains(HydrogenBond { donor_idx: d as usize, acceptor_idx: a as usize }),
                forall|x: int, y: int| 0 <= x < y < hbonds@.len() ==> hbonds@[x] != hbonds@[y],
            decreases n - j,
        {
            let ghost before = hbonds@;
            let forward = HydrogenBond { donor_idx: j, acceptor_idx: i };
            let backward = HydrogenBond { donor_idx: i, acceptor_idx: j };
            assert(bonded@[i as int]@.len() == n && bonded@[j as int]@.len() == n);
            if donors[j] && bonded[i][j] {
                hbonds.push(forward);
            }
            let ghost mid = hbonds@;
            if donors[i] && bonded[j][i] {
                hbonds.push(backward);
            }
            proof {
                assert forall|d: int, a: int|
                    is_recorded_bond(donors@, bonded@, d, a) && (d < i || a < i || (d == i && a < j + 1) || (a == i && d < j + 1))
                        implies hbonds@.contains(HydrogenBond { donor_idx: d as usize, acceptor_idx: a as usize }) by {
                    let b = HydrogenBond { donor_idx: d as usize, acceptor_idx: a as usize };
                    if d < i || a < i || (d == i && a < j) || (a == i && d < j) {
                        lemma_push_contains(before, forward, b);
                        lemma_push_contains(mid, backward, b);
                    } else if d == j {
                        assert(mid.last() == forward);
                        lemma_push_contains(mid, backward, b);
                    } else {
                        assert(hbonds@.last() == backward);
                    }
                }
            }
            j += 1;
        }
        i += 1;
    }
    hbonds
}

} // verus!
