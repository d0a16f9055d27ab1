//! Beta bridges, the ladders they extend into, and the strand ranges those
//! ladders cover.

use vstd::prelude::*;

use crate::hbond::{bond_exists, has_bond, lemma_push_contains, HydrogenBond};
use crate::secondary::SecondaryStructureCalculator;

verus! {

/// Residues `i` and `j` form a parallel bridge: bonds `i - 1 -> j` and
/// `j -> i + 1`.
pub open spec fn is_parallel_bridge(hb: Seq<HydrogenBond>, n: int, i: int, j: int) -> bool {
    &&& 0 < i
    &&& has_bond(hb, i - 1, j)
    &&& has_bond(hb, j, i + 1)
}

/// Residues `i` and `j` form an antiparallel bridge: bonds `i -> j` and
/// `j -> i`, or else bonds `i - 1 -> j + 1` and `j - 1 -> i + 1`. The second
/// form is not the mirror image of the first pair around `(i, j)`; it is an
/// approximation of the usual rule, kept as it stands.
pub open spec fn is_antiparallel_bridge(hb: Seq<HydrogenBond>, n: int, i: int, j: int) -> bool {
    ||| (has_bond(hb, i, j) && has_bond(hb, j, i))
    ||| (0 < i && j + 1 < n && has_bond(hb, i - 1, j + 1) && has_bond(hb, j - 1, i + 1))
}

/// `(i, j, parallel)` is a bridge between residues at least two apart.
pub open spec fn is_bridge(hb: Seq<HydrogenBond>, n: int, i: int, j: int, parallel: bool) -> bool {
    &&& 0 <= i
    &&& i + 2 <= j < n
    &&& if parallel {
        is_parallel_bridge(hb, n, i, j)
    } else {
        is_antiparallel_bridge(hb, n, i, j)
    }
}

/// Scan order of bridges: by `i`, then by `j`, parallel before antiparallel.
pub open spec fn bridge_before(a: (usize, usize, bool), b: (usize, usize, bool)) -> bool {
    ||| a.0 < b.0
    ||| (a.0 == b.0 && a.1 < b.1)
    ||| (a.0 == b.0 && a.1 == b.1 && a.2 && !b.2)
}

impl SecondaryStructureCalculator {
    fn is_parallel_bridge(&self, i: usize, j: usize, n_res: usize, hbonds: &Vec<HydrogenBond>) -> (r: bool)
        requires
            i < j < n_res,
        ensures
            r == is_parallel_bridge(hbonds@, n_res as int, i as int, j as int),
    {
        if i == 0 {
            return false;
        }
        let hbond1 = bond_exists(hbonds, i - 1, j);
        let hbond2 = bond_exists(hbonds, j, i + 1);
        hbond1 && hbond2
    }

    fn is_antiparallel_bridge(&self, i: usize, j: usize, n_res: usize, hbonds: &Vec<HydrogenBond>) -> (r: bool)
        requires
            i + 2 <= j < n_res,
        ensures
            r == is_antiparallel_bridge(hbonds@, n_res as int, i as int, j as int),
    {
        let hbond1 = bond_exists(hbonds, i, j);
        let hbond2 = bond_exists(hbonds, j, i);
        if hbond1 && hbond2 {
            return true;
        }
        if i > 0 && j + 1 < n_res {
            let hbond3 = bond_exists(hbonds, i - 1, j + 1);
            let hbond4 = bond_exists(hbonds, j - 1, i + 1);
            hbond3 && hbond4
        } else {
            false
        }
    }

    /// Lists every bridge of the chain, in scan order.
    pub fn find_beta_bridges(&self, n_res: usize, hbonds: &Vec<HydrogenBond>) -> (bridges: Vec<(usize, usize, bool)>)
        ensures
            forall|x: int|
                0 <= x < bridges@.len() ==> is_bridge(
                    hbonds@,
                    n_res as int,
                    (#[trigger] bridges@[x]).0 as int,
                    bridges@[x].1 as int,
                    bridges@[x].2,
                ),
            forall|i: int, j: int, p: bool|
                is_bridge(hbonds@, n_res as int, i, j, p) ==> bridges@.contains(
                    (i as usize, j as usize, p),
                ),
            forall|x: int, y: int|
                0 <= x < y < bridges@.len() ==> bridge_before(
                    #[trigger] bridges@[x],
                    #[trigger] bridges@[y],
                ),
    {
        let ghost hb = hbonds@;
        let ghost n = n_res as int;
        let mut bridges: Vec<(usize, usize, bool)> = Vec::new();
        let mut i: usize = 0;
        while i < n_res
            invariant
                i <= n_res,
                hb == hbonds@,
                n == n_res,
                forall|x: int|
                    0 <= x < bridges@.len() ==> is_bridge(
                        hb,
                        n,
                        (#[trigger] bridges@[x]).0 as int,
                        bridges@[x].1 as int,
                        bridges@[x].2,
                    ) && bridges@[x].0 < i,
                forall|a: int, b: int, p: bool|
                    is_bridge(hb, n, a, b, p) && a < i ==> bridges@.contains(
                        (a as usize, b as usize, p),
                    ),
                forall|x: int, y: int|
                    0 <= x < y < bridges@.len() ==> bridge_before(
                        #[trigger] bridges@[x],
                        #[trigger] bridges@[y],
                    ),
            decreases n_res - i,
        {
            let mut j: usize = if n_res - i >= 2 {
                i + 2
            } else {
                n_res
            };
            while j < n_res
                invariant
                    i < n_res,
                    i + 2 <= j || j == n_res,
                    hb == hbonds@,
                    n == n_res,
                    forall|x: int|
                        0 <= x < bridges@.len() ==> is_bridge(
                            hb,
                            n,
                            (#[trigger] bridges@[x]).0 as int,
                            bridges@[x].1 as int,
                            bridges@[x].2,
                        ) && (bridges@[x].0 < i || (bridges@[x].0 == i && bridges@[x].1 < j)),
                    forall|a: int, b: int, p: bool|
                        is_bridge(hb, n, a, b, p) && (a < i || (a == i && b < j))
                            ==> bridges@.contains((a as usize, b as usize, p)),
                    forall|x: int, y: int|
                        0 <= x < y < bridges@.len() ==> bridge_before(
                            #[trigger] bridges@[x],
                            #[trigger] bridges@[y],
                        ),
                decreases n_res - j,
            {
                let ghost before = bridges@;
                if self.is_parallel_bridge(i, j, n_res, hbonds) {
                    bridges.push((i, j, true));
                }
                let ghost mid = bridges@;
                if self.is_antiparallel_bridge(i, j, n_res, hbonds) {
                    bridges.push((i, j, false));
                }
                proof {
                    assert forall|a: int, b: int, p: bool|
                        is_bridge(hb, n, a, b, p) && (a < i || (a == i && b < j + 1)) implies bridges@.contains(
                        (a as usize, b as usize, p),
                    ) by {
                        if a < i || (a == i && b < j) {
                            lemma_push_contains(before, (i, j, true), (a as usize, b as usize, p));
                            lemma_push_contains(mid, (i, j, false), (a as usize, b as usize, p));
                        } else if p {
                            assert(mid.last() == (i, j, true));
                            lemma_push_contains(mid, (i, j, false), (a as usize, b as usize, p));
                        } else {
                            assert(bridges@.last() == (i, j, false));
                        }
                    }
                }
                j += 1;
            }
            i += 1;
        }
        bridges
    }
}

/// The partner of the next rung of a ladder: one up for a parallel ladder,
/// one down for an antiparallel one.
pub open spec fn next_partner(j: int, parallel: bool) -> int {
    if parallel {
        j + 1
    } else {
        j - 1
    }
}

/// The next rung of a ladder stays inside a chain of `n` residues: both of
/// its residues exist.
pub open spec fn step_in_chain(n: int, i: int, j: int, parallel: bool) -> bool {
    &&& 0 <= i
    &&& i + 1 < n
    &&& if parallel {
        j + 1 < n
    } else {
        j >= 1
    }
}

/// The last rung reached from bridge `(i, j)` by stepping to
/// `(i + 1, next_partner(j))` while that is a bridge of the same kind.
pub open spec fn ladder_end(hb: Seq<HydrogenBond>, n: int, i: int, j: int, parallel: bool) -> (int, int)
    decreases n - i,
{
    if step_in_chain(n, i, j, parallel) && is_bridge(hb, n, i + 1, next_partner(j, parallel), parallel) {
        ladder_end(hb, n, i + 1, next_partner(j, parallel), parallel)
    } else {
        (i, j)
    }
}

/// The ladder grown from bridge `(i, j)`: its two strands as `(low, high)`
/// ranges, when it has at least `min` rungs.
pub open spec fn ladder_from(hb: Seq<HydrogenBond>, n: int, min: int, i: int, j: int, parallel: bool) -> Option<((usize, usize), (usize, usize))> {
    let end = ladder_end(hb, n, i, j, parallel);
    if end.0 - i + 1 >= min {
        Some(
            (
                (i as usize, end.0 as usize),
                if parallel {
                    (j as usize, end.1 as usize)
                } else {
                    (end.1 as usize, j as usize)
                },
            ),
        )
    } else {
        None
    }
}

/// The last rung reached from `(i, j)` by stepping to
/// `(i + 1, next_partner(j))` while the list `bridges` holds that rung.
pub open spec fn list_ladder_end(bridges: Seq<(usize, usize, bool)>, n: int, i: int, j: int, parallel: bool) -> (int, int)
    decreases n - i,
{
    if step_in_chain(n, i, j, parallel) && bridges.contains(
        ((i + 1) as usize, next_partner(j, parallel) as usize, parallel),
    ) {
        list_ladder_end(bridges, n, i + 1, next_partner(j, parallel), parallel)
    } else {
        (i, j)
    }
}

/// The ladder grown from `(i, j)` through the rungs that `bridges` holds:
/// its two strands as `(low, high)` ranges, when it has at least `min` rungs.
pub open spec fn list_ladder_from(bridges: Seq<(usize, usize, bool)>, n: int, min: int, i: int, j: int, parallel: bool) -> Option<((usize, usize), (usize, usize))> {
    let end = list_ladder_end(bridges, n, i, j, parallel);
    if end.0 - i + 1 >= min {
        Some(
            (
                (i as usize, end.0 as usize),
                if parallel {
                    (j as usize, end.1 as usize)
                } else {
                    (end.1 as usize, j as usize)
                },
            ),
        )
    } else {
        None
    }
}

/// Over a list that holds exactly the bridges of `hb`, a ladder grows as it
/// does over the bridges themselves.
pub proof fn lemma_list_ladder_matches(
    bridges: Seq<(usize, usize, bool)>,
    hb: Seq<HydrogenBond>,
    n: int,
    min: int,
    i: int,
    j: int,
    parallel: bool,
)
    requires
        0 <= i,
        0 <= j < n,
        n <= usize::MAX,
        forall|a: usize, b: usize, p: bool|
            #[trigger] bridges.contains((a, b, p)) <==> is_bridge(hb, n, a as int, b as int, p),
    ensures
        list_ladder_end(bridges, n, i, j, parallel) == ladder_end(hb, n, i, j, parallel),
        list_ladder_from(bridges, n, min, i, j, parallel) == ladder_from(hb, n, min, i, j, parallel),
    decreases n - i,
{
    let nj = next_partner(j, parallel);
    if step_in_chain(n, i, j, parallel) {
        assert(bridges.contains(((i + 1) as usize, nj as usize, parallel)) == is_bridge(
            hb,
            n,
            i + 1,
            nj,
            parallel,
        ));
        if is_bridge(hb, n, i + 1, nj, parallel) {
            lemma_list_ladder_matches(bridges, hb, n, min, i + 1, nj, parallel);
        }
    }
}

pub proof fn lemma_ladder_end_bounds(hb: Seq<HydrogenBond>, n: int, i: int, j: int, parallel: bool)
    requires
        0 <= i,
        0 <= j,
    ensures
        ladder_end(hb, n, i, j, parallel).0 >= i,
        ladder_end(hb, n, i, j, parallel).1 >= 0,
        ladder_end(hb, n, i, j, parallel).0 == i || ladder_end(hb, n, i, j, parallel).0 < n,
        ladder_end(hb, n, i, j, parallel).1 == j || ladder_end(hb, n, i, j, parallel).1 < n,
        parallel ==> ladder_end(hb, n, i, j, parallel).1 >= j,
        !parallel ==> ladder_end(hb, n, i, j, parallel).1 <= j,
    decreases n - i,
{
    if step_in_chain(n, i, j, parallel) && is_bridge(hb, n, i + 1, next_partner(j, parallel), parallel) {
        lemma_ladder_end_bounds(hb, n, i + 1, next_partner(j, parallel), parallel);
    }
}

/// Strict lexicographic order on `(low, high)` ranges.
pub open spec fn range_lt(a: (usize, usize), b: (usize, usize)) -> bool {
    a.0 < b.0 || (a.0 == b.0 && a.1 < b.1)
}

/// Strict lexicographic order on ladders.
pub open spec fn ladder_lt(a: ((usize, usize), (usize, usize)), b: ((usize, usize), (usize, usize))) -> bool {
    range_lt(a.0, b.0) || (a.0 == b.0 && range_lt(a.1, b.1))
}

/// Every element is strictly below every later one.
pub open spec fn ladders_ascending(ls: Seq<((usize, usize), (usize, usize))>) -> bool {
    forall|x: int, y: int| 0 <= x < y < ls.len() ==> ladder_lt(#[trigger] ls[x], #[trigger] ls[y])
}

fn same_ladder(a: ((usize, usize), (usize, usize)), b: ((usize, usize), (usize, usize))) -> (r: bool)
    ensures
        r == (a == b),
{
    a.0.0 == b.0.0 && a.0.1 == b.0.1 && a.1.0 == b.1.0 && a.1.1 == b.1.1
}

/// Inserts `l` into the ascending list `v` unless it is already there.
fn insert_ladder(v: &mut Vec<((usize, usize), (usize, usize))>, l: ((usize, usize), (usize, usize)))
    requires
        ladders_ascending(old(v)@),
    ensures
        ladders_ascending(final(v)@),
        forall|x: ((usize, usize), (usize, usize))|
            final(v)@.contains(x) <==> (old(v)@.contains(x) || x == l),
{
    let mut pos: usize = 0;
    while pos < v.len()
        invariant
            pos <= v@.len(),
            v@ == old(v)@,
            forall|k: int| 0 <= k < pos ==> ladder_lt(#[trigger] v@[k], l),
        ensures
            pos <= v@.len(),
            v@ == old(v)@,
            forall|k: int| 0 <= k < pos ==> ladder_lt(#[trigger] v@[k], l),
            pos == v@.len() || !ladder_lt(v@[pos as int], l),
        decreases v@.len() - pos,
    {
        let c = v[pos];
        let below = c.0.0 < l.0.0 || (c.0.0 == l.0.0 && c.0.1 < l.0.1) || (c.0.0 == l.0.0 && c.0.1 == l.0.1 && (c.1.0 < l.1.0 || (c.1.0 == l.1.0 && c.1.1 < l.1.1)));
        if !below {
            break;
        }
        pos += 1;
    }
    let ghost old_v = v@;
    if pos < v.len() && same_ladder(v[pos], l) {
        proof {
            assert(old_v[pos as int] == l);
        }
        return;
    }
    v.insert(pos, l);
    proof {
        old_v.insert_ensures(pos as int, l);
        assert forall|x: int, y: int| 0 <= x < y < v@.len() implies ladder_lt(#[trigger] v@[x], #[trigger] v@[y]) by {
            if y < pos {
                assert(v@[x] == old_v[x] && v@[y] == old_v[y]);
            } else if y == pos {
                assert(v@[x] == old_v[x]);
            } else if x < pos {
                assert(v@[x] == old_v[x] && v@[y] == old_v[y - 1]);
            } else if x == pos {
                assert(v@[y] == old_v[y - 1]);
                if y - 1 > pos {
                    assert(ladder_lt(old_v[pos as int], old_v[y - 1]));
                }
            } else {
                assert(v@[x] == old_v[x - 1] && v@[y] == old_v[y - 1]);
            }
        }
        assert forall|x: ((usize, usize), (usize, usize))| v@.contains(x) <==> (old_v.contains(x) || x == l) by {
            if v@.contains(x) {
                let w = choose|w: int| 0 <= w < v@.len() && v@[w] == x;
                if w < pos {
                    assert(old_v[w] == x);
                } else if w > pos {
                    assert(old_v[w - 1] == x);
                }
            }
            if old_v.contains(x) {
                let w = choose|w: int| 0 <= w < old_v.len() && old_v[w] == x;
                if w < pos {
                    assert(v@[w] == x);
                } else {
                    assert(v@[w + 1] == x);
                }
            }
            if x == l {
                assert(v@[pos as int] == l);
            }
        }
    }
}

impl SecondaryStructureCalculator {
    /// Grows the ladder that starts at bridge `(start_i, start_j)`.
    fn extend_ladder(
        &self,
        start_i: usize,
        start_j: usize,
        is_parallel: bool,
        bridges: &Vec<(usize, usize, bool)>,
        num_residues: usize,
    ) -> (r: Option<((usize, usize), (usize, usize))>)
        requires
            start_i < num_residues,
            start_j < num_residues,
        ensures
            r == list_ladder_from(
                bridges@,
                num_residues as int,
                self.min_strand_length as int,
                start_i as int,
                start_j as int,
                is_parallel,
            ),
    {
        let ghost n = num_residues as int;
        let mut i = start_i;
        let mut j = start_j;
        let mut length: usize = 1;
        while i + 1 < num_residues && ((is_parallel && j + 1 < num_residues) || (!is_parallel && j >= 1))
            invariant
                n == num_residues,
                start_i <= i < num_residues,
                j < num_residues,
                length == i - start_i + 1,
                list_ladder_end(bridges@, n, i as int, j as int, is_parallel) == list_ladder_end(
                    bridges@,
                    n,
                    start_i as int,
                    start_j as int,
                    is_parallel,
                ),
            ensures
                start_i <= i < num_residues,
                length == i - start_i + 1,
                list_ladder_end(bridges@, n, i as int, j as int, is_parallel) == (i as int, j as int),
                list_ladder_end(bridges@, n, i as int, j as int, is_parallel) == list_ladder_end(
                    bridges@,
                    n,
                    start_i as int,
                    start_j as int,
                    is_parallel,
                ),
            decreases num_residues - i,
        {
            let next_i = i + 1;
            let next_j = if is_parallel {
                j + 1
            } else {
                j - 1
            };
            if contains_bridge(bridges, next_i, next_j, is_parallel) {
                i = next_i;
                j = next_j;
                length += 1;
            } else {
                break;
            }
        }
        if length >= self.min_strand_length {
            let strand1 = (start_i, i);
            let strand2 = if is_parallel {
                (start_j, j)
            } else {
                (j, start_j)
            };
            Some((strand1, strand2))
        } else {
            None
        }
    }

    /// Grows a ladder from every bridge and lists the distinct ladders in
    /// ascending order.
    pub(crate) fn build_beta_ladders(
        &self,
        bridges: &Vec<(usize, usize, bool)>,
        num_residues: usize,
    ) -> (ladders: Vec<((usize, usize), (usize, usize))>)
        requires
            forall|m: int|
                0 <= m < bridges@.len() ==> (#[trigger] bridges@[m]).0 < num_residues && bridges@[m].1 < num_residues,
        ensures
            ladders_ascending(ladders@),
            forall|l: ((usize, usize), (usize, usize))|
                ladders@.contains(l) <==> exists|m: int|
                    0 <= m < bridges@.len() && list_ladder_from(
                        bridges@,
                        num_residues as int,
                        self.min_strand_length as int,
                        (#[trigger] bridges@[m]).0 as int,
                        bridges@[m].1 as int,
                        bridges@[m].2,
                    ) == Some(l),
    {
        let mut ladders: Vec<((usize, usize), (usize, usize))> = Vec::new();
        let mut k: usize = 0;
        while k < bridges.len()
            invariant
                k <= bridges@.len(),
                forall|m: int|
                    0 <= m < bridges@.len() ==> (#[trigger] bridges@[m]).0 < num_residues && bridges@[m].1 < num_residues,
                ladders_ascending(ladders@),
                forall|l: ((usize, usize), (usize, usize))|
                    ladders@.contains(l) <==> exists|m: int|
                        0 <= m < k && list_ladder_from(
                            bridges@,
                            num_residues as int,
                            self.min_strand_length as int,
                            (#[trigger] bridges@[m]).0 as int,
                            bridges@[m].1 as int,
                            bridges@[m].2,
                        ) == Some(l),
            decreases bridges@.len() - k,
        {
            let (i, j, is_parallel) = bridges[k];
            proof {
                assert(bridges@[k as int] == (i, j, is_parallel));
            }
            let found = self.extend_ladder(i, j, is_parallel, bridges, num_residues);
            let ghost before = ladders@;
            if let Some(ladder) = found {
                insert_ladder(&mut ladders, ladder);
            }
            proof {
                assert forall|l: ((usize, usize), (usize, usize))|
                    ladders@.contains(l) <==> exists|m: int|
                        0 <= m < k + 1 && list_ladder_from(
                            bridges@,
                            num_residues as int,
                            self.min_strand_length as int,
                            (#[trigger] bridges@[m]).0 as int,
                            bridges@[m].1 as int,
                            bridges@[m].2,
                        ) == Some(l) by {
                    if ladders@.contains(l) && !before.contains(l) {
                        assert(bridges@[k as int] == (i, j, is_parallel));
                    }
                    if exists|m: int|
                        0 <= m < k + 1 && list_ladder_from(
                            bridges@,
                            num_residues as int,
                            self.min_strand_length as int,
                            (#[trigger] bridges@[m]).0 as int,
                            bridges@[m].1 as int,
                            bridges@[m].2,
                        ) == Some(l) {
                        let m = choose|m: int|
                            0 <= m < k + 1 && list_ladder_from(
                                bridges@,
                                num_residues as int,
                                self.min_strand_length as int,
                                (#[trigger] bridges@[m]).0 as int,
                                bridges@[m].1 as int,
                                bridges@[m].2,
                            ) == Some(l);
                        if m < k {
                            assert(before.contains(l));
                        }
                    }
                }
            }
            k += 1;
        }
        ladders
    }
}

/// Whether `bridges` holds `(i, j, parallel)`.
fn contains_bridge(bridges: &Vec<(usize, usize, bool)>, i: usize, j: usize, parallel: bool) -> (r: bool)
    ensures
        r == bridges@.contains((i, j, parallel)),
{
    let mut k: usize = 0;
    while k < bridges.len()
        invariant
            k <= bridges@.len(),
            forall|m: int| 0 <= m < k ==> #[trigger] bridges@[m] != (i, j, parallel),
        decreases bridges@.len() - k,
    {
        let b = bridges[k];
        if b.0 == i && b.1 == j && b.2 == parallel {
            proof {
                assert(bridges@[k as int] == (i, j, parallel));
            }
            return true;
        }
        k += 1;
    }
    false
}

/// The residues a ladder covers: from the lower start of its two strands to
/// the higher end.
pub open spec fn ladder_span(l: ((usize, usize), (usize, usize))) -> (usize, usize) {
    (
        if l.0.0 <= l.1.0 {
            l.0.0
        } else {
            l.1.0
        },
        if l.0.1 >= l.1.1 {
            l.0.1
        } else {
            l.1.1
        },
    )
}

/// Each strand range is given as `(low, high)`.
pub open spec fn ladder_ordered(l: ((usize, usize), (usize, usize))) -> bool {
    l.0.0 <= l.0.1 && l.1.0 <= l.1.1
}

/// The spans of `ls`, in order, that are at least `min` residues long.
pub open spec fn strand_spans(ls: Seq<((usize, usize), (usize, usize))>, min: int) -> Seq<(usize, usize)>
    decreases ls.len(),
{
    if ls.len() == 0 {
        Seq::empty()
    } else {
        let prev = strand_spans(ls.drop_last(), min);
        let span = ladder_span(ls.last());
        if span.1 - span.0 + 1 >= min {
            prev.push(span)
        } else {
            prev
        }
    }
}

pub proof fn lemma_strand_spans_contains(ls: Seq<((usize, usize), (usize, usize))>, min: int, r: (usize, usize))
    ensures
        strand_spans(ls, min).contains(r) <==> exists|x: int|
            0 <= x < ls.len() && ladder_span(#[trigger] ls[x]) == r && r.1 - r.0 + 1 >= min,
    decreases ls.len(),
{
    if ls.len() > 0 {
        let init = ls.drop_last();
        lemma_strand_spans_contains(init, min, r);
        let prev = strand_spans(init, min);
        let span = ladder_span(ls.last());
        if strand_spans(ls, min).contains(r) {
            if span.1 - span.0 + 1 >= min && r == span {
                assert(ladder_span(ls[ls.len() - 1]) == r);
            } else {
                if span.1 - span.0 + 1 >= min {
                    let w = choose|w: int| 0 <= w < prev.push(span).len() && prev.push(span)[w] == r;
                    assert(w < prev.len());
                    assert(prev[w] == r);
                }
                assert(prev.contains(r));
                let x = choose|x: int| 0 <= x < init.len() && ladder_span(#[trigger] init[x]) == r && r.1 - r.0 + 1 >= min;
                assert(ls[x] == init[x]);
            }
        }
        if exists|x: int| 0 <= x < ls.len() && ladder_span(#[trigger] ls[x]) == r && r.1 - r.0 + 1 >= min {
            let x = choose|x: int| 0 <= x < ls.len() && ladder_span(#[trigger] ls[x]) == r && r.1 - r.0 + 1 >= min;
            if x == ls.len() - 1 {
                assert(prev.push(span)[prev.len() as int] == r);
            } else {
                assert(init[x] == ls[x]);
                assert(prev.contains(r));
                if span.1 - span.0 + 1 >= min {
                    lemma_push_contains(prev, span, r);
                }
            }
        }
    }
}

impl SecondaryStructureCalculator {
    /// The span of each ladder that is at least `min_strand_length` long.
    pub fn find_strands(&self, ladders: &Vec<((usize, usize), (usize, usize))>) -> (strands: Vec<(usize, usize)>)
        requires
            forall|x: int| 0 <= x < ladders@.len() ==> ladder_ordered(#[trigger] ladders@[x]),
        ensures
            strands@ == strand_spans(ladders@, self.min_strand_length as int),
    {
        let mut strands: Vec<(usize, usize)> = Vec::new();
        let mut k: usize = 0;
        while k < ladders.len()
            invariant
                k <= ladders@.len(),
                forall|x: int| 0 <= x < ladders@.len() ==> ladder_ordered(#[trigger] ladders@[x]),
                strands@ == strand_spans(ladders@.take(k as int), self.min_strand_length as int),
            decreases ladders@.len() - k,
        {
            let ladder = ladders[k];
            assert(ladder_ordered(ladders@[k as int]));
            let start = if ladder.0.0 <= ladder.1.0 {
                ladder.0.0
            } else {
                ladder.1.0
            };
            let end = if ladder.0.1 >= ladder.1.1 {
                ladder.0.1
            } else {
                ladder.1.1
            };
            assert(ladders@.take(k + 1).drop_last() =~= ladders@.take(k as int));
            assert(ladders@.take(k + 1).last() == ladder);
            if end - start >= self.min_strand_length.saturating_sub(1) {
                strands.push((start, end));
            }
            k += 1;
        }
        assert(ladders@.take(ladders@.len() as int) =~= ladders@);
        strands
    }
}

} // verus!
