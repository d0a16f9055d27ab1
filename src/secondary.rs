//! Per-residue labels: helix and strand ranges, turn marking, and the
//! whole classification of a chain from its hydrogen bonds.

use vstd::prelude::*;

use crate::hbond::HydrogenBond;
use crate::helix::{helix_types, is_helix_region};
use crate::runs::{is_maximal_run, lemma_maximal_run_members, lemma_run_through, run_end, run_start};
use crate::strand::{
    is_bridge, ladder_from, ladder_ordered, ladder_span, lemma_ladder_end_bounds,
    lemma_list_ladder_matches, lemma_strand_spans_contains, list_ladder_from,
};
use crate::structure::SecondaryStructure;

verus! {

/// Assigns secondary structure to a chain from its hydrogen bonds. Helix
/// regions shorter than `min_helix_length` residues, and ladders or strands
/// shorter than `min_strand_length`, are not kept.
pub struct SecondaryStructureCalculator {
    pub min_helix_length: usize,
    pub min_strand_length: usize,
}

/// Some range of `rs` holds residue `k`.
pub open spec fn ranges_cover(rs: Seq<(usize, usize)>, k: int) -> bool {
    exists|x: int| 0 <= x < rs.len() && (#[trigger] rs[x]).0 <= k <= rs[x].1
}

proof fn lemma_cover_take_step(rs: Seq<(usize, usize)>, h: int, m: int)
    requires
        0 <= h < rs.len(),
    ensures
        ranges_cover(rs.take(h + 1), m) == (ranges_cover(rs.take(h), m) || (rs[h].0 <= m <= rs[h].1)),
{
    let t1 = rs.take(h + 1);
    let t0 = rs.take(h);
    if ranges_cover(t0, m) {
        let x = choose|x: int| 0 <= x < t0.len() && (#[trigger] t0[x]).0 <= m <= t0[x].1;
        assert(t1[x] == t0[x]);
    }
    if rs[h].0 <= m <= rs[h].1 {
        assert(t1[h] == rs[h]);
    }
    if ranges_cover(t1, m) {
        let x = choose|x: int| 0 <= x < t1.len() && (#[trigger] t1[x]).0 <= m <= t1[x].1;
        if x < h {
            assert(t0[x] == t1[x]);
        }
    }
}

/// Helix where a helix range holds the residue, else Sheet where a strand
/// range does, else Coil.
pub open spec fn base_labels(n: int, helices: Seq<(usize, usize)>, strands: Seq<(usize, usize)>) -> Seq<SecondaryStructure> {
    Seq::new(
        n as nat,
        |k: int|
            if ranges_cover(helices, k) {
                SecondaryStructure::Helix
            } else if ranges_cover(strands, k) {
                SecondaryStructure::Sheet
            } else {
                SecondaryStructure::Coil
            },
    )
}

/// Every maximal run of Coil of at most four residues becomes Turn.
pub open spec fn mark_turns(pre: Seq<SecondaryStructure>) -> Seq<SecondaryStructure> {
    Seq::new(
        pre.len(),
        |k: int|
            if pre[k] == SecondaryStructure::Coil && run_end(pre, k) - run_start(pre, k) + 1 <= 4 {
                SecondaryStructure::Turn
            } else {
                pre[k]
            },
    )
}

impl SecondaryStructureCalculator {
    /// Labels each of `num_residues` residues from its helix and strand
    /// ranges, then marks short Coil runs as Turn.
    pub fn assign_ss_labels(
        &self,
        num_residues: usize,
        helices: &Vec<(usize, usize)>,
        strands: &Vec<(usize, usize)>,
    ) -> (labels: Vec<SecondaryStructure>)
        ensures
            labels@ == mark_turns(base_labels(num_residues as int, helices@, strands@)),
    {
        let ghost n = num_residues as int;
        let mut labels: Vec<SecondaryStructure> = Vec::new();
        let mut k: usize = 0;
        while k < num_residues
            invariant
                k <= num_residues,
                labels@.len() == k,
                forall|m: int| 0 <= m < k ==> labels@[m] == SecondaryStructure::Coil,
            decreases num_residues - k,
        {
            labels.push(SecondaryStructure::Coil);
            k += 1;
        }
        let mut h: usize = 0;
        while h < helices.len()
            invariant
                h <= helices@.len(),
                labels@.len() == num_residues,
                forall|m: int|
                    0 <= m < num_residues ==> labels@[m] == if ranges_cover(helices@.take(h as int), m) {
                        SecondaryStructure::Helix
                    } else {
                        SecondaryStructure::Coil
                    },
            decreases helices@.len() - h,
        {
            let (start, end) = helices[h];
            let mut i = start;
            while i <= end && i < num_residues
                invariant
                    h < helices@.len(),
                    helices@[h as int] == (start, end),
                    start <= i,
                    i == start || i <= end + 1,
                    labels@.len() == num_residues,
                    forall|m: int|
                        0 <= m < num_residues ==> labels@[m] == if ranges_cover(helices@.take(h as int), m) || (start <= m < i) {
                            SecondaryStructure::Helix
                        } else {
                            SecondaryStructure::Coil
                        },
                decreases num_residues - i,
            {
                labels.set(i, SecondaryStructure::Helix);
                i += 1;
            }
            proof {
                assert forall|m: int| 0 <= m < num_residues implies labels@[m] == if ranges_cover(helices@.take(h + 1), m) {
                    SecondaryStructure::Helix
                } else {
                    SecondaryStructure::Coil
                } by {
                    lemma_cover_take_step(helices@, h as int, m);
                }
            }
            h += 1;
        }
        assert(helices@.take(helices@.len() as int) =~= helices@);
        let mut s: usize = 0;
        while s < strands.len()
            invariant
                s <= strands@.len(),
                labels@.len() == num_residues,
                forall|m: int|
                    0 <= m < num_residues ==> labels@[m] == if ranges_cover(helices@, m) {
                        SecondaryStructure::Helix
                    } else if ranges_cover(strands@.take(s as int), m) {
                        SecondaryStructure::Sheet
                    } else {
                        SecondaryStructure::Coil
                    },
            decreases strands@.len() - s,
        {
            let (start, end) = strands[s];
            let mut i = start;
            while i <= end && i < num_residues
                invariant
                    s < strands@.len(),
                    strands@[s as int] == (start, end),
                    start <= i,
                    i == start || i <= end + 1,
                    labels@.len() == num_residues,
                    forall|m: int|
                        0 <= m < num_residues ==> labels@[m] == if ranges_cover(helices@, m) {
                            SecondaryStructure::Helix
                        } else if ranges_cover(strands@.take(s as int), m) || (start <= m < i) {
                            SecondaryStructure::Sheet
                        } else {
                            SecondaryStructure::Coil
                        },
                decreases num_residues - i,
            {
                if labels[i] == SecondaryStructure::Coil {
                    labels.set(i, SecondaryStructure::Sheet);
                }
                i += 1;
            }
            proof {
                assert forall|m: int| 0 <= m < num_residues implies labels@[m] == if ranges_cover(helices@, m) {
                    SecondaryStructure::Helix
                } else if ranges_cover(strands@.take(s + 1), m) {
                    SecondaryStructure::Sheet
                } else {
                    SecondaryStructure::Coil
                } by {
                    lemma_cover_take_step(strands@, s as int, m);
                }
            }
            s += 1;
        }
        assert(strands@.take(strands@.len() as int) =~= strands@);
        assert(labels@ =~= base_labels(n, helices@, strands@));
        self.identify_turns(&mut labels);
        labels
    }

    /// Relabels every maximal Coil run of one to four residues as Turn.
    pub fn identify_turns(&self, labels: &mut Vec<SecondaryStructure>)
        ensures
            final(labels)@ == mark_turns(old(labels)@),
    {
        let ghost orig = labels@;
        let n = labels.len();
        let mut i: usize = 0;
        while i < n
            invariant
                n == orig.len(),
                labels@.len() == n,
                i <= n,
                forall|k: int| 0 <= k < i ==> labels@[k] == mark_turns(orig)[k],
                forall|k: int| i <= k < n ==> labels@[k] == orig[k],
                0 < i < n && orig[i as int] == SecondaryStructure::Coil ==> orig[i - 1] != SecondaryStructure::Coil,
            decreases n - i,
        {
            if labels[i] == SecondaryStructure::Coil {
                let start = i;
                while i < n && labels[i] == SecondaryStructure::Coil
                    invariant
                        n == orig.len(),
                        labels@.len() == n,
                        start <= i <= n,
                        forall|k: int| 0 <= k < start ==> labels@[k] == mark_turns(orig)[k],
                        forall|k: int| start <= k < n ==> labels@[k] == orig[k],
                        forall|k: int| start <= k < i ==> orig[k] == SecondaryStructure::Coil,
                    decreases n - i,
                {
                    i += 1;
                }
                proof {
                    assert(is_maximal_run(orig, start as int, i - 1));
                    lemma_maximal_run_members(orig, start as int, i - 1);
                }
                let length = i - start;
                if length >= 1 && length <= 4 {
                    let mut j = start;
                    while j < i
                        invariant
                            n == orig.len(),
                            labels@.len() == n,
                            start <= j <= i <= n,
                            i - start <= 4,
                            forall|k: int| start <= k <= i - 1 ==> run_start(orig, k) == start && run_end(orig, k) == i - 1,
                            forall|k: int| start <= k < i ==> orig[k] == SecondaryStructure::Coil,
                            forall|k: int| 0 <= k < j ==> labels@[k] == mark_turns(orig)[k],
                            forall|k: int| j <= k < n ==> labels@[k] == orig[k],
                        decreases i - j,
                    {
                        labels.set(j, SecondaryStructure::Turn);
                        j += 1;
                    }
                } else {
                    assert forall|k: int| start <= k < i implies labels@[k] == mark_turns(orig)[k] by {
                        assert(run_start(orig, k) == start && run_end(orig, k) == i - 1);
                    }
                }
            } else {
                i += 1;
            }
        }
        assert(labels@ =~= mark_turns(orig));
    }
}

/// Residue `k` lies in a helix region: its helix kind is not none and the
/// maximal run of that kind around it is at least `min` residues long.
pub open spec fn in_helix(hb: Seq<HydrogenBond>, n: int, min: int, k: int) -> bool {
    let t = helix_types(hb, n);
    t[k] != 0 && run_end(t, k) - run_start(t, k) + 1 >= min
}

/// The ladder grown from bridge `(i, j, parallel)` spans residue `k` and is
/// at least `min` residues long.
pub open spec fn ladder_covers(hb: Seq<HydrogenBond>, n: int, min: int, i: int, j: int, parallel: bool, k: int) -> bool {
    &&& is_bridge(hb, n, i, j, parallel)
    &&& match ladder_from(hb, n, min, i, j, parallel) {
        Some(l) => {
            let span = ladder_span(l);
            span.0 <= k <= span.1 && span.1 - span.0 + 1 >= min
        },
        None => false,
    }
}

/// Residue `k` lies in the span of some ladder.
pub open spec fn in_strand(hb: Seq<HydrogenBond>, n: int, min: int, k: int) -> bool {
    exists|i: int, j: int, parallel: bool| #[trigger] ladder_covers(hb, n, min, i, j, parallel, k)
}

/// The label of each of `n` residues: all Coil below two residues; else
/// Helix, Sheet or Coil by region, with short Coil runs made Turn.
pub open spec fn secondary_structure_of(hb: Seq<HydrogenBond>, n: int, min_helix: int, min_strand: int) -> Seq<SecondaryStructure> {
    if n < 2 {
        Seq::new(n as nat, |k: int| SecondaryStructure::Coil)
    } else {
        mark_turns(
            Seq::new(
                n as nat,
                |k: int|
                    if in_helix(hb, n, min_helix, k) {
                        SecondaryStructure::Helix
                    } else if in_strand(hb, n, min_strand, k) {
                        SecondaryStructure::Sheet
                    } else {
                        SecondaryStructure::Coil
                    },
            ),
        )
    }
}

impl SecondaryStructureCalculator {
    /// Labels each of `num_residues` residues from the chain's hydrogen
    /// bonds.
    pub fn compute_secondary_structure(&self, num_residues: usize, hbonds: &Vec<HydrogenBond>) -> (labels: Vec<SecondaryStructure>)
        ensures
            labels@ == secondary_structure_of(
                hbonds@,
                num_residues as int,
                self.min_helix_length as int,
                self.min_strand_length as int,
            ),
    {
        let ghost hb = hbonds@;
        let ghost n = num_residues as int;
        if num_residues < 2 {
            let mut labels: Vec<SecondaryStructure> = Vec::new();
            let mut k: usize = 0;
            while k < num_residues
                invariant
                    k <= num_residues,
                    labels@.len() == k,
                    forall|m: int| 0 <= m < k ==> labels@[m] == SecondaryStructure::Coil,
                decreases num_residues - k,
            {
                labels.push(SecondaryStructure::Coil);
                k += 1;
            }
            assert(labels@ =~= secondary_structure_of(hb, n, self.min_helix_length as int, self.min_strand_length as int));
            return labels;
        }
        let helices = self.find_helices(num_residues, hbonds);
        let bridges = self.find_beta_bridges(num_residues, hbonds);
        proof {
            assert forall|a: usize, b: usize, p: bool|
                #[trigger] bridges@.contains((a, b, p)) <==> is_bridge(hb, n, a as int, b as int, p) by {
                if bridges@.contains((a, b, p)) {
                    let w = choose|w: int| 0 <= w < bridges@.len() && bridges@[w] == (a, b, p);
                    assert(is_bridge(hb, n, bridges@[w].0 as int, bridges@[w].1 as int, bridges@[w].2));
                }
            }
        }
        proof {
            assert forall|m: int| 0 <= m < bridges@.len() implies (#[trigger] bridges@[m]).0 < num_residues
                && bridges@[m].1 < num_residues by {
                assert(is_bridge(hb, n, bridges@[m].0 as int, bridges@[m].1 as int, bridges@[m].2));
            }
        }
        let ladders = self.build_beta_ladders(&bridges, num_residues);
        proof {
            let min_s = self.min_strand_length as int;
            assert forall|m: int| 0 <= m < bridges@.len() implies list_ladder_from(
                bridges@,
                n,
                min_s,
                (#[trigger] bridges@[m]).0 as int,
                bridges@[m].1 as int,
                bridges@[m].2,
            ) == ladder_from(hb, n, min_s, bridges@[m].0 as int, bridges@[m].1 as int, bridges@[m].2) by {
                assert(is_bridge(hb, n, bridges@[m].0 as int, bridges@[m].1 as int, bridges@[m].2));
                lemma_list_ladder_matches(
                    bridges@,
                    hb,
                    n,
                    min_s,
                    bridges@[m].0 as int,
                    bridges@[m].1 as int,
                    bridges@[m].2,
                );
            }
            assert forall|l: ((usize, usize), (usize, usize))|
                ladders@.contains(l) <==> exists|m: int|
                    0 <= m < bridges@.len() && ladder_from(
                        hb,
                        n,
                        min_s,
                        (#[trigger] bridges@[m]).0 as int,
                        bridges@[m].1 as int,
                        bridges@[m].2,
                    ) == Some(l) by {
                if ladders@.contains(l) {
                    let m = choose|m: int|
                        0 <= m < bridges@.len() && list_ladder_from(
                            bridges@,
                            n,
                            min_s,
                            (#[trigger] bridges@[m]).0 as int,
                            bridges@[m].1 as int,
                            bridges@[m].2,
                        ) == Some(l);
                    assert(ladder_from(hb, n, min_s, bridges@[m].0 as int, bridges@[m].1 as int, bridges@[m].2) == Some(l));
                }
                if exists|m: int|
                    0 <= m < bridges@.len() && ladder_from(
                        hb,
                        n,
                        min_s,
                        (#[trigger] bridges@[m]).0 as int,
                        bridges@[m].1 as int,
                        bridges@[m].2,
                    ) == Some(l) {
                    let m = choose|m: int|
                        0 <= m < bridges@.len() && ladder_from(
                            hb,
                            n,
                            min_s,
                            (#[trigger] bridges@[m]).0 as int,
                            bridges@[m].1 as int,
                            bridges@[m].2,
                        ) == Some(l);
                    assert(list_ladder_from(bridges@, n, min_s, bridges@[m].0 as int, bridges@[m].1 as int, bridges@[m].2) == Some(l));
                }
            }
        }
        proof {
            assert forall|x: int| 0 <= x < ladders@.len() implies ladder_ordered(#[trigger] ladders@[x]) by {
                let l = ladders@[x];
                assert(ladders@.contains(l));
                let m = choose|m: int|
                    0 <= m < bridges@.len() && ladder_from(
                        hb,
                        n,
                        self.min_strand_length as int,
                        (#[trigger] bridges@[m]).0 as int,
                        bridges@[m].1 as int,
                        bridges@[m].2,
                    ) == Some(l);
                let br = bridges@[m];
                assert(is_bridge(hb, n, br.0 as int, br.1 as int, br.2));
                lemma_ladder_end_bounds(hb, n, br.0 as int, br.1 as int, br.2);
            }
        }
        let strands = self.find_strands(&ladders);
        let labels = self.assign_ss_labels(num_residues, &helices, &strands);
        proof {
            let min_h = self.min_helix_length as int;
            let min_s = self.min_strand_length as int;
            let t = helix_types(hb, n);
            assert forall|k: int| 0 <= k < n implies ranges_cover(helices@, k) == in_helix(hb, n, min_h, k) by {
                if ranges_cover(helices@, k) {
                    let x = choose|x: int| 0 <= x < helices@.len() && (#[trigger] helices@[x]).0 <= k <= helices@[x].1;
                    let r = helices@[x];
                    assert(is_helix_region(t, min_h, r.0 as int, r.1 as int));
                    lemma_maximal_run_members(t, r.0 as int, r.1 as int);
                }
                if in_helix(hb, n, min_h, k) {
                    lemma_run_through(t, k);
                    let a = run_start(t, k);
                    let b = run_end(t, k);
                    assert(t[a] == t[k]);
                    assert(is_helix_region(t, min_h, a, b));
                    assert(helices@.contains((a as usize, b as usize)));
                    let x = choose|x: int| 0 <= x < helices@.len() && helices@[x] == (a as usize, b as usize);
                    assert(helices@[x].0 <= k <= helices@[x].1);
                }
            }
            assert forall|k: int| 0 <= k < n implies ranges_cover(strands@, k) == in_strand(hb, n, min_s, k) by {
                if ranges_cover(strands@, k) {
                    let x = choose|x: int| 0 <= x < strands@.len() && (#[trigger] strands@[x]).0 <= k <= strands@[x].1;
                    let r = strands@[x];
                    assert(strands@.contains(r));
                    lemma_strand_spans_contains(ladders@, min_s, r);
                    let y = choose|y: int| 0 <= y < ladders@.len() && ladder_span(#[trigger] ladders@[y]) == r && r.1 - r.0 + 1 >= min_s;
                    let l = ladders@[y];
                    assert(ladders@.contains(l));
                    let m = choose|m: int|
                        0 <= m < bridges@.len() && ladder_from(
                            hb,
                            n,
                            min_s,
                            (#[trigger] bridges@[m]).0 as int,
                            bridges@[m].1 as int,
                            bridges@[m].2,
                        ) == Some(l);
                    let br = bridges@[m];
                    assert(ladder_covers(hb, n, min_s, br.0 as int, br.1 as int, br.2, k));
                }
                if in_strand(hb, n, min_s, k) {
                    let (i, j, p) = choose|i: int, j: int, p: bool| #[trigger] ladder_covers(hb, n, min_s, i, j, p, k);
                    assert(bridges@.contains((i as usize, j as usize, p)));
                    let m = choose|m: int| 0 <= m < bridges@.len() && bridges@[m] == (i as usize, j as usize, p);
                    let l = ladder_from(hb, n, min_s, i, j, p)->Some_0;
                    assert(ladders@.contains(l));
                    let y = choose|y: int| 0 <= y < ladders@.len() && ladders@[y] == l;
                    let r = ladder_span(l);
                    lemma_strand_spans_contains(ladders@, min_s, r);
                    assert(strands@.contains(r));
                    let x = choose|x: int| 0 <= x < strands@.len() && strands@[x] == r;
                    assert(strands@[x].0 <= k <= strands@[x].1);
                }
            }
            assert(base_labels(n, helices@, strands@) =~= Seq::new(
                n as nat,
                |k: int|
                    if in_helix(hb, n, min_h, k) {
                        SecondaryStructure::Helix
                    } else if in_strand(hb, n, min_s, k) {
                        SecondaryStructure::Sheet
                    } else {
                        SecondaryStructure::Coil
                    },
            ));
        }
        labels
    }
}

impl SecondaryStructureCalculator {
    /// A calculator with the default minimum lengths.
    pub fn new() -> (calc: Self)
        ensures
            calc.min_helix_length == 3,
            calc.min_strand_length == 2,
    {
        Self::default()
    }
}

impl Default for SecondaryStructureCalculator {
    /// Helices of at least three residues, ladders of at least two rungs.
    fn default() -> (calc: Self)
        ensures
            calc.min_helix_length == 3,
            calc.min_strand_length == 2,
    {
        SecondaryStructureCalculator { min_helix_length: 3, min_strand_length: 2 }
    }
}

} // verus!
