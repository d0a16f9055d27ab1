//! Helices: n-turns, the helix flags they imply, and the merging of flagged
//! residues into helix regions.

use vstd::prelude::*;

use crate::hbond::{bond_exists, has_bond, HydrogenBond};
use crate::runs::{is_maximal_run, lemma_maximal_run_members};
use crate::secondary::SecondaryStructureCalculator;

verus! {

/// A `t`-turn starts at residue `i`: residues `i` and `i + t` are joined by a
/// bond in either direction.
pub open spec fn is_turn(hb: Seq<HydrogenBond>, n: int, t: int, i: int) -> bool {
    &&& 0 <= i
    &&& i + t < n
    &&& (has_bond(hb, i, i + t) || has_bond(hb, i + t, i))
}

/// Residue `k` lies in a `t`-helix: two consecutive `t`-turns start at
/// `i - 1` and `i`, and `i <= k < i + t`.
pub open spec fn in_helix_of(hb: Seq<HydrogenBond>, n: int, t: int, k: int) -> bool {
    exists|i: int|
        1 <= i <= k < i + t && i + t < n && #[trigger] is_turn(hb, n, t, i) && is_turn(
            hb,
            n,
            t,
            i - 1,
        )
}

/// Marks the `t`-turns of a chain: residue `i` as a `t`-acceptor where a
/// `t`-turn starts there, and residue `i + t` as a `t`-donor.
fn find_turns(t: usize, hbonds: &Vec<HydrogenBond>, n_res: usize) -> (marks: (Vec<bool>, Vec<bool>))
    ensures
        marks.0@.len() == n_res,
        marks.1@.len() == n_res,
        forall|i: int|
            0 <= i < n_res ==> marks.0@[i] == is_turn(hbonds@, n_res as int, t as int, i),
        forall|k: int|
            0 <= k < n_res ==> marks.1@[k] == (k >= t && is_turn(hbonds@, n_res as int, t as int, k - t)),
{
    let mut acceptor: Vec<bool> = Vec::new();
    let mut i: usize = 0;
    while i < n_res
        invariant
            i <= n_res,
            acceptor@.len() == i,
            forall|m: int|
                0 <= m < i ==> acceptor@[m] == is_turn(hbonds@, n_res as int, t as int, m),
        decreases n_res - i,
    {
        let mut turn = false;
        if t < n_res && i < n_res - t {
            let forward = bond_exists(hbonds, i, i + t);
            let backward = bond_exists(hbonds, i + t, i);
            turn = forward || backward;
        }
        acceptor.push(turn);
        i += 1;
    }
    let mut donor: Vec<bool> = Vec::new();
    let mut k: usize = 0;
    while k < n_res
        invariant
            k <= n_res,
            acceptor@.len() == n_res,
            forall|m: int|
                0 <= m < n_res ==> acceptor@[m] == is_turn(hbonds@, n_res as int, t as int, m),
            donor@.len() == k,
            forall|m: int|
                0 <= m < k ==> donor@[m] == (m >= t && is_turn(hbonds@, n_res as int, t as int, m - t)),
        decreases n_res - k,
    {
        donor.push(k >= t && acceptor[k - t]);
        k += 1;
    }
    (acceptor, donor)
}

/// Marks `i .. i + t` as `t`-helix wherever turns start at both `i - 1` and
/// `i`.
fn mark_helices(t: usize, acceptor: &Vec<bool>, n_res: usize, Ghost(hb): Ghost<Seq<HydrogenBond>>) -> (helix: Vec<bool>)
    requires
        acceptor@.len() == n_res,
        forall|i: int|
            0 <= i < n_res ==> acceptor@[i] == is_turn(hb, n_res as int, t as int, i),
    ensures
        helix@.len() == n_res,
        forall|k: int| 0 <= k < n_res ==> helix@[k] == in_helix_of(hb, n_res as int, t as int, k),
{
    let mut helix: Vec<bool> = vec![false; n_res];
    let max_i: usize = if t < n_res { n_res - t } else { 0 };
    let mut i: usize = 1;
    while i < max_i
        invariant
            1 <= i,
            max_i == (if t < n_res { n_res - t } else { 0 }),
            helix@.len() == n_res,
            acceptor@.len() == n_res,
            forall|m: int|
                0 <= m < n_res ==> acceptor@[m] == is_turn(hb, n_res as int, t as int, m),
            forall|k: int|
                0 <= k < n_res ==> helix@[k] == exists|s: int|
                    1 <= s < i && s <= k < s + t && s + t < n_res && #[trigger] is_turn(
                        hb,
                        n_res as int,
                        t as int,
                        s,
                    ) && is_turn(hb, n_res as int, t as int, s - 1),
        decreases max_i - i,
    {
        if acceptor[i - 1] && acceptor[i] {
            let mut j: usize = 0;
            while j < t
                invariant
                    1 <= i < max_i,
                    max_i == n_res - t,
                    t < n_res,
                    j <= t,
                    helix@.len() == n_res,
                    is_turn(hb, n_res as int, t as int, i as int),
                    is_turn(hb, n_res as int, t as int, i - 1),
                    forall|k: int|
                        0 <= k < n_res ==> helix@[k] == ((i <= k < i + j) || exists|s: int|
                            1 <= s < i && s <= k < s + t && s + t < n_res && #[trigger] is_turn(
                                hb,
                                n_res as int,
                                t as int,
                                s,
                            ) && is_turn(hb, n_res as int, t as int, s - 1)),
                decreases t - j,
            {
                helix.set(i + j, true);
                j += 1;
            }
        }
        i += 1;
    }
    assert forall|k: int| 0 <= k < n_res implies helix@[k] == in_helix_of(
        hb,
        n_res as int,
        t as int,
        k,
    ) by {
        if in_helix_of(hb, n_res as int, t as int, k) {
            let s = choose|s: int|
                1 <= s <= k < s + t && s + t < n_res && #[trigger] is_turn(
                    hb,
                    n_res as int,
                    t as int,
                    s,
                ) && is_turn(hb, n_res as int, t as int, s - 1);
            assert(s < i);
        }
    }
    helix
}

/// The helix kind of residue `k`: 4 takes precedence over 5, and 5 over 3;
/// 0 stands for none.
pub open spec fn helix_type(hb: Seq<HydrogenBond>, n: int, k: int) -> usize {
    if in_helix_of(hb, n, 4, k) {
        4
    } else if in_helix_of(hb, n, 5, k) {
        5
    } else if in_helix_of(hb, n, 3, k) {
        3
    } else {
        0
    }
}

/// The helix kind of each of the `n` residues.
pub open spec fn helix_types(hb: Seq<HydrogenBond>, n: int) -> Seq<usize> {
    Seq::new(n as nat, |k: int| helix_type(hb, n, k))
}

/// `[s, e]` is a maximal run of one helix kind, at least `min` residues long.
pub open spec fn is_helix_region(types: Seq<usize>, min: int, s: int, e: int) -> bool {
    &&& is_maximal_run(types, s, e)
    &&& types[s] != 0
    &&& e - s + 1 >= min
}

/// Two maximal runs that share an index are the same run.
proof fn lemma_runs_meet<T>(t: Seq<T>, a: int, b: int, a2: int, b2: int, k: int)
    requires
        is_maximal_run(t, a, b),
        is_maximal_run(t, a2, b2),
        a <= k <= b,
        a2 <= k <= b2,
    ensures
        a == a2 && b == b2,
{
    lemma_maximal_run_members(t, a, b);
    lemma_maximal_run_members(t, a2, b2);
}

/// The ranges of `regions` are listed left to right without overlap.
pub open spec fn ranges_ascending(regions: Seq<(usize, usize)>) -> bool {
    forall|x: int, y: int|
        0 <= x < y < regions.len() ==> (#[trigger] regions[x]).1 < (#[trigger] regions[y]).0
}

/// Collection bound: below it every helix region has been listed.
spec fn scanned_to(start: Option<usize>, i: int) -> int {
    match start {
        Some(s) => s as int,
        None => i,
    }
}

impl SecondaryStructureCalculator {
    /// Merges runs of one helix kind into regions, keeping those at least
    /// `min_helix_length` long.
    pub fn collect_helix_regions(&self, types: &Vec<usize>) -> (helices: Vec<(usize, usize)>)
        ensures
            ranges_ascending(helices@),
            forall|x: int|
                0 <= x < helices@.len() ==> is_helix_region(
                    types@,
                    self.min_helix_length as int,
                    (#[trigger] helices@[x]).0 as int,
                    helices@[x].1 as int,
                ),
            forall|s: int, e: int|
                is_helix_region(types@, self.min_helix_length as int, s, e) ==> helices@.contains(
                    (s as usize, e as usize),
                ),
    {
        let n_res = types.len();
        let min = self.min_helix_length;
        let ghost t = types@;
        let mut helices: Vec<(usize, usize)> = Vec::new();
        let mut start: Option<usize> = None;
        let mut cur_type: usize = 0;
        let mut i: usize = 0;
        while i < n_res
            invariant
                n_res == t.len(),
                t == types@,
                min == self.min_helix_length,
                i <= n_res,
                start is Some ==> {
                    let s = start->Some_0 as int;
                    &&& s < i
                    &&& cur_type == t[s]
                    &&& cur_type != 0
                    &&& forall|k: int| s <= k < i ==> #[trigger] t[k] == t[s]
                    &&& (s == 0 || t[s - 1] != t[s])
                },
                start is None ==> i == 0 || t[i - 1] == 0,
                ranges_ascending(helices@),
                forall|x: int|
                    0 <= x < helices@.len() ==> is_helix_region(
                        t,
                        min as int,
                        (#[trigger] helices@[x]).0 as int,
                        helices@[x].1 as int,
                    ) && helices@[x].1 < scanned_to(start, i as int),
                forall|a: int, b: int|
                    is_helix_region(t, min as int, a, b) && b < scanned_to(start, i as int)
                        ==> helices@.contains((a as usize, b as usize)),
            decreases n_res - i,
        {
            let ty = types[i];
            let ghost old_helices = helices@;
            let ghost old_start = start;
            if ty > 0 {
                match start {
                    None => {
                        start = Some(i);
                        cur_type = ty;
                    },
                    Some(s) => {
                        if ty != cur_type {
                            proof {
                                assert(is_maximal_run(t, s as int, i - 1));
                            }
                            if i - s >= min {
                                helices.push((s, i - 1));
                                proof {
                                    assert(helices@.last() == (s, (i - 1) as usize));
                                }
                            }
                            start = Some(i);
                            cur_type = ty;
                            proof {
                                assert forall|a: int, b: int|
                                    is_helix_region(t, min as int, a, b) && b < i implies helices@.contains(
                                    (a as usize, b as usize),
                                ) by {
                                    if b >= s {
                                        lemma_runs_meet(t, a, b, s as int, i - 1, b);
                                        assert(helices@.last() == (s, (i - 1) as usize));
                                    } else {
                                        assert(old_helices.contains((a as usize, b as usize)));
                                        let w = choose|w: int| 0 <= w < old_helices.len() && old_helices[w] == (a as usize, b as usize);
                                        assert(helices@[w] == old_helices[w]);
                                    }
                                }
                            }
                        }
                    },
                }
            } else {
                match start {
                    Some(s) => {
                        proof {
                            assert(is_maximal_run(t, s as int, i - 1));
                        }
                        if i - s >= min {
                            helices.push((s, i - 1));
                            proof {
                                assert(helices@.last() == (s, (i - 1) as usize));
                            }
                        }
                        start = None;
                        cur_type = 0;
                        proof {
                            assert forall|a: int, b: int|
                                is_helix_region(t, min as int, a, b) && b < i + 1 implies helices@.contains(
                                (a as usize, b as usize),
                            ) by {
                                if b >= s {
                                    lemma_runs_meet(t, a, b, s as int, i - 1, b);
                                    assert(helices@.last() == (s, (i - 1) as usize));
                                } else {
                                    assert(old_helices.contains((a as usize, b as usize)));
                                    let w = choose|w: int| 0 <= w < old_helices.len() && old_helices[w] == (a as usize, b as usize);
                                    assert(helices@[w] == old_helices[w]);
                                }
                            }
                        }
                    },
                    None => {},
                }
            }
            i += 1;
        }
        if let Some(s) = start {
            let ghost old_helices = helices@;
            proof {
                assert(is_maximal_run(t, s as int, n_res - 1));
            }
            if n_res - s >= min {
                helices.push((s, n_res - 1));
                proof {
                    assert(helices@.last() == (s, (n_res - 1) as usize));
                }
            }
            proof {
                assert forall|a: int, b: int|
                    is_helix_region(t, min as int, a, b) implies helices@.contains(
                    (a as usize, b as usize),
                ) by {
                    if b >= s {
                        lemma_runs_meet(t, a, b, s as int, n_res - 1, b);
                        assert(helices@.last() == (s, (n_res - 1) as usize));
                    } else {
                        assert(old_helices.contains((a as usize, b as usize)));
                        let w = choose|w: int| 0 <= w < old_helices.len() && old_helices[w] == (a as usize, b as usize);
                        assert(helices@[w] == old_helices[w]);
                    }
                }
            }
        }
        helices
    }
}

impl SecondaryStructureCalculator {
    /// Lists the helices of a chain of `n_res` residues.
    pub fn find_helices(&self, n_res: usize, hbonds: &Vec<HydrogenBond>) -> (helices: Vec<(usize, usize)>)
        ensures
            ranges_ascending(helices@),
            forall|x: int|
                0 <= x < helices@.len() ==> is_helix_region(
                    helix_types(hbonds@, n_res as int),
                    self.min_helix_length as int,
                    (#[trigger] helices@[x]).0 as int,
                    helices@[x].1 as int,
                ),
            forall|s: int, e: int|
                is_helix_region(helix_types(hbonds@, n_res as int), self.min_helix_length as int, s, e)
                    ==> helices@.contains((s as usize, e as usize)),
    {
        let ghost hb = hbonds@;
        let ghost n = n_res as int;
        if n_res < 4 {
            proof {
                assert forall|s: int, e: int|
                    is_helix_region(helix_types(hb, n), self.min_helix_length as int, s, e) implies false by {
                    assert(helix_types(hb, n)[s] == helix_type(hb, n, s));
                }
            }
            return Vec::new();
        }
        let (turns3, _donors3) = find_turns(3, hbonds, n_res);
        let (turns4, _donors4) = find_turns(4, hbonds, n_res);
        let (turns5, _donors5) = find_turns(5, hbonds, n_res);
        let helix3 = mark_helices(3, &turns3, n_res, Ghost(hb));
        let helix4 = mark_helices(4, &turns4, n_res, Ghost(hb));
        let helix5 = mark_helices(5, &turns5, n_res, Ghost(hb));
        let mut types: Vec<usize> = Vec::new();
        let mut k: usize = 0;
        while k < n_res
            invariant
                k <= n_res,
                helix3@.len() == n_res,
                helix4@.len() == n_res,
                helix5@.len() == n_res,
                forall|m: int| 0 <= m < n_res ==> helix3@[m] == in_helix_of(hb, n, 3, m),
                forall|m: int| 0 <= m < n_res ==> helix4@[m] == in_helix_of(hb, n, 4, m),
                forall|m: int| 0 <= m < n_res ==> helix5@[m] == in_helix_of(hb, n, 5, m),
                types@.len() == k,
                forall|m: int| 0 <= m < k ==> types@[m] == helix_type(hb, n, m),
            decreases n_res - k,
        {
            let ty: usize = if helix4[k] {
                4
            } else if helix5[k] {
                5
            } else if helix3[k] {
                3
            } else {
                0
            };
            types.push(ty);
            k += 1;
        }
        assert(types@ =~= helix_types(hb, n));
        self.collect_helix_regions(&types)
    }
}

} // verus!
