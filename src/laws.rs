//! Properties of the classification that hold for every bond list.

use vstd::prelude::*;

use crate::hbond::{has_bond, HydrogenBond};
use crate::helix::{helix_types, in_helix_of, is_turn};
use crate::runs::{lemma_run_through, run_end, run_start};
use crate::secondary::{in_helix, in_strand, ladder_covers, mark_turns, secondary_structure_of};
use crate::strand::{
    is_antiparallel_bridge, is_bridge, ladder_end, ladder_from, lemma_ladder_end_bounds,
    next_partner, step_in_chain,
};
use crate::mesh::{as_ints, MeshData};
use crate::ribbon::{ribbon_indices, ribbon_normals, ribbon_positions, SegmentRings};
use crate::structure::SecondaryStructure;

verus! {

/// Two 4-turns in a row, starting at residues `i - 1` and `i`, make residues
/// `i` to `i + 3` Helix whenever helices of four residues are long enough.
pub proof fn lemma_four_turns_make_helix(
    hb: Seq<HydrogenBond>,
    n: int,
    min_helix: int,
    min_strand: int,
    i: int,
)
    requires
        1 <= i,
        i + 4 < n,
        is_turn(hb, n, 4, i - 1),
        is_turn(hb, n, 4, i),
        min_helix <= 4,
    ensures
        forall|k: int|
            i <= k < i + 4 ==> #[trigger] secondary_structure_of(hb, n, min_helix, min_strand)[k]
                == SecondaryStructure::Helix,
{
    let t = helix_types(hb, n);
    assert forall|k: int| i <= k < i + 4 implies t[k] == 4 by {
        assert(in_helix_of(hb, n, 4, k));
    }
    assert forall|k: int| i <= k < i + 4 implies in_helix(hb, n, min_helix, k) by {
        lemma_run_through(t, k);
        let a = run_start(t, k);
        let b = run_end(t, k);
        if a > i {
            assert(t[a - 1] == 4 && t[a] == 4);
        }
        if b < i + 3 {
            assert(t[b + 1] == 4 && t[b] == 4);
        }
    }
    let base = Seq::new(
        n as nat,
        |k: int|
            if in_helix(hb, n, min_helix, k) {
                SecondaryStructure::Helix
            } else if in_strand(hb, n, min_strand, k) {
                SecondaryStructure::Sheet
            } else {
                SecondaryStructure::Coil
            },
    );
    assert forall|k: int| i <= k < i + 4 implies #[trigger] secondary_structure_of(hb, n, min_helix, min_strand)[k]
        == SecondaryStructure::Helix by {
        assert(base[k] == SecondaryStructure::Helix);
        assert(mark_turns(base)[k] == base[k]);
    }
}

/// Two antiparallel strands whose hydrogen bonds alternate: residues `i`
/// and `j` bonded to each other both ways, and `i + 2` and `j - 2` likewise.
/// The pairs `(i, j)`, `(i + 1, j - 1)` and `(i + 2, j - 2)` are then bridges
/// and form a ladder of at least three rungs, and every residue from `i` to
/// `j` is Sheet, or Helix where a helix takes precedence.
pub proof fn lemma_antiparallel_strands_make_sheet(
    hb: Seq<HydrogenBond>,
    n: int,
    min_helix: int,
    min_strand: int,
    i: int,
    j: int,
)
    requires
        0 <= i,
        i + 6 <= j,
        j < n,
        has_bond(hb, i, j),
        has_bond(hb, j, i),
        has_bond(hb, i + 2, j - 2),
        has_bond(hb, j - 2, i + 2),
        min_strand <= 3,
    ensures
        is_bridge(hb, n, i, j, false),
        is_bridge(hb, n, i + 1, j - 1, false),
        is_bridge(hb, n, i + 2, j - 2, false),
        ladder_from(hb, n, min_strand, i, j, false) is Some,
        ladder_end(hb, n, i, j, false).0 - i + 1 >= 3,
        forall|k: int|
            i <= k <= j ==> (#[trigger] secondary_structure_of(hb, n, min_helix, min_strand)[k]
                == SecondaryStructure::Sheet || secondary_structure_of(hb, n, min_helix, min_strand)[k]
                == SecondaryStructure::Helix),
{
    assert(is_bridge(hb, n, i, j, false));
    assert(is_antiparallel_bridge(hb, n, i + 1, j - 1));
    assert(is_bridge(hb, n, i + 1, j - 1, false));
    assert(is_bridge(hb, n, i + 2, j - 2, false));
    assert(next_partner(j, false) == j - 1);
    assert(next_partner(j - 1, false) == j - 2);
    assert(ladder_end(hb, n, i + 1, j - 1, false) == ladder_end(hb, n, i + 2, j - 2, false));
    assert(ladder_end(hb, n, i, j, false) == ladder_end(hb, n, i + 1, j - 1, false));
    lemma_ladder_end_bounds(hb, n, i + 2, j - 2, false);
    assert forall|k: int| i <= k <= j implies in_strand(hb, n, min_strand, k) by {
        assert(ladder_covers(hb, n, min_strand, i, j, false, k));
    }
    let base = Seq::new(
        n as nat,
        |k: int|
            if in_helix(hb, n, min_helix, k) {
                SecondaryStructure::Helix
            } else if in_strand(hb, n, min_strand, k) {
                SecondaryStructure::Sheet
            } else {
                SecondaryStructure::Coil
            },
    );
    assert forall|k: int| i <= k <= j implies (#[trigger] secondary_structure_of(hb, n, min_helix, min_strand)[k]
        == SecondaryStructure::Sheet || secondary_structure_of(hb, n, min_helix, min_strand)[k]
        == SecondaryStructure::Helix) by {
        assert(base[k] != SecondaryStructure::Coil);
        assert(mark_turns(base)[k] == base[k]);
    }
}

/// Bond lists that hold the same bonds give the same ladders.
proof fn lemma_ladder_end_same_bonds(
    hb1: Seq<HydrogenBond>,
    hb2: Seq<HydrogenBond>,
    n: int,
    i: int,
    j: int,
    parallel: bool,
)
    requires
        forall|d: int, a: int| has_bond(hb1, d, a) == has_bond(hb2, d, a),
    ensures
        ladder_end(hb1, n, i, j, parallel) == ladder_end(hb2, n, i, j, parallel),
    decreases n - i,
{
    let nj = next_partner(j, parallel);
    assert(is_bridge(hb1, n, i + 1, nj, parallel) == is_bridge(hb2, n, i + 1, nj, parallel));
    if step_in_chain(n, i, j, parallel) && is_bridge(hb1, n, i + 1, nj, parallel) {
        lemma_ladder_end_same_bonds(hb1, hb2, n, i + 1, nj, parallel);
    }
}

/// The labels depend on which bonds there are, not on the order in which
/// they are listed or on repeats: two lists that hold the same bonds give
/// the same labels.
pub proof fn lemma_labels_depend_on_bond_set(
    hb1: Seq<HydrogenBond>,
    hb2: Seq<HydrogenBond>,
    n: int,
    min_helix: int,
    min_strand: int,
)
    requires
        forall|d: int, a: int| has_bond(hb1, d, a) == has_bond(hb2, d, a),
    ensures
        secondary_structure_of(hb1, n, min_helix, min_strand) == secondary_structure_of(
            hb2,
            n,
            min_helix,
            min_strand,
        ),
{
    assert forall|t: int, i: int| is_turn(hb1, n, t, i) == is_turn(hb2, n, t, i) by {
        assert(has_bond(hb1, i, i + t) == has_bond(hb2, i, i + t));
        assert(has_bond(hb1, i + t, i) == has_bond(hb2, i + t, i));
    }
    assert forall|t: int, k: int| in_helix_of(hb1, n, t, k) == in_helix_of(hb2, n, t, k) by {
        if in_helix_of(hb1, n, t, k) {
            let w = choose|w: int|
                1 <= w <= k < w + t && w + t < n && #[trigger] is_turn(hb1, n, t, w) && is_turn(hb1, n, t, w - 1);
            assert(is_turn(hb2, n, t, w) && is_turn(hb2, n, t, w - 1));
        }
        if in_helix_of(hb2, n, t, k) {
            let w = choose|w: int|
                1 <= w <= k < w + t && w + t < n && #[trigger] is_turn(hb2, n, t, w) && is_turn(hb2, n, t, w - 1);
            assert(is_turn(hb1, n, t, w) && is_turn(hb1, n, t, w - 1));
        }
    }
    assert(helix_types(hb1, n) =~= helix_types(hb2, n));
    assert forall|i: int, j: int, p: bool, k: int|
        ladder_covers(hb1, n, min_strand, i, j, p, k) == ladder_covers(hb2, n, min_strand, i, j, p, k) by {
        lemma_ladder_end_same_bonds(hb1, hb2, n, i, j, p);
        assert(has_bond(hb1, i - 1, j) == has_bond(hb2, i - 1, j));
        assert(has_bond(hb1, j, i + 1) == has_bond(hb2, j, i + 1));
        assert(has_bond(hb1, i, j) == has_bond(hb2, i, j));
        assert(has_bond(hb1, j, i) == has_bond(hb2, j, i));
        assert(has_bond(hb1, i - 1, j + 1) == has_bond(hb2, i - 1, j + 1));
        assert(has_bond(hb1, j - 1, i + 1) == has_bond(hb2, j - 1, i + 1));
        assert(is_bridge(hb1, n, i, j, p) == is_bridge(hb2, n, i, j, p));
    }
    assert forall|k: int| in_strand(hb1, n, min_strand, k) == in_strand(hb2, n, min_strand, k) by {
        if in_strand(hb1, n, min_strand, k) {
            let (i, j, p) = choose|i: int, j: int, p: bool| #[trigger] ladder_covers(hb1, n, min_strand, i, j, p, k);
            assert(ladder_covers(hb2, n, min_strand, i, j, p, k));
        }
        if in_strand(hb2, n, min_strand, k) {
            let (i, j, p) = choose|i: int, j: int, p: bool| #[trigger] ladder_covers(hb2, n, min_strand, i, j, p, k);
            assert(ladder_covers(hb1, n, min_strand, i, j, p, k));
        }
    }
    let base1 = Seq::new(
        n as nat,
        |k: int|
            if in_helix(hb1, n, min_helix, k) {
                SecondaryStructure::Helix
            } else if in_strand(hb1, n, min_strand, k) {
                SecondaryStructure::Sheet
            } else {
                SecondaryStructure::Coil
            },
    );
    let base2 = Seq::new(
        n as nat,
        |k: int|
            if in_helix(hb2, n, min_helix, k) {
                SecondaryStructure::Helix
            } else if in_strand(hb2, n, min_strand, k) {
                SecondaryStructure::Sheet
            } else {
                SecondaryStructure::Coil
            },
    );
    assert(base1 =~= base2);
}

/// A ribbon mesh is a function of its segments alone: two meshes that both
/// hold what `extrude_ribbon` promises for the same segments are equal in
/// every field.
pub proof fn lemma_ribbon_mesh_is_determined<V, C>(
    segs: Seq<SegmentRings<V>>,
    a: MeshData<V, C>,
    b: MeshData<V, C>,
)
    requires
        a.vertices@ == ribbon_positions(segs, segs.len() as int),
        a.normals@ == ribbon_normals(segs, segs.len() as int),
        as_ints(a.indices@) == ribbon_indices(segs, segs.len() as int),
        a.colors is None,
        !a.is_wireframe,
        b.vertices@ == ribbon_positions(segs, segs.len() as int),
        b.normals@ == ribbon_normals(segs, segs.len() as int),
        as_ints(b.indices@) == ribbon_indices(segs, segs.len() as int),
        b.colors is None,
        !b.is_wireframe,
    ensures
        a.vertices@ == b.vertices@,
        a.normals@ == b.normals@,
        a.indices@ == b.indices@,
        a.colors == b.colors,
        a.is_wireframe == b.is_wireframe,
{
    assert(as_ints(a.indices@).len() == as_ints(b.indices@).len());
    assert(as_ints(a.indices@).len() == a.indices@.len());
    assert(as_ints(b.indices@).len() == b.indices@.len());
    assert forall|k: int| 0 <= k < a.indices@.len() implies a.indices@[k] == b.indices@[k] by {
        assert(as_ints(a.indices@)[k] == as_ints(b.indices@)[k]);
        assert(as_ints(a.indices@)[k] == a.indices@[k] as int);
        assert(as_ints(b.indices@)[k] == b.indices@[k] as int);
    }
    assert(a.indices@ =~= b.indices@);
}

} // verus!
