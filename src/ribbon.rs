//! Cartoon ribbons: splitting a chain's sampled path into per-residue
//! segments and extruding them into one mesh.

use vstd::prelude::*;

use crate::mesh::{as_ints, cap_fits, segment_indices, MeshData};
use crate::structure::SecondaryStructure;

verus! {

/// The cross-section profile swept along a residue's part of the backbone.
#[derive(Debug, Clone, Copy, PartialEq, Eq, Structural)]
pub enum SectionKind {
    /// A flattened tube.
    Helix,
    /// A flat ribbon that narrows to an arrowhead.
    Sheet,
    /// A thin round tube.
    Coil,
}

/// Helix and Sheet residues get their own profiles; all others the coil
/// tube.
pub open spec fn section_of(ss: SecondaryStructure) -> SectionKind {
    match ss {
        SecondaryStructure::Helix => SectionKind::Helix,
        SecondaryStructure::Sheet => SectionKind::Sheet,
        _ => SectionKind::Coil,
    }
}

impl SectionKind {
    /// The profile for a residue labelled `ss`.
    pub fn for_structure(ss: SecondaryStructure) -> (kind: SectionKind)
        ensures
            kind == section_of(ss),
    {
        match ss {
            SecondaryStructure::Helix => SectionKind::Helix,
            SecondaryStructure::Sheet => SectionKind::Sheet,
            _ => SectionKind::Coil,
        }
    }
}

/// One residue's share of the sampled path: samples `start .. end`, the
/// profile to sweep, and whether the segment is capped at either end.
#[derive(Debug, Clone, Copy, PartialEq, Eq)]
pub struct RibbonSegment {
    pub start: usize,
    pub end: usize,
    pub section: SectionKind,
    pub cap_front: bool,
    pub cap_back: bool,
}

/// Samples on the smoothed path through `n_points` control points: the
/// first point, then `per` samples for each following point.
pub open spec fn path_len(n_points: int, per: int) -> int {
    if n_points < 2 {
        n_points
    } else {
        per * (n_points - 1) + 1
    }
}

/// Segments extruded for a chain: none below two control points, else one
/// per residue label, but no more than there are control points.
pub open spec fn segment_count(n_labels: int, n_points: int) -> int {
    if n_points < 2 {
        0
    } else if n_labels <= n_points {
        n_labels
    } else {
        n_points
    }
}

/// Segment `s` of the plan: it starts at sample `per * s` and shares its
/// last sample with the next segment; the last segment runs to the end of
/// the path. The first is capped in front, the last behind.
pub open spec fn planned_segment(labels: Seq<SecondaryStructure>, n_points: int, per: int, s: int) -> RibbonSegment {
    let count = segment_count(labels.len() as int, n_points);
    RibbonSegment {
        start: (per * s) as usize,
        end: (if s + 1 < count {
            per * (s + 1) + 1
        } else {
            path_len(n_points, per)
        }) as usize,
        section: section_of(labels[s]),
        cap_front: s == 0,
        cap_back: s + 1 == count,
    }
}

/// The number of samples on the smoothed path through `n_points` control
/// points, `pts_per_res` per residue.
pub fn sampled_path_len(n_points: usize, pts_per_res: usize) -> (len: usize)
    requires
        pts_per_res * n_points < usize::MAX,
    ensures
        len == path_len(n_points as int, pts_per_res as int),
{
    if n_points < 2 {
        n_points
    } else {
        proof {
            assert(pts_per_res * (n_points - 1) <= pts_per_res * n_points) by (nonlinear_arith)
                requires
                    n_points >= 2,
            ;
        }
        pts_per_res * (n_points - 1) + 1
    }
}

/// Splits the sampled path of a chain into per-residue segments. `labels`
/// holds the chain's residue labels and `n_points` the number of residues
/// with usable positions; a chain with fewer than two gets no segments.
pub fn ribbon_segments(labels: &Vec<SecondaryStructure>, n_points: usize, pts_per_res: usize) -> (segments: Vec<RibbonSegment>)
    requires
        pts_per_res >= 1,
        pts_per_res * n_points < usize::MAX,
    ensures
        segments@.len() == segment_count(labels@.len() as int, n_points as int),
        forall|s: int|
            0 <= s < segments@.len() ==> #[trigger] segments@[s] == planned_segment(
                labels@,
                n_points as int,
                pts_per_res as int,
                s,
            ),
        forall|s: int|
            0 <= s < segments@.len() ==> (#[trigger] segments@[s]).start < segments@[s].end <= path_len(
                n_points as int,
                pts_per_res as int,
            ),
{
    let mut segments: Vec<RibbonSegment> = Vec::new();
    if n_points < 2 {
        return segments;
    }
    let total = sampled_path_len(n_points, pts_per_res);
    let count = if labels.len() <= n_points {
        labels.len()
    } else {
        n_points
    };
    let mut s: usize = 0;
    let mut start: usize = 0;
    while s < count
        invariant
            n_points >= 2,
            pts_per_res >= 1,
            pts_per_res * n_points < usize::MAX,
            total == path_len(n_points as int, pts_per_res as int),
            count == segment_count(labels@.len() as int, n_points as int),
            count <= n_points,
            s <= count,
            start == pts_per_res * s,
            segments@.len() == s,
            forall|m: int|
                0 <= m < s ==> #[trigger] segments@[m] == planned_segment(
                    labels@,
                    n_points as int,
                    pts_per_res as int,
                    m,
                ),
            forall|m: int|
                0 <= m < s ==> (#[trigger] segments@[m]).start < segments@[m].end <= total,
        decreases count - s,
    {
        proof {
            assert(pts_per_res * (s + 1) <= pts_per_res * (n_points - 1) + pts_per_res) by (nonlinear_arith)
                requires
                    s + 1 <= n_points,
                    pts_per_res >= 1,
            ;
            assert(pts_per_res * (s + 1) == pts_per_res * s + pts_per_res) by (nonlinear_arith);
            assert(pts_per_res * (n_points - 1) + pts_per_res == pts_per_res * n_points) by (nonlinear_arith);
            assert(pts_per_res * s <= pts_per_res * (n_points - 1)) by (nonlinear_arith)
                requires
                    s + 1 <= n_points,
                    pts_per_res >= 1,
            ;
        }
        let next = start + pts_per_res;
        let end = if s + 1 < count {
            proof {
                assert(pts_per_res * (s + 1) <= pts_per_res * (n_points - 1)) by (nonlinear_arith)
                    requires
                        s + 2 <= n_points,
                        pts_per_res >= 1,
                ;
            }
            next + 1
        } else {
            total
        };
        let segment = RibbonSegment {
            start: start,
            end: end,
            section: SectionKind::for_structure(labels[s]),
            cap_front: s == 0,
            cap_back: s + 1 == count,
        };
        segments.push(segment);
        proof {
            assert(segments@[s as int] == planned_segment(labels@, n_points as int, pts_per_res as int, s as int));
        }
        start = next;
        s += 1;
    }
    segments
}

/// How far sample `i` of a segment of `n_pts` samples has morphed towards
/// the arrowhead, as a fraction: nothing for other profiles or a single
/// sample; for a sheet, nothing over the first half, then rising evenly to
/// the whole at the last sample.
pub open spec fn arrow_fraction(section: SectionKind, i: int, n_pts: int) -> (int, int) {
    if section != SectionKind::Sheet || n_pts < 2 {
        (0, 1)
    } else {
        let d = n_pts - 1;
        let raw = 2 * i - d;
        (
            if raw < 0 {
                0
            } else if raw > d {
                d
            } else {
                raw
            },
            d,
        )
    }
}

/// The arrowhead progress of sample `i` of a segment of `n_pts` samples,
/// as numerator and denominator.
pub fn arrow_progress(section: SectionKind, i: usize, n_pts: usize) -> (progress: (usize, usize))
    requires
        i < n_pts,
        2 * n_pts <= usize::MAX,
    ensures
        progress.0 as int == arrow_fraction(section, i as int, n_pts as int).0,
        progress.1 as int == arrow_fraction(section, i as int, n_pts as int).1,
        progress.0 <= progress.1,
        progress.1 >= 1,
{
    match section {
        SectionKind::Sheet => {
            if n_pts < 2 {
                (0, 1)
            } else {
                let d = n_pts - 1;
                let twice = 2 * i;
                let num = if twice < d {
                    0
                } else if twice - d > d {
                    d
                } else {
                    twice - d
                };
                (num, d)
            }
        },
        _ => (0, 1),
    }
}

/// The rings of one segment as computed by the caller: `n_pts` rings of
/// `n_ring` points, positions and normals ring after ring, and the winding
/// of each fan triangle of a cap where the segment has one.
pub struct SegmentRings<V> {
    pub positions: Vec<V>,
    pub normals: Vec<V>,
    pub n_pts: usize,
    pub n_ring: usize,
    pub cap_front: Option<Vec<bool>>,
    pub cap_back: Option<Vec<bool>>,
}

impl<V> SegmentRings<V> {
    /// The ring data is consistent: whole rings of at least three points,
    /// one normal per point, one winding per cap triangle.
    pub open spec fn fits(&self) -> bool {
        &&& self.n_pts >= 1
        &&& self.n_ring >= 3
        &&& self.positions@.len() == self.n_pts * self.n_ring
        &&& self.normals@.len() == self.positions@.len()
        &&& cap_fits(self.cap_front, self.n_ring as int)
        &&& cap_fits(self.cap_back, self.n_ring as int)
    }
}

/// Vertices in the first `count` segments.
pub open spec fn vertex_total<V>(segs: Seq<SegmentRings<V>>, count: int) -> int
    decreases count,
{
    if count <= 0 {
        0
    } else {
        vertex_total(segs, count - 1) + segs[count - 1].positions@.len()
    }
}

/// The positions of the first `count` segments, one after another.
pub open spec fn ribbon_positions<V>(segs: Seq<SegmentRings<V>>, count: int) -> Seq<V>
    decreases count,
{
    if count <= 0 {
        Seq::empty()
    } else {
        ribbon_positions(segs, count - 1) + segs[count - 1].positions@
    }
}

/// The normals of the first `count` segments, one after another.
pub open spec fn ribbon_normals<V>(segs: Seq<SegmentRings<V>>, count: int) -> Seq<V>
    decreases count,
{
    if count <= 0 {
        Seq::empty()
    } else {
        ribbon_normals(segs, count - 1) + segs[count - 1].normals@
    }
}

/// The indices of the first `count` segments, each segment's indices
/// shifted past the vertices before it.
pub open spec fn ribbon_indices<V>(segs: Seq<SegmentRings<V>>, count: int) -> Seq<int>
    decreases count,
{
    if count <= 0 {
        Seq::empty()
    } else {
        let seg = segs[count - 1];
        ribbon_indices(segs, count - 1) + segment_indices(
            vertex_total(segs, count - 1),
            seg.n_pts as int,
            seg.n_ring as int,
            seg.cap_front,
            seg.cap_back,
        )
    }
}

proof fn lemma_ribbon_positions_len<V>(segs: Seq<SegmentRings<V>>, count: int)
    requires
        0 <= count <= segs.len(),
    ensures
        ribbon_positions(segs, count).len() == vertex_total(segs, count),
        vertex_total(segs, count) >= 0,
    decreases count,
{
    if count > 0 {
        lemma_ribbon_positions_len(segs, count - 1);
    }
}

proof fn lemma_vertex_total_grows<V>(segs: Seq<SegmentRings<V>>, a: int, b: int)
    requires
        0 <= a <= b <= segs.len(),
    ensures
        vertex_total(segs, a) <= vertex_total(segs, b),
    decreases b - a,
{
    if a < b {
        lemma_vertex_total_grows(segs, a, b - 1);
    }
}

/// Builds the mesh of one chain from its segments' rings.
pub fn extrude_ribbon<V: Copy, C: Copy>(segments: &Vec<SegmentRings<V>>) -> (mesh: MeshData<V, C>)
    requires
        forall|s: int| 0 <= s < segments@.len() ==> (#[trigger] segments@[s]).fits(),
        vertex_total(segments@, segments@.len() as int) <= u32::MAX,
    ensures
        mesh.wf(),
        mesh.vertices@ == ribbon_positions(segments@, segments@.len() as int),
        mesh.normals@ == ribbon_normals(segments@, segments@.len() as int),
        as_ints(mesh.indices@) == ribbon_indices(segments@, segments@.len() as int),
        mesh.colors is None,
        !mesh.is_wireframe,
{
    let mut mesh: MeshData<V, C> = MeshData::new();
    let mut s: usize = 0;
    while s < segments.len()
        invariant
            s <= segments@.len(),
            forall|m: int| 0 <= m < segments@.len() ==> (#[trigger] segments@[m]).fits(),
            vertex_total(segments@, segments@.len() as int) <= u32::MAX,
            mesh.wf(),
            mesh.vertices@ == ribbon_positions(segments@, s as int),
            mesh.normals@ == ribbon_normals(segments@, s as int),
            as_ints(mesh.indices@) == ribbon_indices(segments@, s as int),
            mesh.colors is None,
            !mesh.is_wireframe,
        decreases segments@.len() - s,
    {
        let seg = &segments[s];
        proof {
            assert(seg.fits());
            lemma_ribbon_positions_len(segments@, s as int);
            lemma_vertex_total_grows(segments@, s + 1, segments@.len() as int);
        }
        mesh.extrude_one_segment(&seg.positions, &seg.normals, seg.n_pts, seg.n_ring, &seg.cap_front, &seg.cap_back);
        s += 1;
    }
    mesh
}

} // verus!
