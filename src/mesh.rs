//! Triangle meshes over caller-supplied vertices: extruded segments, cap
//! fans and concatenation.

use vstd::prelude::*;

verus! {

/// A triangle mesh. `V` is the vertex and normal type, `C` the color type;
/// the library never looks inside either.
pub struct MeshData<V, C> {
    pub vertices: Vec<V>,
    pub normals: Vec<V>,
    pub indices: Vec<u32>,
    pub colors: Option<Vec<C>>,
    pub is_wireframe: bool,
}

/// The indices of a mesh as integers.
pub open spec fn as_ints(s: Seq<u32>) -> Seq<int> {
    s.map_values(|x: u32| x as int)
}

/// The two triangles of the quad between ring point `r` of ring `i` and the
/// next point round, and the same two points of ring `i + 1`.
pub open spec fn quad(base: int, n_ring: int, i: int, r: int) -> Seq<int> {
    let r_next = (r + 1) % n_ring;
    let a = base + i * n_ring + r;
    let b = base + i * n_ring + r_next;
    let c = base + (i + 1) * n_ring + r_next;
    let d = base + (i + 1) * n_ring + r;
    seq![a, b, d, b, c, d]
}

/// The quads between ring `i` and ring `i + 1`, for the first `count` ring
/// points.
pub open spec fn strip_row(base: int, n_ring: int, i: int, count: int) -> Seq<int>
    decreases count,
{
    if count <= 0 {
        Seq::empty()
    } else {
        strip_row(base, n_ring, i, count - 1) + quad(base, n_ring, i, count - 1)
    }
}

/// The quad strip joining the first `rows + 1` rings.
pub open spec fn strip(base: int, n_ring: int, rows: int) -> Seq<int>
    decreases rows,
{
    if rows <= 0 {
        Seq::empty()
    } else {
        strip(base, n_ring, rows - 1) + strip_row(base, n_ring, rows - 1, n_ring)
    }
}

/// One fan triangle of a cap: `center`, `center + r`, `center + r + 1`, or
/// the reverse winding where `flip` holds.
pub open spec fn fan_triangle(center: int, r: int, flip: bool) -> Seq<int> {
    if flip {
        seq![center, center + r + 1, center + r]
    } else {
        seq![center, center + r, center + r + 1]
    }
}

/// The first `count` triangles of the fan round `center`; triangle `r`
/// (from 1) is wound by `flips[r - 1]`.
pub open spec fn fan(center: int, flips: Seq<bool>, count: int) -> Seq<int>
    decreases count,
{
    if count <= 0 {
        Seq::empty()
    } else {
        fan(center, flips, count - 1) + fan_triangle(center, count, flips[count - 1])
    }
}

/// The cap over a ring that starts at vertex `center`, if one is asked for.
pub open spec fn cap(center: int, n_ring: int, flips: Option<Vec<bool>>) -> Seq<int> {
    match flips {
        Some(f) => fan(center, f@, n_ring - 2),
        None => Seq::empty(),
    }
}

/// The indices of one extruded segment whose `n_pts` rings of `n_ring`
/// vertices start at vertex `base`.
pub open spec fn segment_indices(
    base: int,
    n_pts: int,
    n_ring: int,
    front: Option<Vec<bool>>,
    back: Option<Vec<bool>>,
) -> Seq<int> {
    strip(base, n_ring, n_pts - 1) + cap(base, n_ring, front) + cap(base + (n_pts - 1) * n_ring, n_ring, back)
}

/// A cap's winding list has one entry per fan triangle.
pub open spec fn cap_fits(flips: Option<Vec<bool>>, n_ring: int) -> bool {
    match flips {
        Some(f) => f@.len() == n_ring - 2,
        None => true,
    }
}

impl<V, C> MeshData<V, C> {
    /// Every index names a vertex; there is one normal per vertex, one color
    /// per vertex when there are colors, and every vertex can be indexed.
    pub open spec fn wf(&self) -> bool {
        &&& self.normals@.len() == self.vertices@.len()
        &&& self.vertices@.len() <= u32::MAX
        &&& forall|k: int| 0 <= k < self.indices@.len() ==> (#[trigger] self.indices@[k]) < self.vertices@.len()
        &&& match self.colors {
            Some(c) => c@.len() == self.vertices@.len(),
            None => true,
        }
    }

    /// An empty mesh.
    pub fn new() -> (mesh: Self)
        ensures
            mesh.wf(),
            mesh.vertices@.len() == 0,
            mesh.normals@.len() == 0,
            mesh.indices@.len() == 0,
            mesh.colors is None,
            !mesh.is_wireframe,
    {
        MeshData {
            vertices: Vec::new(),
            normals: Vec::new(),
            indices: Vec::new(),
            colors: None,
            is_wireframe: false,
        }
    }
}

impl<V, C> Default for MeshData<V, C> {
    /// An empty mesh.
    fn default() -> (mesh: Self)
        ensures
            mesh.wf(),
            mesh.vertices@.len() == 0,
            mesh.normals@.len() == 0,
            mesh.indices@.len() == 0,
            mesh.colors is None,
            !mesh.is_wireframe,
    {
        Self::new()
    }
}

/// `s` with `base` added to each element.
pub open spec fn offset(s: Seq<int>, base: int) -> Seq<int> {
    s.map_values(|x: int| x + base)
}

/// The view of an optional color list.
pub open spec fn colors_view<C>(c: Option<Vec<C>>) -> Option<Seq<C>> {
    match c {
        Some(v) => Some(v@),
        None => None,
    }
}

/// The colors of two meshes laid end to end: both lists joined; one list
/// alone where the other mesh has no vertices; otherwise none, since a
/// partial list would not describe the joined mesh.
pub open spec fn joined_colors<C>(a: Option<Seq<C>>, a_len: nat, b: Option<Seq<C>>, b_len: nat) -> Option<Seq<C>> {
    match (a, b) {
        (Some(x), Some(y)) => Some(x + y),
        (Some(x), None) => if b_len == 0 {
            Some(x)
        } else {
            None
        },
        (None, Some(y)) => if a_len == 0 {
            Some(y)
        } else {
            None
        },
        (None, None) => None,
    }
}

proof fn lemma_ring_rows(i: int, n_pts: int, n_ring: int)
    requires
        0 <= i,
        i + 2 <= n_pts,
        0 <= n_ring,
    ensures
        i * n_ring + 2 * n_ring <= n_pts * n_ring,
        (i + 1) * n_ring == i * n_ring + n_ring,
        0 <= i * n_ring,
{
    assert(i * n_ring + 2 * n_ring <= n_pts * n_ring) by (nonlinear_arith)
        requires
            i + 2 <= n_pts,
            0 <= n_ring,
    ;
    assert((i + 1) * n_ring == i * n_ring + n_ring) by (nonlinear_arith);
    assert(0 <= i * n_ring) by (nonlinear_arith)
        requires
            0 <= i,
            0 <= n_ring,
    ;
}

proof fn lemma_next_point(r: int, n_ring: int)
    requires
        0 <= r < n_ring,
    ensures
        (r + 1) % n_ring == if r + 1 == n_ring {
            0
        } else {
            r + 1
        },
{
    if r + 1 == n_ring {
        vstd::arithmetic::div_mod::lemma_mod_self_0(n_ring);
    } else {
        vstd::arithmetic::div_mod::lemma_small_mod((r + 1) as nat, n_ring as nat);
    }
}

proof fn lemma_quad_facts(base: int, n_ring: int, i: int, r: int)
    requires
        n_ring >= 1,
        0 <= i,
        0 <= r,
    ensures
        quad(base, n_ring, i, r).len() == 6,
        forall|k: int| 0 <= k < 6 ==> #[trigger] quad(base, n_ring, i, r)[k] >= base,
{
    assert(i * n_ring >= 0) by (nonlinear_arith)
        requires
            0 <= i,
            n_ring >= 1,
    ;
    assert((i + 1) * n_ring >= 0) by (nonlinear_arith)
        requires
            0 <= i,
            n_ring >= 1,
    ;
    assert((r + 1) % n_ring >= 0) by (nonlinear_arith)
        requires
            n_ring >= 1,
    ;
}

proof fn lemma_strip_row_facts(base: int, n_ring: int, i: int, count: int)
    requires
        n_ring >= 1,
        0 <= i,
        0 <= count,
    ensures
        strip_row(base, n_ring, i, count).len() == 6 * count,
        forall|k: int| 0 <= k < 6 * count ==> #[trigger] strip_row(base, n_ring, i, count)[k] >= base,
    decreases count,
{
    if count > 0 {
        lemma_strip_row_facts(base, n_ring, i, count - 1);
        lemma_quad_facts(base, n_ring, i, count - 1);
        let prev = strip_row(base, n_ring, i, count - 1);
        let q = quad(base, n_ring, i, count - 1);
        assert forall|k: int| 0 <= k < 6 * count implies #[trigger] strip_row(base, n_ring, i, count)[k] >= base by {
            if k < prev.len() {
                assert(strip_row(base, n_ring, i, count)[k] == prev[k]);
            } else {
                assert(strip_row(base, n_ring, i, count)[k] == q[k - prev.len()]);
            }
        }
    }
}

proof fn lemma_strip_facts(base: int, n_ring: int, rows: int)
    requires
        n_ring >= 1,
        0 <= rows,
    ensures
        strip(base, n_ring, rows).len() == 6 * rows * n_ring,
        forall|k: int| 0 <= k < strip(base, n_ring, rows).len() ==> #[trigger] strip(base, n_ring, rows)[k] >= base,
    decreases rows,
{
    if rows > 0 {
        lemma_strip_facts(base, n_ring, rows - 1);
        lemma_strip_row_facts(base, n_ring, rows - 1, n_ring);
        assert(6 * (rows - 1) * n_ring + 6 * n_ring == 6 * rows * n_ring) by (nonlinear_arith);
        let prev = strip(base, n_ring, rows - 1);
        let row = strip_row(base, n_ring, rows - 1, n_ring);
        assert forall|k: int| 0 <= k < strip(base, n_ring, rows).len() implies #[trigger] strip(base, n_ring, rows)[k] >= base by {
            if k < prev.len() {
                assert(strip(base, n_ring, rows)[k] == prev[k]);
            } else {
                assert(strip(base, n_ring, rows)[k] == row[k - prev.len()]);
            }
        }
    } else {
        assert(6 * rows * n_ring == 0) by (nonlinear_arith)
            requires
                rows == 0,
        ;
    }
}

proof fn lemma_fan_facts(center: int, flips: Seq<bool>, count: int)
    requires
        0 <= count <= flips.len(),
    ensures
        fan(center, flips, count).len() == 3 * count,
        forall|k: int| 0 <= k < 3 * count ==> #[trigger] fan(center, flips, count)[k] >= center,
    decreases count,
{
    if count > 0 {
        lemma_fan_facts(center, flips, count - 1);
        let prev = fan(center, flips, count - 1);
        let tri = fan_triangle(center, count, flips[count - 1]);
        assert forall|k: int| 0 <= k < 3 * count implies #[trigger] fan(center, flips, count)[k] >= center by {
            if k < prev.len() {
                assert(fan(center, flips, count)[k] == prev[k]);
            } else {
                assert(fan(center, flips, count)[k] == tri[k - prev.len()]);
            }
        }
    }
}

/// Triangles in a cap that is asked for.
pub open spec fn cap_count(flips: Option<Vec<bool>>) -> int {
    if flips is Some {
        1
    } else {
        0
    }
}

/// The indices of a segment number six per quad and three per cap
/// triangle, and none lies below the segment's first vertex.
pub proof fn lemma_segment_indices_facts(
    base: int,
    n_pts: int,
    n_ring: int,
    front: Option<Vec<bool>>,
    back: Option<Vec<bool>>,
)
    requires
        0 <= base,
        n_pts >= 1,
        n_ring >= 3,
        cap_fits(front, n_ring),
        cap_fits(back, n_ring),
    ensures
        segment_indices(base, n_pts, n_ring, front, back).len() == 6 * (n_pts - 1) * n_ring + 3 * (
        n_ring - 2) * (cap_count(front) + cap_count(back)),
        forall|k: int|
            0 <= k < segment_indices(base, n_pts, n_ring, front, back).len() ==> #[trigger] segment_indices(
                base,
                n_pts,
                n_ring,
                front,
                back,
            )[k] >= base,
{
    let st = strip(base, n_ring, n_pts - 1);
    let last = base + (n_pts - 1) * n_ring;
    assert((n_pts - 1) * n_ring >= 0) by (nonlinear_arith)
        requires
            n_pts >= 1,
            n_ring >= 3,
    ;
    lemma_strip_facts(base, n_ring, n_pts - 1);
    let fc = cap(base, n_ring, front);
    let bc = cap(last, n_ring, back);
    match front {
        Some(f) => lemma_fan_facts(base, f@, n_ring - 2),
        None => {},
    }
    match back {
        Some(f) => lemma_fan_facts(last, f@, n_ring - 2),
        None => {},
    }
    assert(3 * (n_ring - 2) * (cap_count(front) + cap_count(back)) == 3 * (n_ring - 2) * cap_count(front) + 3 * (n_ring - 2) * cap_count(back)) by (nonlinear_arith);
    assert(fc.len() == 3 * (n_ring - 2) * cap_count(front));
    assert(bc.len() == 3 * (n_ring - 2) * cap_count(back));
    let all = segment_indices(base, n_pts, n_ring, front, back);
    assert forall|k: int| 0 <= k < all.len() implies #[trigger] all[k] >= base by {
        if k < st.len() {
            assert(all[k] == st[k]);
        } else if k < st.len() + fc.len() {
            assert(all[k] == fc[k - st.len()]);
        } else {
            assert(all[k] == bc[k - st.len() - fc.len()]);
        }
    }
}

impl<V: Copy, C: Copy> MeshData<V, C> {
    /// Appends the fan that caps the ring starting at vertex `center`.
    fn push_fan(&mut self, center: usize, n_ring: usize, flips: &Vec<bool>)
        requires
            old(self).wf(),
            n_ring >= 3,
            center + n_ring <= old(self).vertices@.len(),
            flips@.len() == n_ring - 2,
        ensures
            final(self).wf(),
            final(self).vertices@ == old(self).vertices@,
            final(self).normals@ == old(self).normals@,
            final(self).colors == old(self).colors,
            final(self).is_wireframe == old(self).is_wireframe,
            as_ints(final(self).indices@) == as_ints(old(self).indices@) + fan(
                center as int,
                flips@,
                n_ring - 2,
            ),
    {
        let mut r: usize = 1;
        while r < n_ring - 1
            invariant
                self.wf(),
                1 <= r <= n_ring - 1,
                n_ring >= 3,
                center + n_ring <= self.vertices@.len(),
                flips@.len() == n_ring - 2,
                self.vertices@ == old(self).vertices@,
                self.normals@ == old(self).normals@,
                self.colors == old(self).colors,
                self.is_wireframe == old(self).is_wireframe,
                as_ints(self.indices@) == as_ints(old(self).indices@) + fan(center as int, flips@, r - 1),
            decreases n_ring - 1 - r,
        {
            let ghost prev = self.indices@;
            let a = center as u32;
            let b = (center + r) as u32;
            let c = (center + r + 1) as u32;
            if flips[r - 1] {
                self.indices.push(a);
                self.indices.push(c);
                self.indices.push(b);
            } else {
                self.indices.push(a);
                self.indices.push(b);
                self.indices.push(c);
            }
            proof {
                assert(as_ints(self.indices@) =~= as_ints(prev) + fan_triangle(center as int, r as int, flips@[r - 1]));
                assert(fan(center as int, flips@, r as int) == fan(center as int, flips@, r - 1) + fan_triangle(center as int, r as int, flips@[r - 1]));
                assert(as_ints(self.indices@) =~= as_ints(old(self).indices@) + fan(center as int, flips@, r as int));
                assert forall|k: int| 0 <= k < self.indices@.len() implies (#[trigger] self.indices@[k]) < self.vertices@.len() by {
                    if k >= prev.len() {
                        assert(self.indices@[k] == a || self.indices@[k] == b || self.indices@[k] == c);
                    } else {
                        assert(self.indices@[k] == prev[k]);
                    }
                }
            }
            r += 1;
        }
    }

    /// Appends one extruded segment: `n_pts` rings of `n_ring` vertices with
    /// their normals, the quad strip that joins consecutive rings, and a fan
    /// cap over the first and over the last ring where one is asked for. A
    /// cap's list gives the winding of each fan triangle. The mesh has no
    /// colors yet: they are given once its geometry is complete.
    pub fn extrude_one_segment(
        &mut self,
        positions: &Vec<V>,
        normals: &Vec<V>,
        n_pts: usize,
        n_ring: usize,
        cap_front: &Option<Vec<bool>>,
        cap_back: &Option<Vec<bool>>,
    )
        requires
            old(self).wf(),
            n_pts >= 1,
            n_ring >= 3,
            positions@.len() == n_pts * n_ring,
            normals@.len() == positions@.len(),
            old(self).vertices@.len() + positions@.len() <= u32::MAX,
            old(self).colors is None,
            cap_fits(*cap_front, n_ring as int),
            cap_fits(*cap_back, n_ring as int),
        ensures
            final(self).wf(),
            final(self).vertices@ == old(self).vertices@ + positions@,
            final(self).normals@ == old(self).normals@ + normals@,
            final(self).colors is None,
            final(self).is_wireframe == old(self).is_wireframe,
            as_ints(final(self).indices@) == as_ints(old(self).indices@) + segment_indices(
                old(self).vertices@.len() as int,
                n_pts as int,
                n_ring as int,
                *cap_front,
                *cap_back,
            ),
            final(self).indices@.len() == old(self).indices@.len() + 6 * (n_pts - 1) * n_ring + 3 * (
            n_ring - 2) * (cap_count(*cap_front) + cap_count(*cap_back)),
            forall|k: int|
                old(self).indices@.len() <= k < final(self).indices@.len() ==> old(self).vertices@.len()
                    <= #[trigger] final(self).indices@[k] < final(self).vertices@.len(),
    {
        let base = self.vertices.len();
        let ghost old_indices = self.indices@;
        let mut k: usize = 0;
        while k < positions.len()
            invariant
                k <= positions@.len(),
                normals@.len() == positions@.len(),
                self.vertices@ == old(self).vertices@ + positions@.take(k as int),
                self.normals@ == old(self).normals@ + normals@.take(k as int),
                self.indices@ == old_indices,
                old(self).wf(),
                old_indices == old(self).indices@,
                self.colors is None,
                self.is_wireframe == old(self).is_wireframe,
                base == old(self).vertices@.len(),
            decreases positions@.len() - k,
        {
            self.vertices.push(positions[k]);
            self.normals.push(normals[k]);
            proof {
                assert(positions@.take(k + 1) =~= positions@.take(k as int).push(positions@[k as int]));
                assert(normals@.take(k + 1) =~= normals@.take(k as int).push(normals@[k as int]));
            }
            k += 1;
        }
        proof {
            assert(positions@.take(positions@.len() as int) =~= positions@);
            assert(normals@.take(normals@.len() as int) =~= normals@);
        }
        let total = self.vertices.len();
        let mut i: usize = 0;
        let mut row: usize = base;
        while i < n_pts - 1
            invariant
                n_pts >= 1,
                n_ring >= 3,
                i <= n_pts - 1,
                row == base + i * n_ring,
                total == base + n_pts * n_ring,
                total <= u32::MAX,
                self.vertices@.len() == total,
                self.normals@.len() == total,
                self.vertices@ == old(self).vertices@ + positions@,
                self.normals@ == old(self).normals@ + normals@,
                self.colors is None,
                self.is_wireframe == old(self).is_wireframe,
                forall|m: int| 0 <= m < self.indices@.len() ==> (#[trigger] self.indices@[m]) < total,
                as_ints(self.indices@) == as_ints(old_indices) + strip(base as int, n_ring as int, i as int),
            decreases n_pts - 1 - i,
        {
            proof {
                lemma_ring_rows(i as int, n_pts as int, n_ring as int);
            }
            let next_row = row + n_ring;
            let mut r: usize = 0;
            while r < n_ring
                invariant
                    n_ring >= 3,
                    i + 2 <= n_pts,
                    row == base + i * n_ring,
                    next_row == row + n_ring,
                    next_row + n_ring <= total,
                    (i + 1) * n_ring == i * n_ring + n_ring,
                    r <= n_ring,
                    total <= u32::MAX,
                    self.vertices@.len() == total,
                    self.normals@.len() == total,
                    self.vertices@ == old(self).vertices@ + positions@,
                    self.normals@ == old(self).normals@ + normals@,
                    self.colors is None,
                    self.is_wireframe == old(self).is_wireframe,
                    forall|m: int| 0 <= m < self.indices@.len() ==> (#[trigger] self.indices@[m]) < total,
                    as_ints(self.indices@) == as_ints(old_indices) + strip(base as int, n_ring as int, i as int)
                        + strip_row(base as int, n_ring as int, i as int, r as int),
                decreases n_ring - r,
            {
                let ghost prev = self.indices@;
                let r_next = if r + 1 == n_ring {
                    0
                } else {
                    r + 1
                };
                let a = (row + r) as u32;
                let b = (row + r_next) as u32;
                let c = (next_row + r_next) as u32;
                let d = (next_row + r) as u32;
                self.indices.push(a);
                self.indices.push(b);
                self.indices.push(d);
                self.indices.push(b);
                self.indices.push(c);
                self.indices.push(d);
                proof {
                    lemma_next_point(r as int, n_ring as int);
                    assert(as_ints(self.indices@) =~= as_ints(prev) + quad(base as int, n_ring as int, i as int, r as int));
                    assert(strip_row(base as int, n_ring as int, i as int, r + 1) == strip_row(base as int, n_ring as int, i as int, r as int) + quad(base as int, n_ring as int, i as int, r as int));
                    assert(as_ints(self.indices@) =~= as_ints(old_indices) + strip(base as int, n_ring as int, i as int)
                        + strip_row(base as int, n_ring as int, i as int, r + 1));
                    assert forall|m: int| 0 <= m < self.indices@.len() implies (#[trigger] self.indices@[m]) < total by {
                        if m < prev.len() {
                            assert(self.indices@[m] == prev[m]);
                        }
                    }
                }
                r += 1;
            }
            proof {
                assert(strip(base as int, n_ring as int, i + 1) == strip(base as int, n_ring as int, i as int) + strip_row(base as int, n_ring as int, i as int, n_ring as int));
                assert(as_ints(self.indices@) =~= as_ints(old_indices) + strip(base as int, n_ring as int, i + 1));
            }
            row = next_row;
            i += 1;
        }
        proof {
            assert(n_pts * n_ring >= n_ring) by (nonlinear_arith)
                requires
                    n_pts >= 1,
                    n_ring >= 0,
            ;
        }
        if let Some(flips) = cap_front {
            self.push_fan(base, n_ring, flips);
        }
        let ghost after_front = self.indices@;
        proof {
            assert(as_ints(after_front) =~= as_ints(old_indices) + strip(base as int, n_ring as int, n_pts - 1) + cap(base as int, n_ring as int, *cap_front));
            assert((n_pts - 1) * n_ring == n_pts * n_ring - n_ring) by (nonlinear_arith);
        }
        if let Some(flips) = cap_back {
            let last_ring = total - n_ring;
            self.push_fan(last_ring, n_ring, flips);
        }
        proof {
            let seg = segment_indices(base as int, n_pts as int, n_ring as int, *cap_front, *cap_back);
            assert(as_ints(self.indices@) =~= as_ints(old_indices) + seg);
            lemma_segment_indices_facts(base as int, n_pts as int, n_ring as int, *cap_front, *cap_back);
            assert(as_ints(self.indices@).len() == self.indices@.len());
            assert(as_ints(old_indices).len() == old_indices.len());
            assert forall|k: int| old_indices.len() <= k < self.indices@.len() implies base
                <= #[trigger] self.indices@[k] < self.vertices@.len() by {
                assert(as_ints(self.indices@)[k] == self.indices@[k] as int);
                assert(as_ints(self.indices@)[k] == seg[k - old_indices.len()]);
            }
        }
    }
}

/// A copy of `v`.
fn copy_of<T: Copy>(v: &Vec<T>) -> (r: Vec<T>)
    ensures
        r@ == v@,
{
    let mut r: Vec<T> = Vec::new();
    let mut k: usize = 0;
    while k < v.len()
        invariant
            k <= v@.len(),
            r@ == v@.take(k as int),
        decreases v@.len() - k,
    {
        r.push(v[k]);
        proof {
            assert(v@.take(k + 1) =~= v@.take(k as int).push(v@[k as int]));
        }
        k += 1;
    }
    proof {
        assert(v@.take(v@.len() as int) =~= v@);
    }
    r
}

impl<V: Copy, C: Copy> MeshData<V, C> {
    /// Appends `other` after this mesh: its vertices, normals and colors
    /// follow these, and its indices are shifted by this mesh's vertex count.
    pub fn append(&mut self, other: &MeshData<V, C>)
        requires
            old(self).wf(),
            other.wf(),
            old(self).vertices@.len() + other.vertices@.len() <= u32::MAX,
        ensures
            final(self).wf(),
            final(self).vertices@ == old(self).vertices@ + other.vertices@,
            final(self).normals@ == old(self).normals@ + other.normals@,
            as_ints(final(self).indices@) == as_ints(old(self).indices@) + offset(
                as_ints(other.indices@),
                old(self).vertices@.len() as int,
            ),
            colors_view(final(self).colors) == joined_colors(
                colors_view(old(self).colors),
                old(self).vertices@.len(),
                colors_view(other.colors),
                other.vertices@.len(),
            ),
            final(self).is_wireframe == old(self).is_wireframe,
    {
        let base = self.vertices.len();
        let ghost old_vertices = self.vertices@;
        let ghost old_normals = self.normals@;
        let ghost old_indices = self.indices@;
        let ghost old_colors = colors_view(self.colors);
        let n = other.vertices.len();
        let mut k: usize = 0;
        while k < n
            invariant
                other.wf(),
                n == other.vertices@.len(),
                k <= n,
                self.vertices@ == old_vertices + other.vertices@.take(k as int),
                self.normals@ == old_normals + other.normals@.take(k as int),
                self.indices@ == old_indices,
                colors_view(self.colors) == old_colors,
                self.is_wireframe == old(self).is_wireframe,
            decreases n - k,
        {
            self.vertices.push(other.vertices[k]);
            self.normals.push(other.normals[k]);
            proof {
                assert(other.vertices@.take(k + 1) =~= other.vertices@.take(k as int).push(other.vertices@[k as int]));
                assert(other.normals@.take(k + 1) =~= other.normals@.take(k as int).push(other.normals@[k as int]));
            }
            k += 1;
        }
        proof {
            assert(other.vertices@.take(n as int) =~= other.vertices@);
            assert(other.normals@.take(n as int) =~= other.normals@);
        }
        let total = self.vertices.len();
        let mut m: usize = 0;
        while m < other.indices.len()
            invariant
                other.wf(),
                m <= other.indices@.len(),
                total == base + n,
                total <= u32::MAX,
                n == other.vertices@.len(),
                base == old_vertices.len(),
                self.vertices@ == old_vertices + other.vertices@,
                self.normals@ == old_normals + other.normals@,
                colors_view(self.colors) == old_colors,
                self.is_wireframe == old(self).is_wireframe,
                self.vertices@.len() == total,
                self.normals@.len() == total,
                forall|x: int| 0 <= x < old_indices.len() ==> (#[trigger] old_indices[x]) < base,
                forall|x: int| 0 <= x < self.indices@.len() ==> (#[trigger] self.indices@[x]) < total,
                as_ints(self.indices@) == as_ints(old_indices) + offset(as_ints(other.indices@.take(m as int)), base as int),
            decreases other.indices@.len() - m,
        {
            let ghost prev = self.indices@;
            assert(other.indices@[m as int] < n);
            let shifted = other.indices[m] + base as u32;
            self.indices.push(shifted);
            proof {
                assert(other.indices@.take(m + 1) =~= other.indices@.take(m as int).push(other.indices@[m as int]));
                assert(shifted as int == other.indices@[m as int] as int + base as int);
                assert(as_ints(self.indices@) =~= as_ints(prev).push(shifted as int));
                assert(offset(as_ints(other.indices@.take(m + 1)), base as int) =~= offset(
                    as_ints(other.indices@.take(m as int)),
                    base as int,
                ).push(shifted as int));
                assert(as_ints(self.indices@) =~= as_ints(old_indices) + offset(as_ints(other.indices@.take(m + 1)), base as int));
                assert forall|x: int| 0 <= x < self.indices@.len() implies (#[trigger] self.indices@[x]) < total by {
                    if x < prev.len() {
                        assert(self.indices@[x] == prev[x]);
                    }
                }
            }
            m += 1;
        }
        proof {
            assert(other.indices@.take(other.indices@.len() as int) =~= other.indices@);
        }
        let joined: Option<Vec<C>> = match (&self.colors, &other.colors) {
            (Some(mine), Some(theirs)) => {
                let mut all = copy_of(mine);
                let mut rest = copy_of(theirs);
                all.append(&mut rest);
                Some(all)
            },
            (Some(mine), None) => {
                if n == 0 {
                    Some(copy_of(mine))
                } else {
                    None
                }
            },
            (None, Some(theirs)) => {
                if base == 0 {
                    Some(copy_of(theirs))
                } else {
                    None
                }
            },
            (None, None) => None,
        };
        self.colors = joined;
    }

    /// Gives every vertex the color `color`.
    pub fn set_uniform_color(&mut self, color: C)
        requires
            old(self).wf(),
        ensures
            final(self).wf(),
            final(self).vertices@ == old(self).vertices@,
            final(self).normals@ == old(self).normals@,
            final(self).indices@ == old(self).indices@,
            final(self).is_wireframe == old(self).is_wireframe,
            colors_view(final(self).colors) == Some(Seq::new(old(self).vertices@.len(), |k: int| color)),
    {
        let mut colors: Vec<C> = Vec::new();
        let mut k: usize = 0;
        while k < self.vertices.len()
            invariant
                k <= self.vertices@.len(),
                colors@ == Seq::new(k as nat, |x: int| color),
            decreases self.vertices@.len() - k,
        {
            colors.push(color);
            proof {
                assert(colors@ =~= Seq::new((k + 1) as nat, |x: int| color));
            }
            k += 1;
        }
        self.colors = Some(colors);
    }
}

} // verus!
