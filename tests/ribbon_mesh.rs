use cosmol_ribbon::{
    arrow_progress, extrude_ribbon, ribbon_segments, sampled_path_len, MeshData, RibbonSegment, SecondaryStructure,
    SecondaryStructureCalculator, SectionKind, SegmentRings,
};

type Point = [f32; 3];
type Rgba = [f32; 4];

/// `n_pts` rings of `n_ring` points; point `r` of ring `i` is tagged by its
/// place so that tests can follow it.
fn rings(n_pts: usize, n_ring: usize) -> Vec<Point> {
    let mut out = Vec::new();
    for i in 0..n_pts {
        for r in 0..n_ring {
            out.push([i as f32, r as f32, 0.0]);
        }
    }
    out
}

fn segment(n_pts: usize, n_ring: usize, front: bool, back: bool) -> SegmentRings<Point> {
    let positions = rings(n_pts, n_ring);
    SegmentRings {
        normals: positions.clone(),
        positions,
        n_pts,
        n_ring,
        cap_front: if front { Some(vec![false; n_ring - 2]) } else { None },
        cap_back: if back { Some(vec![true; n_ring - 2]) } else { None },
    }
}

fn assert_well_formed(mesh: &MeshData<Point, Rgba>) {
    assert_eq!(mesh.vertices.len(), mesh.normals.len());
    assert!(mesh.indices.iter().all(|&i| (i as usize) < mesh.vertices.len()));
    assert_eq!(mesh.indices.len() % 3, 0);
    if let Some(colors) = &mesh.colors {
        assert_eq!(colors.len(), mesh.vertices.len());
    }
}

#[test]
fn empty_mesh() {
    let mesh: MeshData<Point, Rgba> = MeshData::new();
    assert!(mesh.vertices.is_empty() && mesh.indices.is_empty() && mesh.colors.is_none());
    let mesh: MeshData<Point, Rgba> = MeshData::default();
    assert!(mesh.vertices.is_empty() && !mesh.is_wireframe);
}

#[test]
fn one_segment_strip_and_caps() {
    let mut mesh: MeshData<Point, Rgba> = MeshData::new();
    let positions = rings(2, 3);
    mesh.extrude_one_segment(&positions, &positions, 2, 3, &Some(vec![false]), &Some(vec![true]));
    assert_eq!(mesh.vertices, positions);
    assert_eq!(
        mesh.indices,
        vec![
            0, 1, 3, 1, 4, 3, // ring point 0
            1, 2, 4, 2, 5, 4, // ring point 1
            2, 0, 5, 0, 3, 5, // ring point 2 wraps to 0
            0, 1, 2, // front cap
            3, 5, 4, // back cap, reversed
        ]
    );
    assert_well_formed(&mesh);
}

#[test]
fn segment_indices_follow_existing_vertices() {
    let mut mesh: MeshData<Point, Rgba> = MeshData::new();
    let first = rings(1, 4);
    mesh.extrude_one_segment(&first, &first, 1, 4, &None, &None);
    assert!(mesh.indices.is_empty());
    let second = rings(2, 4);
    mesh.extrude_one_segment(&second, &second, 2, 4, &None, &None);
    assert_eq!(mesh.vertices.len(), 12);
    assert_eq!(&mesh.indices[0..6], &[4, 5, 8, 5, 9, 8]);
    assert_eq!(mesh.indices.len(), 4 * 6);
    assert_well_formed(&mesh);
}

#[test]
fn append_shifts_indices_and_joins_colors() {
    let mut a: MeshData<Point, Rgba> = MeshData::new();
    let pa = rings(2, 3);
    a.extrude_one_segment(&pa, &pa, 2, 3, &None, &None);
    a.set_uniform_color([1.0, 1.0, 1.0, 1.0]);
    let mut b: MeshData<Point, Rgba> = MeshData::new();
    let pb = rings(1, 3);
    b.extrude_one_segment(&pb, &pb, 1, 3, &Some(vec![false]), &None);
    b.set_uniform_color([0.0, 0.0, 0.0, 1.0]);
    let a_indices = a.indices.clone();
    a.append(&b);
    assert_eq!(a.vertices.len(), 9);
    assert_eq!(&a.indices[..a_indices.len()], &a_indices[..]);
    assert_eq!(&a.indices[a_indices.len()..], &[6, 7, 8]);
    let colors = a.colors.clone().unwrap();
    assert_eq!(colors.len(), 9);
    assert_eq!(colors[5], [1.0, 1.0, 1.0, 1.0]);
    assert_eq!(colors[6], [0.0, 0.0, 0.0, 1.0]);
    assert_well_formed(&a);
}

#[test]
fn append_into_empty_takes_colors() {
    let mut all: MeshData<Point, Rgba> = MeshData::new();
    let mut b: MeshData<Point, Rgba> = MeshData::new();
    let pb = rings(2, 3);
    b.extrude_one_segment(&pb, &pb, 2, 3, &None, &None);
    b.set_uniform_color([1.0, 1.0, 1.0, 1.0]);
    all.append(&b);
    assert_eq!(all.indices, b.indices);
    assert_eq!(all.colors, b.colors);
}

#[test]
fn append_drops_partial_colors() {
    let mut a: MeshData<Point, Rgba> = MeshData::new();
    let pa = rings(1, 3);
    a.extrude_one_segment(&pa, &pa, 1, 3, &None, &None);
    a.set_uniform_color([1.0, 1.0, 1.0, 1.0]);
    let mut b: MeshData<Point, Rgba> = MeshData::new();
    b.extrude_one_segment(&pa, &pa, 1, 3, &None, &None);
    a.append(&b);
    assert!(a.colors.is_none());
    assert_well_formed(&a);
}

#[test]
fn uniform_color_covers_every_vertex() {
    let mut mesh: MeshData<Point, Rgba> = MeshData::new();
    let p = rings(3, 5);
    mesh.extrude_one_segment(&p, &p, 3, 5, &None, &None);
    mesh.set_uniform_color([1.0, 1.0, 1.0, 1.0]);
    assert_eq!(mesh.colors, Some(vec![[1.0, 1.0, 1.0, 1.0]; 15]));
}

#[test]
fn path_lengths() {
    assert_eq!(sampled_path_len(0, 5), 0);
    assert_eq!(sampled_path_len(1, 5), 1);
    assert_eq!(sampled_path_len(2, 5), 6);
    assert_eq!(sampled_path_len(10, 5), 46);
}

#[test]
fn sections_by_label() {
    assert_eq!(SectionKind::for_structure(SecondaryStructure::Helix), SectionKind::Helix);
    assert_eq!(SectionKind::for_structure(SecondaryStructure::Sheet), SectionKind::Sheet);
    assert_eq!(SectionKind::for_structure(SecondaryStructure::Coil), SectionKind::Coil);
    assert_eq!(SectionKind::for_structure(SecondaryStructure::Turn), SectionKind::Coil);
    assert_eq!(SectionKind::for_structure(SecondaryStructure::Unknown), SectionKind::Coil);
}

#[test]
fn segments_of_ten_residues() {
    let labels = vec![SecondaryStructure::Coil; 10];
    let segments = ribbon_segments(&labels, 10, 5);
    assert_eq!(segments.len(), 10);
    for (s, seg) in segments.iter().enumerate().take(9) {
        assert_eq!(seg.start, 5 * s);
        assert_eq!(seg.end, 5 * s + 6);
        assert_eq!(seg.section, SectionKind::Coil);
    }
    assert_eq!(
        segments[9],
        RibbonSegment { start: 45, end: 46, section: SectionKind::Coil, cap_front: false, cap_back: true }
    );
    assert!(segments[0].cap_front && !segments[0].cap_back);
    assert!(segments[1..].iter().all(|s| !s.cap_front));
}

#[test]
fn fewer_labels_than_points_extend_last_segment() {
    let labels = vec![SecondaryStructure::Helix, SecondaryStructure::Sheet];
    let segments = ribbon_segments(&labels, 4, 5);
    assert_eq!(
        segments,
        vec![
            RibbonSegment { start: 0, end: 6, section: SectionKind::Helix, cap_front: true, cap_back: false },
            RibbonSegment { start: 5, end: 16, section: SectionKind::Sheet, cap_front: false, cap_back: true },
        ]
    );
}

#[test]
fn more_labels_than_points_stop_at_path_end() {
    let labels = vec![SecondaryStructure::Coil; 5];
    let segments = ribbon_segments(&labels, 2, 5);
    assert_eq!(segments.len(), 2);
    assert_eq!((segments[1].start, segments[1].end), (5, 6));
}

#[test]
fn single_residue_chain_adds_nothing() {
    let labels = vec![SecondaryStructure::Coil];
    assert!(ribbon_segments(&labels, 1, 5).is_empty());
    assert!(ribbon_segments(&vec![], 0, 5).is_empty());
    let mesh: MeshData<Point, Rgba> = extrude_ribbon(&vec![]);
    assert!(mesh.vertices.is_empty() && mesh.indices.is_empty());
    let mut all: MeshData<Point, Rgba> = MeshData::new();
    all.append(&mesh);
    assert!(all.vertices.is_empty() && all.indices.is_empty());
}

/// Ten residues on a straight line, with no bonds: all Coil, and a thin tube
/// of 55 rings capped at both ends.
#[test]
fn straight_ten_residue_chain() {
    let calc = SecondaryStructureCalculator::new();
    let labels = calc.compute_secondary_structure(10, &vec![]);
    assert_eq!(labels, vec![SecondaryStructure::Coil; 10]);
    let plan = ribbon_segments(&labels, 10, 5);
    let n_ring = 32;
    let segments: Vec<SegmentRings<Point>> = plan
        .iter()
        .map(|seg| segment(seg.end - seg.start, n_ring, seg.cap_front, seg.cap_back))
        .collect();
    let mesh: MeshData<Point, Rgba> = extrude_ribbon(&segments);
    let rings_total: usize = plan.iter().map(|s| s.end - s.start).sum();
    assert_eq!(rings_total, 55);
    assert_eq!(mesh.vertices.len(), 55 * n_ring);
    let strips = 9 * 5 * n_ring * 6;
    let caps = 2 * (n_ring - 2) * 3;
    assert_eq!(mesh.indices.len(), strips + caps);
    assert!(!mesh.indices.is_empty());
    // Front cap round the first vertex, back cap round the last ring.
    let first_seg_strip = 5 * n_ring * 6;
    assert_eq!(&mesh.indices[first_seg_strip..first_seg_strip + 3], &[0, 1, 2]);
    let last_ring = (55 - 1) * n_ring;
    let tail = &mesh.indices[mesh.indices.len() - (n_ring - 2) * 3..];
    assert_eq!(&tail[..3], &[last_ring as u32, last_ring as u32 + 2, last_ring as u32 + 1]);
    assert_well_formed(&mesh);
}

#[test]
fn extrusion_is_repeatable() {
    let labels = vec![SecondaryStructure::Helix; 4];
    let plan = ribbon_segments(&labels, 4, 5);
    let segments: Vec<SegmentRings<Point>> = plan
        .iter()
        .map(|seg| segment(seg.end - seg.start, 8, seg.cap_front, seg.cap_back))
        .collect();
    let a: MeshData<Point, Rgba> = extrude_ribbon(&segments);
    let b: MeshData<Point, Rgba> = extrude_ribbon(&segments);
    assert_eq!(a.vertices, b.vertices);
    assert_eq!(a.normals, b.normals);
    assert_eq!(a.indices, b.indices);
}

#[test]
fn arrow_grows_over_second_half_of_sheet() {
    let progress: Vec<(usize, usize)> = (0..6).map(|i| arrow_progress(SectionKind::Sheet, i, 6)).collect();
    assert_eq!(progress, vec![(0, 5), (0, 5), (0, 5), (1, 5), (3, 5), (5, 5)]);
    assert_eq!(arrow_progress(SectionKind::Sheet, 0, 1), (0, 1));
    assert_eq!(arrow_progress(SectionKind::Helix, 5, 6), (0, 1));
    assert_eq!(arrow_progress(SectionKind::Coil, 3, 6), (0, 1));
}
