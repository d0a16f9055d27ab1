//! Secondary-structure assignment and ribbon mesh topology for protein
//! backbones.
//!
//! The classification pipeline works on residue indices and hydrogen bonds;
//! the mesh side builds triangle indices over rings of vertices whose
//! coordinates are supplied by the caller.

pub mod hbond;
pub mod helix;
pub mod laws;
pub mod mesh;
pub mod ribbon;
pub mod runs;
pub mod secondary;
pub mod strand;
pub mod structure;
pub mod viewer_core;

pub use hbond::{bond_exists, eligible_donors, find_hydrogen_bonds, HydrogenBond};
pub use laws::{
    lemma_antiparallel_strands_make_sheet, lemma_four_turns_make_helix,
    lemma_labels_depend_on_bond_set, lemma_ribbon_mesh_is_determined,
};
pub use mesh::MeshData;
pub use ribbon::{
    arrow_progress, extrude_ribbon, ribbon_segments, sampled_path_len, RibbonSegment, SectionKind, SegmentRings,
};
pub use secondary::SecondaryStructureCalculator;
pub use structure::{Interaction, ParserOptions, SecondaryStructure, ShapeKind};
pub use viewer_core::CosViewerCore;
