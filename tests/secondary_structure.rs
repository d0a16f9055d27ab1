use cosmol_ribbon::{
    bond_exists, eligible_donors, find_hydrogen_bonds, HydrogenBond, SecondaryStructure,
    SecondaryStructureCalculator,
};

use SecondaryStructure::{Coil, Helix, Sheet, Turn};

fn bond(donor: usize, acceptor: usize) -> HydrogenBond {
    HydrogenBond { donor_idx: donor, acceptor_idx: acceptor }
}

/// Bonds of an ideal alpha helix: the N-H of residue i + 4 to the C=O of i.
fn alpha_helix_bonds(n: usize) -> Vec<HydrogenBond> {
    (0..n - 4).map(|i| bond(i + 4, i)).collect()
}

/// A hairpin: residues 2 and 9, and 3 and 8, bonded to each other both ways.
fn hairpin_bonds() -> Vec<HydrogenBond> {
    vec![bond(2, 9), bond(9, 2), bond(3, 8), bond(8, 3)]
}

#[test]
fn default_lengths() {
    let calc = SecondaryStructureCalculator::default();
    assert_eq!(calc.min_helix_length, 3);
    assert_eq!(calc.min_strand_length, 2);
    let calc = SecondaryStructureCalculator::new();
    assert_eq!(calc.min_helix_length, 3);
    assert_eq!(calc.min_strand_length, 2);
}

#[test]
fn chains_below_two_residues_are_coil() {
    let calc = SecondaryStructureCalculator::new();
    assert_eq!(calc.compute_secondary_structure(0, &vec![]), vec![]);
    assert_eq!(calc.compute_secondary_structure(1, &vec![]), vec![Coil]);
}

#[test]
fn straight_chain_without_bonds_is_coil() {
    let calc = SecondaryStructureCalculator::new();
    assert_eq!(calc.compute_secondary_structure(10, &vec![]), vec![Coil; 10]);
}

#[test]
fn short_chain_without_bonds_is_turn() {
    let calc = SecondaryStructureCalculator::new();
    assert_eq!(calc.compute_secondary_structure(3, &vec![]), vec![Turn; 3]);
}

#[test]
fn ideal_alpha_helix_is_helix() {
    let calc = SecondaryStructureCalculator::new();
    let labels = calc.compute_secondary_structure(12, &alpha_helix_bonds(12));
    let mut expected = vec![Helix; 12];
    expected[0] = Turn;
    expected[11] = Turn;
    assert_eq!(labels, expected);
}

#[test]
fn helix_regions_of_ideal_helix() {
    let calc = SecondaryStructureCalculator::new();
    assert_eq!(calc.find_helices(12, &alpha_helix_bonds(12)), vec![(1, 10)]);
    assert_eq!(calc.find_helices(3, &alpha_helix_bonds(12)), vec![]);
}

#[test]
fn single_four_turn_is_no_helix() {
    let calc = SecondaryStructureCalculator::new();
    assert_eq!(calc.find_helices(10, &vec![bond(6, 2)]), vec![]);
}

#[test]
fn helix_regions_split_by_kind_and_length() {
    let calc = SecondaryStructureCalculator::new();
    let types = vec![0, 4, 4, 4, 5, 5, 3, 3, 3, 0, 4, 4, 4];
    assert_eq!(calc.collect_helix_regions(&types), vec![(1, 3), (6, 8), (10, 12)]);
    let loose = SecondaryStructureCalculator { min_helix_length: 1, min_strand_length: 2 };
    assert_eq!(loose.collect_helix_regions(&types), vec![(1, 3), (4, 5), (6, 8), (10, 12)]);
}

#[test]
fn antiparallel_hairpin_is_sheet() {
    let calc = SecondaryStructureCalculator::new();
    let labels = calc.compute_secondary_structure(12, &hairpin_bonds());
    let mut expected = vec![Sheet; 12];
    for k in [0, 1, 10, 11] {
        expected[k] = Turn;
    }
    assert_eq!(labels, expected);
}

#[test]
fn hairpin_bridges_ladder_and_strand() {
    let calc = SecondaryStructureCalculator::new();
    let bridges = calc.find_beta_bridges(12, &hairpin_bonds());
    assert_eq!(bridges, vec![(2, 9, false), (3, 8, false)]);
    let strands = calc.find_strands(&vec![((2, 3), (8, 9))]);
    assert_eq!(strands, vec![(2, 9)]);
}

#[test]
fn parallel_bridge_found() {
    let calc = SecondaryStructureCalculator::new();
    // Bonds i - 1 -> j and j -> i + 1 for i = 3, j = 8.
    let bridges = calc.find_beta_bridges(12, &vec![bond(2, 8), bond(8, 4)]);
    assert_eq!(bridges, vec![(3, 8, true)]);
}

#[test]
fn second_order_antiparallel_bridge_found() {
    let calc = SecondaryStructureCalculator::new();
    // Bonds i - 1 -> j + 1 and j - 1 -> i + 1 for i = 3, j = 8.
    let bridges = calc.find_beta_bridges(12, &vec![bond(2, 9), bond(7, 4)]);
    assert_eq!(bridges, vec![(3, 8, false)]);
}

#[test]
fn short_strands_are_dropped() {
    let calc = SecondaryStructureCalculator { min_helix_length: 3, min_strand_length: 8 };
    let strands = calc.find_strands(&vec![((2, 3), (8, 9)), ((0, 1), (4, 5))]);
    assert_eq!(strands, vec![(2, 9)]);
}

#[test]
fn helix_overrides_sheet() {
    let calc = SecondaryStructureCalculator::new();
    let labels = calc.assign_ss_labels(10, &vec![(0, 2)], &vec![(2, 6), (8, 40)]);
    assert_eq!(labels, vec![Helix, Helix, Helix, Sheet, Sheet, Sheet, Sheet, Turn, Sheet, Sheet]);
}

#[test]
fn short_coil_runs_become_turns() {
    let calc = SecondaryStructureCalculator::new();
    let mut labels = vec![Helix, Coil, Coil, Sheet, Coil, Coil, Coil, Coil, Coil, Helix, Coil];
    calc.identify_turns(&mut labels);
    assert_eq!(labels, vec![Helix, Turn, Turn, Sheet, Coil, Coil, Coil, Coil, Coil, Helix, Turn]);
}

#[test]
fn bond_order_and_repeats_do_not_matter() {
    let calc = SecondaryStructureCalculator::new();
    let mut bonds = alpha_helix_bonds(14);
    let first = calc.compute_secondary_structure(14, &bonds);
    bonds.reverse();
    bonds.push(bond(6, 2));
    bonds.push(bond(4, 0));
    let second = calc.compute_secondary_structure(14, &bonds);
    assert_eq!(first, second);
    assert_eq!(first, calc.compute_secondary_structure(14, &alpha_helix_bonds(14)));
}

#[test]
fn bond_lookup() {
    let bonds = vec![bond(4, 0), bond(5, 1)];
    assert!(bond_exists(&bonds, 5, 1));
    assert!(!bond_exists(&bonds, 1, 5));
    assert!(!bond_exists(&vec![], 0, 0));
}

#[test]
fn donors_exclude_proline_and_first_residue() {
    let donors = eligible_donors(&vec![false, false, true, false], &vec![false, false, true, false]);
    assert_eq!(donors, vec![false, true, false, true]);
    let donors = eligible_donors(&vec![false, false], &vec![true, false]);
    assert_eq!(donors, vec![true, true]);
}

#[test]
fn bonds_take_the_hydrogen_side_as_donor() {
    let donors = vec![false, true, true, true];
    let mut bonded = vec![vec![false; 4]; 4];
    bonded[0][2] = true; // acceptor 0, donor 2
    bonded[2][0] = true; // donor 0 cannot donate
    bonded[3][1] = true; // acceptor 3, donor 1
    bonded[1][2] = true; // neighbours are never tested
    let bonds = find_hydrogen_bonds(&donors, &bonded);
    assert_eq!(bonds.len(), 2);
    assert!(bonds.contains(&bond(2, 0)));
    assert!(bonds.contains(&bond(1, 3)));
}

#[test]
fn bonds_in_both_directions_are_both_kept() {
    let donors = vec![true; 3];
    let mut bonded = vec![vec![false; 3]; 3];
    bonded[0][2] = true;
    bonded[2][0] = true;
    let bonds = find_hydrogen_bonds(&donors, &bonded);
    assert_eq!(bonds.len(), 2);
    assert!(bonds.contains(&bond(2, 0)));
    assert!(bonds.contains(&bond(0, 2)));
}

/// Antiparallel strands 2..6 and 13..9 with bonds on every second pair.
#[test]
fn alternating_antiparallel_strands_are_sheet() {
    let calc = SecondaryStructureCalculator::new();
    let bonds = vec![bond(2, 13), bond(13, 2), bond(4, 11), bond(11, 4), bond(6, 9), bond(9, 6)];
    let bridges = calc.find_beta_bridges(16, &bonds);
    assert_eq!(bridges, vec![(2, 13, false), (3, 12, false), (4, 11, false), (5, 10, false), (6, 9, false)]);
    let labels = calc.compute_secondary_structure(16, &bonds);
    let mut expected = vec![Sheet; 16];
    for k in [0, 1, 14, 15] {
        expected[k] = Turn;
    }
    assert_eq!(labels, expected);
}

#[test]
fn ladder_reaches_last_residue() {
    let calc = SecondaryStructureCalculator::new();
    // The partner of residue 2 is the last residue; the antiparallel ladder
    // still steps down to residue 8.
    let bonds = vec![bond(2, 9), bond(9, 2), bond(3, 8), bond(8, 3)];
    let labels = calc.compute_secondary_structure(10, &bonds);
    let mut expected = vec![Sheet; 10];
    expected[0] = Turn;
    expected[1] = Turn;
    assert_eq!(labels, expected);
}

#[test]
fn parallel_bridge_with_last_residue() {
    let calc = SecondaryStructureCalculator::new();
    let bridges = calc.find_beta_bridges(10, &vec![bond(2, 9), bond(9, 4)]);
    assert_eq!(bridges, vec![(3, 9, true)]);
}
