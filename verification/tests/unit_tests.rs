use gasteiger::{get_params, GasteigerSolver, Hybridization, SimpleAtom, SimpleBond, SCALE};

fn atom(element: usize, formal_charge: i64) -> SimpleAtom {
    SimpleAtom { atomic_number: element, formal_charge }
}

fn bond(i: usize, j: usize, order: i64) -> SimpleBond {
    SimpleBond { atom_indices: (i, j), bond_order: order }
}

fn total_steps(charges: &[i128]) -> i128 {
    charges.iter().sum()
}

#[test]
fn test_default_configuration() {
    let solver = GasteigerSolver::default();
    assert_eq!(solver.iterations, 6);
    assert_eq!(solver.damping, 500_000);
    assert_eq!(SCALE, 1_000_000);
}

#[test]
fn test_parameter_table_values() {
    let hydrogen = get_params(1, Hybridization::Sp3).unwrap();
    assert_eq!((hydrogen.a, hydrogen.b, hydrogen.c), (7_170_000, 6_240_000, -560_000));

    let carbon_sp3 = get_params(6, Hybridization::Sp3).unwrap();
    assert_eq!((carbon_sp3.a, carbon_sp3.b, carbon_sp3.c), (7_980_000, 9_180_000, 1_880_000));

    let nitrogen_sp = get_params(7, Hybridization::Sp).unwrap();
    assert_eq!((nitrogen_sp.a, nitrogen_sp.b, nitrogen_sp.c), (15_680_000, 11_700_000, -270_000));

    let oxygen_sp2 = get_params(8, Hybridization::Sp2).unwrap();
    assert_eq!((oxygen_sp2.a, oxygen_sp2.b, oxygen_sp2.c), (17_070_000, 13_790_000, 470_000));

    // Elements tabulated for every hybridization answer the wildcard rows.
    let fluorine_sp = get_params(9, Hybridization::Sp).unwrap();
    let fluorine_default = get_params(9, Hybridization::Default).unwrap();
    assert_eq!(fluorine_sp.a, fluorine_default.a);
    assert_eq!(fluorine_sp.a, 14_660_000);

    // No partial match inside a single lookup.
    assert!(get_params(8, Hybridization::Sp).is_none());
    assert!(get_params(16, Hybridization::Default).is_none());
    // Untabulated elements answer nothing at all.
    assert!(get_params(46, Hybridization::Sp3).is_none());
    assert!(get_params(46, Hybridization::Default).is_none());
    assert!(get_params(0, Hybridization::Default).is_none());
}

#[test]
fn test_hybridization_degree_bands() {
    let solver = GasteigerSolver::default();
    // One central atom bonded to up to four partners; slicing the bond list
    // sets its degree.
    let bonds = vec![bond(0, 1, SCALE), bond(0, 2, SCALE), bond(0, 3, SCALE), bond(0, 4, SCALE)];
    let partners = [atom(1, 0), atom(1, 0), atom(1, 0), atom(1, 0)];

    let carbon: Vec<SimpleAtom> =
        [atom(6, 0)].iter().chain(partners.iter()).cloned().collect();
    assert_eq!(solver.guess_hybridization(0, &carbon, &bonds[0..4]), Hybridization::Sp3);
    assert_eq!(solver.guess_hybridization(0, &carbon, &bonds[0..3]), Hybridization::Sp2);
    assert_eq!(solver.guess_hybridization(0, &carbon, &bonds[0..2]), Hybridization::Sp);
    assert_eq!(solver.guess_hybridization(0, &carbon, &bonds[0..1]), Hybridization::Sp);
    assert_eq!(solver.guess_hybridization(0, &carbon, &bonds[0..0]), Hybridization::Sp);

    let nitrogen: Vec<SimpleAtom> =
        [atom(7, 0)].iter().chain(partners.iter()).cloned().collect();
    assert_eq!(solver.guess_hybridization(0, &nitrogen, &bonds[0..4]), Hybridization::Sp3);
    assert_eq!(solver.guess_hybridization(0, &nitrogen, &bonds[0..3]), Hybridization::Sp3);
    assert_eq!(solver.guess_hybridization(0, &nitrogen, &bonds[0..2]), Hybridization::Sp2);
    assert_eq!(solver.guess_hybridization(0, &nitrogen, &bonds[0..1]), Hybridization::Sp);

    let oxygen: Vec<SimpleAtom> =
        [atom(8, 0)].iter().chain(partners.iter()).cloned().collect();
    assert_eq!(solver.guess_hybridization(0, &oxygen, &bonds[0..3]), Hybridization::Sp3);
    assert_eq!(solver.guess_hybridization(0, &oxygen, &bonds[0..2]), Hybridization::Sp3);
    assert_eq!(solver.guess_hybridization(0, &oxygen, &bonds[0..1]), Hybridization::Sp2);
    assert_eq!(solver.guess_hybridization(0, &oxygen, &bonds[0..0]), Hybridization::Sp2);

    let phosphorus: Vec<SimpleAtom> =
        [atom(15, 0)].iter().chain(partners.iter()).cloned().collect();
    assert_eq!(solver.guess_hybridization(0, &phosphorus, &bonds[0..0]), Hybridization::Sp3);
    assert_eq!(solver.guess_hybridization(0, &phosphorus, &bonds[0..4]), Hybridization::Sp3);

    let sulfur: Vec<SimpleAtom> =
        [atom(16, 0)].iter().chain(partners.iter()).cloned().collect();
    assert_eq!(solver.guess_hybridization(0, &sulfur, &bonds[0..2]), Hybridization::Sp3);
    assert_eq!(solver.guess_hybridization(0, &sulfur, &bonds[0..1]), Hybridization::Sp2);

    let iron: Vec<SimpleAtom> = [atom(26, 0)].iter().chain(partners.iter()).cloned().collect();
    assert_eq!(solver.guess_hybridization(0, &iron, &bonds[0..3]), Hybridization::Default);
}

#[test]
fn test_self_bond_counts_twice() {
    // Each bond endpoint is checked on its own, so a self-bond raises the
    // degree by two: a lone carbon with one self-bond sits in the degree-2
    // band (Sp), with one more bond in the degree-3 band (Sp2).
    let solver = GasteigerSolver::default();
    let atoms = vec![atom(6, 0), atom(1, 0)];
    assert_eq!(
        solver.guess_hybridization(0, &atoms, &[bond(0, 0, SCALE)]),
        Hybridization::Sp
    );
    assert_eq!(
        solver.guess_hybridization(0, &atoms, &[bond(0, 0, SCALE), bond(0, 1, SCALE)]),
        Hybridization::Sp2
    );
    // A self-bond moves no charge: its two endpoints are equally
    // electronegative.
    let charges = solver.compute_charges(&atoms[0..1], &[bond(0, 0, SCALE)]);
    assert_eq!(charges, vec![0]);
}

#[test]
fn test_determinism_bit_identical() {
    let solver = GasteigerSolver::default();
    let atoms = vec![atom(6, 0), atom(1, 0), atom(1, 0), atom(1, 0), atom(1, 0)];
    let bonds =
        vec![bond(0, 1, SCALE), bond(0, 2, SCALE), bond(0, 3, SCALE), bond(0, 4, SCALE)];
    let first = solver.compute_charges(&atoms, &bonds);
    let second = solver.compute_charges(&atoms, &bonds);
    assert_eq!(first, second);
}

#[test]
fn test_conservation_is_exact() {
    // Fixed-point transfers are symmetric step for step, so totals are
    // conserved exactly, not merely within a tolerance.
    let solver = GasteigerSolver::default();
    let atoms = vec![atom(8, -SCALE), atom(1, 500_000), atom(1, 250_000)];
    let bonds = vec![bond(0, 1, SCALE), bond(0, 2, SCALE)];
    let charges = solver.compute_charges(&atoms, &bonds);
    assert_eq!(total_steps(&charges), (-SCALE + 500_000 + 250_000) as i128);

    let methane = vec![atom(6, 0), atom(1, 0), atom(1, 0), atom(1, 0), atom(1, 0)];
    let methane_bonds =
        vec![bond(0, 1, SCALE), bond(0, 2, SCALE), bond(0, 3, SCALE), bond(0, 4, SCALE)];
    let methane_charges = solver.compute_charges(&methane, &methane_bonds);
    assert_eq!(total_steps(&methane_charges), 0);
    // Hydrogen pulls less than carbon gives up per bond only in total:
    // every hydrogen ends positive.
    for &h in &methane_charges[1..] {
        assert!(h > 0);
    }
}

#[test]
fn test_zero_iterations_keep_seeds() {
    let solver = GasteigerSolver { iterations: 0, damping: 500_000 };
    let atoms = vec![atom(8, -SCALE), atom(1, SCALE)];
    let bonds = vec![bond(0, 1, SCALE)];
    let charges = solver.compute_charges(&atoms, &bonds);
    assert_eq!(charges, vec![-(SCALE as i128), SCALE as i128]);
}

#[test]
fn test_empty_molecule() {
    let solver = GasteigerSolver::default();
    let atoms: Vec<SimpleAtom> = Vec::new();
    let bonds: Vec<SimpleBond> = Vec::new();
    let charges = solver.compute_charges(&atoms, &bonds);
    assert!(charges.is_empty());
}

#[test]
fn test_out_of_range_bond_is_ignored() {
    let solver = GasteigerSolver::default();
    let atoms = vec![atom(6, 0), atom(1, 0)];
    // The only bond names a missing atom, so nothing moves.
    let charges = solver.compute_charges(&atoms, &[bond(0, 99, SCALE)]);
    assert_eq!(charges, vec![0, 0]);
}

#[test]
fn test_single_bond_exact_transfer() {
    // One pass over a single C-H bond, from neutral seeds. The carbon has
    // degree 1, so it sits in the Sp band: chi_C = 10_390_000 against
    // chi_H = 7_170_000. Hydrogen donates
    //   dq = 1_000_000 * (10_390_000 - 7_170_000) / (7_170_000 + 6_240_000 - 560_000)
    //      = 3_220_000_000_000 / 12_850_000 = 250_583 steps (truncated).
    let solver = GasteigerSolver { iterations: 1, damping: 500_000 };
    let atoms = vec![atom(6, 0), atom(1, 0)];
    let bonds = vec![bond(0, 1, SCALE)];
    let charges = solver.compute_charges(&atoms, &bonds);
    assert_eq!(charges, vec![-250_583, 250_583]);
}
