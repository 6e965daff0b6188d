use gasteiger::{GasteigerSolver, SimpleAtom, SimpleBond};

const UNIT: i64 = 1_000_000;

fn atom(element: usize, formal_charge: i64) -> SimpleAtom {
    SimpleAtom { atomic_number: element, formal_charge }
}

fn bond(i: usize, j: usize, order: i64) -> SimpleBond {
    SimpleBond { atom_indices: (i, j), bond_order: order }
}

fn to_units(steps: i128) -> f64 {
    steps as f64 / UNIT as f64
}

fn total_units(charges: &[i128]) -> f64 {
    charges.iter().map(|&q| to_units(q)).sum()
}

fn print_charges(names: &[&str], charges: &[i128]) {
    println!("{:<5} {:<10} {:<15}", "Idx", "Element", "Partial Charge");
    for (i, (name, &charge)) in names.iter().zip(charges.iter()).enumerate() {
        println!("{:<5} {:<10} {:<15.6}", i, name, to_units(charge));
    }
    println!("Total Charge: {:.6}", total_units(charges));
}

#[test]
fn test_triple_bonds() {
    let solver = GasteigerSolver::default();

    // 1. Acetylene (HC#CH)
    let atoms_ace = vec![atom(6, 0), atom(6, 0), atom(1, 0), atom(1, 0)];
    let bonds_ace = vec![bond(0, 1, 3 * UNIT), bond(0, 2, UNIT), bond(1, 3, UNIT)];
    let charges_ace = solver.compute_charges(&atoms_ace, &bonds_ace);
    println!("\n--- Acetylene (HC#CH) ---");
    print_charges(&["C1", "C2", "H1", "H2"], &charges_ace);
    assert!(total_units(&charges_ace).abs() < 1e-6);

    // 2. Acetonitrile (CH3-C#N)
    let atoms_nit = vec![atom(6, 0), atom(6, 0), atom(7, 0), atom(1, 0), atom(1, 0), atom(1, 0)];
    let bonds_nit = vec![
        bond(0, 1, UNIT),
        bond(1, 2, 3 * UNIT),
        bond(0, 3, UNIT),
        bond(0, 4, UNIT),
        bond(0, 5, UNIT),
    ];
    let charges_nit = solver.compute_charges(&atoms_nit, &bonds_nit);
    println!("\n--- Acetonitrile (CH3-CN) ---");
    print_charges(&["C_me", "C_cn", "N", "H1", "H2", "H3"], &charges_nit);
    assert!(total_units(&charges_nit).abs() < 1e-6);
}

#[test]
fn test_ethene_and_benzene() {
    let solver = GasteigerSolver::default();

    let atoms_ethene = vec![atom(6, 0), atom(6, 0), atom(1, 0), atom(1, 0), atom(1, 0), atom(1, 0)];
    let bonds_ethene = vec![
        bond(0, 1, 2 * UNIT),
        bond(0, 2, UNIT),
        bond(0, 3, UNIT),
        bond(1, 4, UNIT),
        bond(1, 5, UNIT),
    ];
    let charges_ethene = solver.compute_charges(&atoms_ethene, &bonds_ethene);
    println!("\n--- Ethene (CH2=CH2) ---");
    print_charges(&["C1", "C2", "H1", "H2", "H3", "H4"], &charges_ethene);
    assert!(total_units(&charges_ethene).abs() < 1e-6);

    let mut atoms_benzene = Vec::new();
    for _ in 0..6 {
        atoms_benzene.push(atom(6, 0));
    }
    for _ in 0..6 {
        atoms_benzene.push(atom(1, 0));
    }
    let mut bonds_benzene = Vec::new();
    for i in 0..6 {
        bonds_benzene.push(bond(i, (i + 1) % 6, UNIT + UNIT / 2));
        bonds_benzene.push(bond(i, i + 6, UNIT));
    }
    let charges_benzene = solver.compute_charges(&atoms_benzene, &bonds_benzene);
    println!("\n--- Benzene (C6H6) ---");
    let names = ["C", "C", "C", "C", "C", "C", "H", "H", "H", "H", "H", "H"];
    print_charges(&names, &charges_benzene);
    assert!(total_units(&charges_benzene).abs() < 1e-6);
}

#[test]
fn test_sulfur_compounds() {
    let solver = GasteigerSolver::default();
    let atoms = vec![atom(16, 0), atom(6, 0), atom(6, 0)];
    let bonds = vec![bond(0, 1, UNIT), bond(0, 2, UNIT)];
    let charges = solver.compute_charges(&atoms, &bonds);
    println!("\n--- Dimethyl Sulfide (CH3-S-CH3) ---");
    print_charges(&["S", "C1", "C2"], &charges);

    let atoms_thio = vec![atom(16, 0), atom(6, 0)];
    let bonds_thio = vec![bond(0, 1, 2 * UNIT)];
    let charges_thio = solver.compute_charges(&atoms_thio, &bonds_thio);
    println!("\n--- Thioformaldehyde (CH2=S) ---");
    print_charges(&["S", "C"], &charges_thio);
    assert!(charges_thio[0] < 0);
}

#[test]
fn test_unknown_element_handling() {
    let atoms = vec![atom(6, 0), atom(1, 0), atom(46, 0)];
    let bonds = vec![bond(0, 1, UNIT), bond(0, 2, UNIT)];
    let solver = GasteigerSolver::default();
    let charges = solver.compute_charges(&atoms, &bonds);
    println!("\n--- Unknown Element Test (C-H + C-Pd) ---");
    print_charges(&["C", "H1", "Pd"], &charges);
    assert!(to_units(charges[2]).abs() < 1e-10);
}

#[test]
fn test_methane_charges() {
    let atoms = vec![atom(6, 0), atom(1, 0), atom(1, 0), atom(1, 0), atom(1, 0)];
    let bonds = vec![bond(0, 1, UNIT), bond(0, 2, UNIT), bond(0, 3, UNIT), bond(0, 4, UNIT)];
    let solver = GasteigerSolver::default();
    let charges = solver.compute_charges(&atoms, &bonds);
    println!("\n--- Methane (CH4) ---");
    print_charges(&["C", "H1", "H2", "H3", "H4"], &charges);
    assert!(charges[0] < 0);
}

#[test]
fn test_water_charges() {
    let atoms = vec![atom(8, 0), atom(1, 0), atom(1, 0)];
    let bonds = vec![bond(0, 1, UNIT), bond(0, 2, UNIT)];
    let solver = GasteigerSolver::default();
    let charges = solver.compute_charges(&atoms, &bonds);
    println!("\n--- Water (H2O) ---");
    print_charges(&["O", "H1", "H2"], &charges);
    assert!(charges[0] < 0);
}

#[test]
fn test_multi_molecule_system() {
    let atoms = vec![
        atom(6, 0),
        atom(1, 0),
        atom(1, 0),
        atom(1, 0),
        atom(1, 0),
        atom(8, 0),
        atom(1, 0),
        atom(1, 0),
    ];
    let bonds = vec![
        bond(0, 1, UNIT),
        bond(0, 2, UNIT),
        bond(0, 3, UNIT),
        bond(0, 4, UNIT),
        bond(5, 6, UNIT),
        bond(5, 7, UNIT),
    ];
    let solver = GasteigerSolver::default();
    let charges = solver.compute_charges(&atoms, &bonds);
    println!("\n--- Multi-molecule (CH4 + H2O) ---");
    print_charges(&["C", "H1", "H2", "H3", "H4", "O", "Hw1", "Hw2"], &charges);
    let methane_sum = total_units(&charges[0..5]);
    let water_sum = total_units(&charges[5..8]);
    assert!(methane_sum.abs() < 1e-6);
    assert!(water_sum.abs() < 1e-6);
}

#[test]
fn test_ion_charge_conservation() {
    let atoms = vec![atom(7, UNIT), atom(1, 0), atom(1, 0), atom(1, 0), atom(1, 0)];
    let bonds = vec![bond(0, 1, UNIT), bond(0, 2, UNIT), bond(0, 3, UNIT), bond(0, 4, UNIT)];
    let solver = GasteigerSolver::default();
    let charges = solver.compute_charges(&atoms, &bonds);
    println!("\n--- Ammonium Ion (NH4+) ---");
    print_charges(&["N+", "H1", "H2", "H3", "H4"], &charges);
    let total_charge = total_units(&charges);
    assert!((total_charge - 1.0).abs() < 1e-6);
}
