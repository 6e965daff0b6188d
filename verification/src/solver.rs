use vstd::arithmetic::div_mod::{lemma_div_is_ordered, lemma_div_pos_is_pos};
use vstd::prelude::*;

use crate::parameters::{
    params_within_bounds, spec_get_params, GasteigerParams, Hybridization, SCALE,
};
use crate::traits::{GasteigerAtom, GasteigerBond};

verus! {

/// Charges whose magnitude exceeds this many steps are clamped before the
/// electronegativity polynomial is evaluated, which keeps the quadratic term
/// inside `i128`. The bound is a billion charge units, far beyond chemistry.
pub const Q_CLAMP: i128 = 1_000_000_000_000_000;

/// A single bond transfers at most this many steps of charge per pass
/// (a thousand charge units); real transfers are fractions of one unit.
pub const DQ_LIMIT: i128 = 1_000_000_000;

/// Magnitude bound on every value of the electronegativity polynomial.
pub const CHI_LIMIT: i128 = 40_000_000_000_000_000_000_000_000;

/// Magnitude bound on the per-pass charge movement of one atom: every bond
/// list is shorter than `u64::MAX`, and each bond moves at most [`DQ_LIMIT`].
pub const DELTA_SPAN: i128 = 18_446_744_073_709_551_615 * DQ_LIMIT;

/// Magnitude bound on the seeded charges (the `i64` range).
pub const SEED_SPAN: i128 = 9_223_372_036_854_775_808;

/// Magnitude bound on every charge after `passes` passes.
pub open spec fn charge_bound(passes: int) -> int {
    SEED_SPAN + passes * DELTA_SPAN
}

/// The pair (atomic number, formal charge) of each atom, read off through
/// the [`GasteigerAtom`] capability.
pub open spec fn atoms_view<A: GasteigerAtom>(atoms: Seq<A>) -> Seq<(usize, i64)> {
    atoms.map_values(|a: A| (a.spec_atomic_number(), a.spec_formal_charge()))
}

/// The endpoint pair of each bond, read off through the [`GasteigerBond`]
/// capability. Bond orders play no part in the transfer rule.
pub open spec fn bonds_view<B: GasteigerBond>(bonds: Seq<B>) -> Seq<(usize, usize)> {
    bonds.map_values(|b: B| b.spec_atom_indices())
}

/// The mathematical value of each stored charge.
pub open spec fn charges_int(charges: Seq<i128>) -> Seq<int> {
    charges.map_values(|q: i128| q as int)
}

/// The starting charge vector: each atom's formal charge.
pub open spec fn seed_charges(atoms: Seq<(usize, i64)>) -> Seq<int> {
    atoms.map_values(|a: (usize, i64)| a.1 as int)
}

/// How many endpoints of `bond` name `atom_idx`. Each endpoint is checked
/// on its own, so a self-bond counts twice.
pub open spec fn incidences(bond: (usize, usize), atom_idx: int) -> int {
    (if bond.0 == atom_idx {
        1int
    } else {
        0int
    }) + (if bond.1 == atom_idx {
        1int
    } else {
        0int
    })
}

/// Endpoints naming `atom_idx` among the first `k` bonds.
pub open spec fn degree_upto(bonds: Seq<(usize, usize)>, atom_idx: int, k: int) -> int
    decreases k,
{
    if k <= 0 {
        0
    } else {
        degree_upto(bonds, atom_idx, k - 1) + incidences(bonds[k - 1], atom_idx)
    }
}

/// The bond degree of one atom: endpoints naming it over the whole bond list.
pub open spec fn bond_degree(bonds: Seq<(usize, usize)>, atom_idx: int) -> int {
    degree_upto(bonds, atom_idx, bonds.len() as int)
}

/// The element-specific degree bands that map a bond degree to a coarse
/// hybridization class.
pub open spec fn hybridization_for(atomic_number: usize, degree: int) -> Hybridization {
    match atomic_number {
        6usize => if degree >= 4 {
            Hybridization::Sp3
        } else if degree == 3 {
            Hybridization::Sp2
        } else {
            Hybridization::Sp
        },
        7usize => if degree >= 3 {
            Hybridization::Sp3
        } else if degree == 2 {
            Hybridization::Sp2
        } else {
            Hybridization::Sp
        },
        8usize => if degree >= 2 {
            Hybridization::Sp3
        } else {
            Hybridization::Sp2
        },
        15usize => Hybridization::Sp3,
        16usize => if degree >= 2 {
            Hybridization::Sp3
        } else {
            Hybridization::Sp2
        },
        _ => Hybridization::Default,
    }
}

/// The three-step fallback chain of the parameter lookup: the estimated
/// hybridization first, then `Sp3`, then `Default`.
pub open spec fn resolve_params(atomic_number: usize, degree: int) -> Option<GasteigerParams> {
    let estimated = spec_get_params(atomic_number, hybridization_for(atomic_number, degree));
    if estimated is Some {
        estimated
    } else {
        let sp3 = spec_get_params(atomic_number, Hybridization::Sp3);
        if sp3 is Some {
            sp3
        } else {
            spec_get_params(atomic_number, Hybridization::Default)
        }
    }
}

/// The parameters resolved once, before iterating, for every atom.
pub open spec fn resolved_params(atoms: Seq<(usize, i64)>, bonds: Seq<(usize, usize)>) -> Seq<
    Option<GasteigerParams>,
> {
    Seq::new(atoms.len(), |i: int| resolve_params(atoms[i].0, bond_degree(bonds, i)))
}

/// A charge clamped into the working range of the polynomial.
pub open spec fn clamp_charge(q: int) -> int {
    if q < -(Q_CLAMP as int) {
        -(Q_CLAMP as int)
    } else if q > Q_CLAMP as int {
        Q_CLAMP as int
    } else {
        q
    }
}

/// Division truncating toward zero, the meaning of `/` on the signed
/// fixed-point values; zero where the divisor is not positive.
pub open spec fn div_trunc(n: int, d: int) -> int {
    if d <= 0 {
        0
    } else if n >= 0 {
        n / d
    } else {
        -((-n) / d)
    }
}

/// The electronegativity of an atom with parameters `p` at charge `q`, in
/// fixed point: a + b*q + c*q^2, each term scaled back by [`SCALE`].
pub open spec fn chi(p: GasteigerParams, q: int) -> int {
    let qc = clamp_charge(q);
    p.a + div_trunc(p.b * qc, SCALE as int) + div_trunc(p.c * qc * qc, (SCALE * SCALE) as int)
}

/// Charge pulled out of the atom with parameters `p_from` (the donor, whose
/// electronegativity `chi_from` is the lower) by its partner at `chi_to`:
/// the damped difference, normalized by the donor's electronegativity at
/// full positive ionization, truncated, and capped at [`DQ_LIMIT`].
pub open spec fn transfer_amount(p_from: GasteigerParams, chi_from: int, chi_to: int, factor: int) -> int {
    let raw = div_trunc(factor * (chi_to - chi_from), chi(p_from, SCALE as int));
    if raw < 0 {
        0
    } else if raw > DQ_LIMIT as int {
        DQ_LIMIT as int
    } else {
        raw
    }
}

/// Whether a bond takes part in a pass: both endpoints in range and both
/// atoms carrying resolved parameters.
pub open spec fn bond_applies(
    charges: Seq<int>,
    params: Seq<Option<GasteigerParams>>,
    bond: (usize, usize),
) -> bool {
    bond.0 < charges.len() && bond.1 < charges.len() && params[bond.0 as int] is Some
        && params[bond.1 as int] is Some
}

/// One bond's contribution to the delta vector of a pass: the donor gains
/// the transferred amount, its partner loses it; an inert or out-of-range
/// bond, or one whose endpoints are equally electronegative, moves nothing.
pub open spec fn bond_delta(
    charges: Seq<int>,
    params: Seq<Option<GasteigerParams>>,
    delta: Seq<int>,
    bond: (usize, usize),
    factor: int,
) -> Seq<int> {
    if bond_applies(charges, params, bond) {
        let i = bond.0 as int;
        let j = bond.1 as int;
        match (params[i], params[j]) {
            (Some(p_i), Some(p_j)) => {
                let chi_i = chi(p_i, charges[i]);
                let chi_j = chi(p_j, charges[j]);
                if chi_j > chi_i {
                    let dq = transfer_amount(p_i, chi_i, chi_j, factor);
                    let once = delta.update(i, delta[i] + dq);
                    once.update(j, once[j] - dq)
                } else if chi_i > chi_j {
                    let dq = transfer_amount(p_j, chi_j, chi_i, factor);
                    let once = delta.update(j, delta[j] + dq);
                    once.update(i, once[i] - dq)
                } else {
                    delta
                }
            },
            _ => delta,
        }
    } else {
        delta
    }
}

/// The all-zero delta vector a pass starts from.
pub open spec fn zero_delta(n: nat) -> Seq<int> {
    Seq::new(n, |i: int| 0int)
}

/// The delta vector after the first `k` bonds of a pass. Every bond reads
/// the same pre-pass charges.
pub open spec fn pass_delta_upto(
    charges: Seq<int>,
    params: Seq<Option<GasteigerParams>>,
    bonds: Seq<(usize, usize)>,
    factor: int,
    k: int,
) -> Seq<int>
    decreases k,
{
    if k <= 0 {
        zero_delta(charges.len())
    } else {
        bond_delta(
            charges,
            params,
            pass_delta_upto(charges, params, bonds, factor, k - 1),
            bonds[k - 1],
            factor,
        )
    }
}

/// The delta vector of one whole pass.
pub open spec fn pass_delta(
    charges: Seq<int>,
    params: Seq<Option<GasteigerParams>>,
    bonds: Seq<(usize, usize)>,
    factor: int,
) -> Seq<int> {
    pass_delta_upto(charges, params, bonds, factor, bonds.len() as int)
}

/// The charges after a pass: the delta vector added pointwise.
pub open spec fn add_charges(charges: Seq<int>, delta: Seq<int>) -> Seq<int> {
    Seq::new(charges.len(), |i: int| charges[i] + delta[i])
}

/// The damping factor of the next pass: attenuated by `damping` (in
/// [`SCALE`] steps) and never above one.
pub open spec fn next_factor(factor: int, damping: int) -> int {
    let attenuated = div_trunc(factor * damping, SCALE as int);
    if attenuated > SCALE as int {
        SCALE as int
    } else {
        attenuated
    }
}

/// `passes` equalization passes from the given state.
pub open spec fn equalize(
    charges: Seq<int>,
    params: Seq<Option<GasteigerParams>>,
    bonds: Seq<(usize, usize)>,
    factor: int,
    damping: int,
    passes: int,
) -> Seq<int>
    decreases passes,
{
    if passes <= 0 {
        charges
    } else {
        equalize(
            add_charges(charges, pass_delta(charges, params, bonds, factor)),
            params,
            bonds,
            next_factor(factor, damping),
            damping,
            passes - 1,
        )
    }
}

/// The whole computation: seed from formal charges, resolve parameters
/// once, then run the damped passes, the first at factor one.
pub open spec fn compute_charges_spec(
    atoms: Seq<(usize, i64)>,
    bonds: Seq<(usize, usize)>,
    iterations: int,
    damping: int,
) -> Seq<int> {
    equalize(
        seed_charges(atoms),
        resolved_params(atoms, bonds),
        bonds,
        SCALE as int,
        damping,
        iterations,
    )
}

/// A degree capped at four, the largest value the degree bands distinguish.
pub open spec fn cap4(degree: int) -> int {
    if degree > 4 {
        4
    } else {
        degree
    }
}

pub proof fn lemma_degree_upto_nonneg(bonds: Seq<(usize, usize)>, atom_idx: int, k: int)
    ensures
        degree_upto(bonds, atom_idx, k) >= 0,
    decreases k,
{
    if k > 0 {
        lemma_degree_upto_nonneg(bonds, atom_idx, k - 1);
    }
}

/// The degree bands look no higher than four, so a capped degree resolves
/// to the same hybridization class.
pub proof fn lemma_hybridization_cap(atomic_number: usize, degree: int)
    requires
        degree >= 0,
    ensures
        hybridization_for(atomic_number, cap4(degree)) == hybridization_for(atomic_number, degree),
{
}

/// Every resolved parameter triple comes from the table, so it satisfies
/// the table's bounds.
pub proof fn lemma_resolve_params_within_bounds(atomic_number: usize, degree: int)
    ensures
        resolve_params(atomic_number, degree) matches Some(p) ==> params_within_bounds(p),
{
    crate::parameters::lemma_table_within_bounds(
        atomic_number,
        hybridization_for(atomic_number, degree),
    );
    crate::parameters::lemma_table_within_bounds(atomic_number, Hybridization::Sp3);
    crate::parameters::lemma_table_within_bounds(atomic_number, Hybridization::Default);
}

/// Truncating division shrinks magnitudes: a numerator within `m` yields a
/// quotient within `m / d`.
pub proof fn lemma_div_trunc_bound(n: int, d: int, m: int)
    requires
        1 <= d,
        0 <= m,
        -m <= n <= m,
    ensures
        -(m / d) <= div_trunc(n, d) <= m / d,
{
    lemma_div_pos_is_pos(m, d);
    if n >= 0 {
        lemma_div_pos_is_pos(n, d);
        lemma_div_is_ordered(n, m, d);
    } else {
        lemma_div_pos_is_pos(-n, d);
        lemma_div_is_ordered(-n, m, d);
    }
}

/// The polynomial stays within [`CHI_LIMIT`] on bounded parameters.
pub proof fn lemma_chi_bounds(p: GasteigerParams, q: int)
    requires
        params_within_bounds(p),
    ensures
        -CHI_LIMIT < chi(p, q) < CHI_LIMIT,
{
    let qc = clamp_charge(q);
    assert(-30_000_000_000_000_000_000_000 <= p.b * qc <= 30_000_000_000_000_000_000_000)
        by (nonlinear_arith)
        requires
            -30_000_000 <= p.b <= 30_000_000,
            -1_000_000_000_000_000 <= qc <= 1_000_000_000_000_000,
    ;
    assert(-30_000_000_000_000_000_000_000 <= p.c * qc <= 30_000_000_000_000_000_000_000)
        by (nonlinear_arith)
        requires
            -30_000_000 <= p.c <= 30_000_000,
            -1_000_000_000_000_000 <= qc <= 1_000_000_000_000_000,
    ;
    assert(-30_000_000_000_000_000_000_000_000_000_000_000_000 <= p.c * qc * qc
        <= 30_000_000_000_000_000_000_000_000_000_000_000_000) by (nonlinear_arith)
        requires
            -30_000_000_000_000_000_000_000 <= p.c * qc <= 30_000_000_000_000_000_000_000,
            -1_000_000_000_000_000 <= qc <= 1_000_000_000_000_000,
    ;
    lemma_div_trunc_bound(p.b * qc, SCALE as int, 30_000_000_000_000_000_000_000);
    lemma_div_trunc_bound(
        p.c * qc * qc,
        (SCALE * SCALE) as int,
        30_000_000_000_000_000_000_000_000_000_000_000_000,
    );
}

/// At one full positive charge the polynomial is exactly `a + b + c`: the
/// scale factors cancel without truncation.
pub proof fn lemma_chi_at_unit_charge(p: GasteigerParams)
    ensures
        chi(p, SCALE as int) == p.a + p.b + p.c,
{
    assert(clamp_charge(SCALE as int) == SCALE as int);
    assert(div_trunc(p.b * (SCALE as int), SCALE as int) == p.b);
    vstd::arithmetic::mul::lemma_mul_is_associative(p.c as int, SCALE as int, SCALE as int);
    assert(div_trunc(p.c * ((SCALE * SCALE) as int), (SCALE * SCALE) as int) == p.c);
}

/// A pass's delta vector is as long as the charge vector.
pub proof fn lemma_pass_delta_upto_len(
    charges: Seq<int>,
    params: Seq<Option<GasteigerParams>>,
    bonds: Seq<(usize, usize)>,
    factor: int,
    k: int,
)
    ensures
        pass_delta_upto(charges, params, bonds, factor, k).len() == charges.len(),
    decreases k,
{
    if k > 0 {
        lemma_pass_delta_upto_len(charges, params, bonds, factor, k - 1);
    }
}

/// Updating one stored charge updates its mathematical image pointwise.
pub proof fn lemma_charges_int_update(s: Seq<i128>, i: int, v: i128)
    requires
        0 <= i < s.len(),
    ensures
        charges_int(s.update(i, v)) =~= charges_int(s).update(i, v as int),
{
}

/// The iterative Gasteiger charge solver: a fixed number of damped
/// equalization passes over fixed-point charges.
pub struct GasteigerSolver {
    /// Number of equalization passes.
    pub iterations: u32,
    /// Attenuation base in [`SCALE`] steps (`500_000` is one half): pass
    /// `t + 1` runs at factor `damping^t`, and values above one act as one.
    pub damping: u32,
}

impl Default for GasteigerSolver {
    /// Six passes at an attenuation base of one half.
    fn default() -> (solver: Self)
        ensures
            solver.iterations == 6,
            solver.damping == 500_000,
    {
        GasteigerSolver { iterations: 6, damping: 500_000 }
    }
}

impl GasteigerSolver {
    /// The electronegativity polynomial a + b*q + c*q^2 over fixed-point
    /// values, truncating each scaled term toward zero.
    pub fn calculate_electronegativity(&self, p: &GasteigerParams, q: i128) -> (x: i128)
        requires
            params_within_bounds(*p),
        ensures
            x == chi(*p, q as int),
            -CHI_LIMIT < x < CHI_LIMIT,
    {
        let qc: i128 = if q < -Q_CLAMP {
            -Q_CLAMP
        } else if q > Q_CLAMP {
            Q_CLAMP
        } else {
            q
        };
        proof {
            lemma_chi_bounds(*p, q as int);
            assert(qc as int == clamp_charge(q as int));
            assert(-30_000_000_000_000_000_000_000 <= (p.b as int) * (qc as int)
                <= 30_000_000_000_000_000_000_000) by (nonlinear_arith)
                requires
                    -30_000_000 <= p.b <= 30_000_000,
                    -1_000_000_000_000_000 <= qc <= 1_000_000_000_000_000,
            ;
            assert(-30_000_000_000_000_000_000_000 <= (p.c as int) * (qc as int)
                <= 30_000_000_000_000_000_000_000) by (nonlinear_arith)
                requires
                    -30_000_000 <= p.c <= 30_000_000,
                    -1_000_000_000_000_000 <= qc <= 1_000_000_000_000_000,
            ;
            assert(-30_000_000_000_000_000_000_000_000_000_000_000_000 <= (p.c as int) * (qc as int)
                * (qc as int) <= 30_000_000_000_000_000_000_000_000_000_000_000_000)
                by (nonlinear_arith)
                requires
                    -30_000_000_000_000_000_000_000 <= (p.c as int) * (qc as int)
                        <= 30_000_000_000_000_000_000_000,
                    -1_000_000_000_000_000 <= qc <= 1_000_000_000_000_000,
            ;
            lemma_div_trunc_bound(
                (p.b as int) * (qc as int),
                SCALE as int,
                30_000_000_000_000_000_000_000,
            );
            lemma_div_trunc_bound(
                (p.c as int) * (qc as int) * (qc as int),
                (SCALE * SCALE) as int,
                30_000_000_000_000_000_000_000_000_000_000_000_000,
            );
        }
        let linear: i128 = (p.b as i128) * qc / (SCALE as i128);
        let quadratic: i128 = (p.c as i128) * qc * qc / ((SCALE as i128) * (SCALE as i128));
        (p.a as i128) + linear + quadratic
    }

    /// The coarse hybridization class of one atom, from its element and its
    /// bond degree, by the bands of [`hybridization_for`]. Each bond
    /// endpoint is checked on its own, so a self-bond raises the degree by
    /// two.
    pub fn guess_hybridization<A, B>(&self, atom_idx: usize, atoms: &[A], bonds: &[B]) -> (h:
        Hybridization) where A: GasteigerAtom, B: GasteigerBond
        requires
            atom_idx < atoms@.len(),
        ensures
            h == hybridization_for(
                atoms@[atom_idx as int].spec_atomic_number(),
                bond_degree(bonds_view(bonds@), atom_idx as int),
            ),
    {
        let atomic_number = atoms[atom_idx].atomic_number();
        let ghost bv = bonds_view(bonds@);
        let mut neighbor_count: usize = 0;
        let n_bonds = bonds.len();
        for k in 0..n_bonds
            invariant
                n_bonds == bonds@.len(),
                bv == bonds_view(bonds@),
                neighbor_count as int == cap4(degree_upto(bv, atom_idx as int, k as int)),
        {
            proof {
                lemma_degree_upto_nonneg(bv, atom_idx as int, k as int);
            }
            let (bi, bj) = bonds[k].atom_indices();
            let mut incident: usize = 0;
            if bi == atom_idx {
                incident = incident + 1;
            }
            if bj == atom_idx {
                incident = incident + 1;
            }
            neighbor_count = neighbor_count + incident;
            if neighbor_count > 4 {
                neighbor_count = 4;
            }
        }
        proof {
            lemma_degree_upto_nonneg(bv, atom_idx as int, bv.len() as int);
            lemma_hybridization_cap(atomic_number, bond_degree(bv, atom_idx as int));
        }
        match atomic_number {
            6 => if neighbor_count >= 4 {
                Hybridization::Sp3
            } else if neighbor_count == 3 {
                Hybridization::Sp2
            } else {
                Hybridization::Sp
            },
            7 => if neighbor_count >= 3 {
                Hybridization::Sp3
            } else if neighbor_count == 2 {
                Hybridization::Sp2
            } else {
                Hybridization::Sp
            },
            8 => if neighbor_count >= 2 {
                Hybridization::Sp3
            } else {
                Hybridization::Sp2
            },
            15 => Hybridization::Sp3,
            16 => if neighbor_count >= 2 {
                Hybridization::Sp3
            } else {
                Hybridization::Sp2
            },
            _ => Hybridization::Default,
        }
    }

    /// One partial charge per atom, in fixed-point steps: the formal
    /// charges equalized along the bonds by [`compute_charges_spec`].
    ///
    /// The result is pinned to a function of the two input views and the
    /// solver's two settings alone, so repeated calls on equal inputs
    /// return equal vectors. Every input is accepted: unparameterized
    /// atoms keep their seeded charge, and bonds with an out-of-range
    /// endpoint move nothing.
    pub fn compute_charges<A, B>(&self, atoms: &[A], bonds: &[B]) -> (charges: Vec<i128>) where
        A: GasteigerAtom,
        B: GasteigerBond,

        ensures
            charges@.len() == atoms@.len(),
            charges_int(charges@) == compute_charges_spec(
                atoms_view(atoms@),
                bonds_view(bonds@),
                self.iterations as int,
                self.damping as int,
            ),
    {
        let iterations = self.iterations;
        let damping = self.damping;
        let n_atoms = atoms.len();
        let ghost av = atoms_view(atoms@);
        let ghost bv = bonds_view(bonds@);
        let ghost goal = compute_charges_spec(av, bv, iterations as int, damping as int);

        let mut charges: Vec<i128> = Vec::new();
        for i in 0..n_atoms
            invariant
                n_atoms == atoms@.len(),
                av == atoms_view(atoms@),
                charges@.len() == i as int,
                forall|k: int| 0 <= k < i ==> charges@[k] as int == seed_charges(av)[k],
                forall|k: int|
                    0 <= k < i ==> -charge_bound(0) <= (#[trigger] charges@[k]) as int <= charge_bound(0),
        {
            charges.push(atoms[i].formal_charge() as i128);
        }

        let mut atom_params: Vec<Option<GasteigerParams>> = Vec::new();
        for i in 0..n_atoms
            invariant
                n_atoms == atoms@.len(),
                av == atoms_view(atoms@),
                bv == bonds_view(bonds@),
                atom_params@.len() == i as int,
                forall|k: int| 0 <= k < i ==> atom_params@[k] == resolved_params(av, bv)[k],
        {
            let hybrid = self.guess_hybridization(i, atoms, bonds);
            let z = atoms[i].atomic_number();
            let params = match crate::parameters::get_params(z, hybrid) {
                Some(p) => Some(p),
                None => match crate::parameters::get_params(z, Hybridization::Sp3) {
                    Some(p) => Some(p),
                    None => crate::parameters::get_params(z, Hybridization::Default),
                },
            };
            atom_params.push(params);
        }
        let ghost params_seq = resolved_params(av, bv);
        proof {
            assert(atom_params@ =~= params_seq);
            assert forall|k: int|
                0 <= k < params_seq.len() implies (#[trigger] params_seq[k] matches Some(p)
                ==> params_within_bounds(p)) by {
                lemma_resolve_params_within_bounds(av[k].0, bond_degree(bv, k));
            }
            assert(charges_int(charges@) =~= seed_charges(av));
        }

        let mut current_damping: u64 = 1_000_000;
        for pass in 0..iterations
            invariant
                n_atoms == atoms@.len(),
                av == atoms_view(atoms@),
                bv == bonds_view(bonds@),
                goal == compute_charges_spec(av, bv, iterations as int, damping as int),
                params_seq == resolved_params(av, bv),
                atom_params@ == params_seq,
                charges@.len() == n_atoms as int,
                current_damping <= 1_000_000,
                forall|k: int|
                    0 <= k < params_seq.len() ==> (#[trigger] params_seq[k] matches Some(p)
                        ==> params_within_bounds(p)),
                forall|k: int|
                    0 <= k < charges@.len() ==> -charge_bound(pass as int) <= (#[trigger] charges@[k]) as int <= charge_bound(pass as int),
                equalize(
                    charges_int(charges@),
                    params_seq,
                    bv,
                    current_damping as int,
                    damping as int,
                    iterations - pass,
                ) == goal,
        {
            let ghost pre = charges_int(charges@);
            let ghost factor = current_damping as int;
            let mut delta_charges: Vec<i128> = Vec::new();
            for i in 0..n_atoms
                invariant
                    delta_charges@.len() == i as int,
                    forall|k: int| 0 <= k < i ==> delta_charges@[k] == 0i128,
            {
                delta_charges.push(0i128);
            }
            proof {
                assert(charges_int(delta_charges@) =~= zero_delta(pre.len()));
                assert(charges_int(delta_charges@) =~= pass_delta_upto(pre, params_seq, bv, factor, 0));
            }

            let n_bonds = bonds.len();
            for bk in 0..n_bonds
                invariant
                    n_atoms == atoms@.len(),
                    n_bonds == bonds@.len(),
                    bv == bonds_view(bonds@),
                    charges@.len() == n_atoms as int,
                    delta_charges@.len() == n_atoms as int,
                    atom_params@ == params_seq,
                    params_seq.len() == n_atoms as int,
                    current_damping <= 1_000_000,
                    factor == current_damping as int,
                    pre == charges_int(charges@),
                    forall|k: int|
                        0 <= k < params_seq.len() ==> (#[trigger] params_seq[k] matches Some(p)
                            ==> params_within_bounds(p)),
                    charges_int(delta_charges@) == pass_delta_upto(
                        pre,
                        params_seq,
                        bv,
                        factor,
                        bk as int,
                    ),
                    forall|k: int|
                        0 <= k < delta_charges@.len() ==> -((bk as int) * (DQ_LIMIT as int))
                            <= (#[trigger] delta_charges@[k]) as int <= (bk as int) * (
                        DQ_LIMIT as int),
            {
                let ghost dv0 = delta_charges@;
                let (bi, bj) = bonds[bk].atom_indices();
                if bi < n_atoms && bj < n_atoms {
                    let p_i_opt = atom_params[bi];
                    let p_j_opt = atom_params[bj];
                    match (p_i_opt, p_j_opt) {
                        (Some(p_i), Some(p_j)) => {
                            let chi_i = self.calculate_electronegativity(&p_i, charges[bi]);
                            let chi_j = self.calculate_electronegativity(&p_j, charges[bj]);
                            let chi_plus_i = self.calculate_electronegativity(&p_i, SCALE as i128);
                            let chi_plus_j = self.calculate_electronegativity(&p_j, SCALE as i128);
                            proof {
                                lemma_chi_at_unit_charge(p_i);
                                lemma_chi_at_unit_charge(p_j);
                                assert((n_bonds as int) * (DQ_LIMIT as int) <= DELTA_SPAN as int);
                            }
                            if chi_j > chi_i {
                                proof {
                                    assert(0 <= (current_damping as int) * (chi_j - chi_i)
                                        <= 80_000_000_000_000_000_000_000_000_000_000)
                                        by (nonlinear_arith)
                                        requires
                                            0 <= current_damping <= 1_000_000,
                                            0 < chi_j - chi_i < 80_000_000_000_000_000_000_000_000,
                                    ;
                                }
                                let numerator: i128 = (current_damping as i128) * (chi_j - chi_i);
                                proof {
                                    lemma_div_pos_is_pos(numerator as int, chi_plus_i as int);
                                }
                                let mut dq: i128 = numerator / chi_plus_i;
                                if dq > DQ_LIMIT {
                                    dq = DQ_LIMIT;
                                }
                                let d_i = delta_charges[bi];
                                delta_charges[bi] = d_i + dq;
                                let ghost dv1 = delta_charges@;
                                let d_j = delta_charges[bj];
                                delta_charges[bj] = d_j - dq;
                                proof {
                                    lemma_charges_int_update(dv0, bi as int, dv1[bi as int]);
                                    lemma_charges_int_update(
                                        dv1,
                                        bj as int,
                                        delta_charges@[bj as int],
                                    );
                                }
                            } else if chi_i > chi_j {
                                proof {
                                    assert(0 <= (current_damping as int) * (chi_i - chi_j)
                                        <= 80_000_000_000_000_000_000_000_000_000_000)
                                        by (nonlinear_arith)
                                        requires
                                            0 <= current_damping <= 1_000_000,
                                            0 < chi_i - chi_j < 80_000_000_000_000_000_000_000_000,
                                    ;
                                }
                                let numerator: i128 = (current_damping as i128) * (chi_i - chi_j);
                                proof {
                                    lemma_div_pos_is_pos(numerator as int, chi_plus_j as int);
                                }
                                let mut dq: i128 = numerator / chi_plus_j;
                                if dq > DQ_LIMIT {
                                    dq = DQ_LIMIT;
                                }
                                let d_j = delta_charges[bj];
                                delta_charges[bj] = d_j + dq;
                                let ghost dv1 = delta_charges@;
                                let d_i = delta_charges[bi];
                                delta_charges[bi] = d_i - dq;
                                proof {
                                    lemma_charges_int_update(dv0, bj as int, dv1[bj as int]);
                                    lemma_charges_int_update(
                                        dv1,
                                        bi as int,
                                        delta_charges@[bi as int],
                                    );
                                }
                            }
                        },
                        _ => {},
                    }
                }
            }

            proof {
                lemma_pass_delta_upto_len(pre, params_seq, bv, factor, bv.len() as int);
            }
            let ghost delta_full = pass_delta(pre, params_seq, bv, factor);
            for i in 0..n_atoms
                invariant
                    n_atoms == atoms@.len(),
                    charges@.len() == n_atoms as int,
                    delta_charges@.len() == n_atoms as int,
                    pre.len() == n_atoms as int,
                    delta_full == charges_int(delta_charges@),
                    pass < iterations,
                    forall|k: int|
                        0 <= k < n_atoms ==> -((n_bonds as int) * (DQ_LIMIT as int))
                            <= (#[trigger] delta_charges@[k]) as int <= (n_bonds as int) * (
                        DQ_LIMIT as int),
                    forall|k: int|
                        0 <= k < n_atoms ==> -charge_bound(pass as int) <= #[trigger] pre[k]
                            <= charge_bound(pass as int),
                    forall|k: int| i <= k < n_atoms ==> (#[trigger] charges@[k]) as int == pre[k],
                    forall|k: int|
                        0 <= k < i ==> (#[trigger] charges@[k]) as int == pre[k] + delta_full[k],
            {
                let c = charges[i];
                let d = delta_charges[i];
                proof {
                    assert((n_bonds as int) * (DQ_LIMIT as int) <= DELTA_SPAN as int);
                    assert(charge_bound(pass as int) + DELTA_SPAN as int == charge_bound(
                        pass as int + 1,
                    ));
                    assert(charge_bound(pass as int + 1) <= charge_bound(0xFFFF_FFFFint));
                }
                let ghost cv0 = charges@;
                charges[i] = c + d;
                proof {
                    assert forall|k: int| i + 1 <= k < n_atoms implies (#[trigger] charges@[k])
                        as int == pre[k] by {
                        assert(charges@[k] == cv0[k]);
                    }
                    assert forall|k: int| 0 <= k < i + 1 implies (#[trigger] charges@[k]) as int
                        == pre[k] + delta_full[k] by {
                        if k < i {
                            assert(charges@[k] == cv0[k]);
                        }
                    }
                }
            }
            proof {
                assert forall|k: int| 0 <= k < n_atoms implies -charge_bound(pass as int + 1) <= (
                #[trigger] charges@[k]) as int <= charge_bound(pass as int + 1) by {
                    assert(charges@[k] as int == pre[k] + delta_full[k]);
                    assert(delta_full[k] == (delta_charges@[k]) as int);
                    assert((n_bonds as int) * (DQ_LIMIT as int) <= DELTA_SPAN as int);
                }
            }

            proof {
                assert(0 <= (current_damping as int) * (damping as int) <= 4_294_967_295_000_000)
                    by (nonlinear_arith)
                    requires
                        0 <= current_damping <= 1_000_000,
                        0 <= damping <= 4_294_967_295,
                ;
            }
            let attenuated: u64 = current_damping * (damping as u64) / 1_000_000;
            current_damping = if attenuated > 1_000_000 {
                1_000_000
            } else {
                attenuated
            };
            proof {
                assert(charges_int(charges@) =~= add_charges(pre, delta_full));
                assert(current_damping as int == next_factor(factor, damping as int));
                assert(equalize(pre, params_seq, bv, factor, damping as int, iterations - pass)
                    == equalize(
                    charges_int(charges@),
                    params_seq,
                    bv,
                    current_damping as int,
                    damping as int,
                    iterations - pass - 1,
                ));
            }
        }
        charges
    }
}

} // verus!
