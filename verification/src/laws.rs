use vstd::prelude::*;

use crate::parameters::{GasteigerParams, SCALE};
use crate::solver::{
    add_charges, bond_applies, bond_degree, bond_delta, chi, compute_charges_spec, equalize,
    lemma_pass_delta_upto_len, next_factor, pass_delta, pass_delta_upto, resolve_params,
    resolved_params, seed_charges, transfer_amount, zero_delta,
};

verus! {

/// The total of a charge vector.
pub open spec fn charge_sum(charges: Seq<int>) -> int
    decreases charges.len(),
{
    if charges.len() == 0 {
        0
    } else {
        charge_sum(charges.drop_last()) + charges.last()
    }
}

/// No bond reaches across the boundary `cut`: each one lies wholly among
/// the first `cut` atoms or wholly outside them.
pub open spec fn bonds_respect_cut(bonds: Seq<(usize, usize)>, cut: int) -> bool {
    forall|k: int|
        0 <= k < bonds.len() ==> ((#[trigger] bonds[k]).0 < cut <==> bonds[k].1 < cut)
}

proof fn lemma_charge_sum_update(s: Seq<int>, i: int, v: int)
    requires
        0 <= i < s.len(),
    ensures
        charge_sum(s.update(i, v)) == charge_sum(s) - s[i] + v,
    decreases s.len(),
{
    if i == s.len() - 1 {
        assert(s.update(i, v).drop_last() =~= s.drop_last());
    } else {
        assert(s.update(i, v).drop_last() =~= s.drop_last().update(i, v));
        lemma_charge_sum_update(s.drop_last(), i, v);
        assert(s.update(i, v).last() == s.last());
    }
}

proof fn lemma_zero_delta_sum(n: nat)
    ensures
        charge_sum(zero_delta(n)) == 0,
    decreases n,
{
    if n > 0 {
        assert(zero_delta(n).drop_last() =~= zero_delta((n - 1) as nat));
        lemma_zero_delta_sum((n - 1) as nat);
    }
}

proof fn lemma_bond_delta_sum(
    charges: Seq<int>,
    params: Seq<Option<GasteigerParams>>,
    delta: Seq<int>,
    bond: (usize, usize),
    factor: int,
)
    requires
        delta.len() == charges.len(),
    ensures
        charge_sum(bond_delta(charges, params, delta, bond, factor)) == charge_sum(delta),
{
    if bond_applies(charges, params, bond) {
        let i = bond.0 as int;
        let j = bond.1 as int;
        match (params[i], params[j]) {
            (Some(p_i), Some(p_j)) => {
                let chi_i = chi(p_i, charges[i]);
                let chi_j = chi(p_j, charges[j]);
                if chi_j > chi_i {
                    let dq = transfer_amount(p_i, chi_i, chi_j, factor);
                    let once = delta.update(i, delta[i] + dq);
                    lemma_charge_sum_update(delta, i, delta[i] + dq);
                    lemma_charge_sum_update(once, j, once[j] - dq);
                } else if chi_i > chi_j {
                    let dq = transfer_amount(p_j, chi_j, chi_i, factor);
                    let once = delta.update(j, delta[j] + dq);
                    lemma_charge_sum_update(delta, j, delta[j] + dq);
                    lemma_charge_sum_update(once, i, once[i] - dq);
                }
            },
            _ => {},
        }
    }
}

proof fn lemma_pass_delta_upto_sum(
    charges: Seq<int>,
    params: Seq<Option<GasteigerParams>>,
    bonds: Seq<(usize, usize)>,
    factor: int,
    k: int,
)
    ensures
        charge_sum(pass_delta_upto(charges, params, bonds, factor, k)) == 0,
    decreases k,
{
    if k <= 0 {
        lemma_zero_delta_sum(charges.len());
    } else {
        lemma_pass_delta_upto_sum(charges, params, bonds, factor, k - 1);
        lemma_pass_delta_upto_len(charges, params, bonds, factor, k - 1);
        lemma_bond_delta_sum(
            charges,
            params,
            pass_delta_upto(charges, params, bonds, factor, k - 1),
            bonds[k - 1],
            factor,
        );
    }
}

proof fn lemma_add_charges_sum(charges: Seq<int>, delta: Seq<int>)
    requires
        delta.len() == charges.len(),
    ensures
        charge_sum(add_charges(charges, delta)) == charge_sum(charges) + charge_sum(delta),
    decreases charges.len(),
{
    if charges.len() == 0 {
        assert(add_charges(charges, delta) =~= charges);
    } else {
        assert(add_charges(charges, delta).drop_last() =~= add_charges(
            charges.drop_last(),
            delta.drop_last(),
        ));
        lemma_add_charges_sum(charges.drop_last(), delta.drop_last());
        assert(add_charges(charges, delta).last() == charges.last() + delta.last());
    }
}

proof fn lemma_equalize_sum(
    charges: Seq<int>,
    params: Seq<Option<GasteigerParams>>,
    bonds: Seq<(usize, usize)>,
    factor: int,
    damping: int,
    passes: int,
)
    ensures
        charge_sum(equalize(charges, params, bonds, factor, damping, passes)) == charge_sum(
            charges,
        ),
    decreases passes,
{
    if passes > 0 {
        let delta = pass_delta(charges, params, bonds, factor);
        lemma_pass_delta_upto_sum(charges, params, bonds, factor, bonds.len() as int);
        lemma_pass_delta_upto_len(charges, params, bonds, factor, bonds.len() as int);
        lemma_add_charges_sum(charges, delta);
        lemma_equalize_sum(
            add_charges(charges, delta),
            params,
            bonds,
            next_factor(factor, damping),
            damping,
            passes - 1,
        );
    }
}

/// Conservation of charge: for every input — whatever the bond list, the
/// pass count and the damping — the output charges total exactly the seeded
/// formal charges, because each transfer moves the same amount out of one
/// atom that it moves into the other.
pub proof fn lemma_charge_conservation(
    atoms: Seq<(usize, i64)>,
    bonds: Seq<(usize, usize)>,
    iterations: int,
    damping: int,
)
    ensures
        charge_sum(compute_charges_spec(atoms, bonds, iterations, damping)) == charge_sum(
            seed_charges(atoms),
        ),
{
    lemma_equalize_sum(
        seed_charges(atoms),
        resolved_params(atoms, bonds),
        bonds,
        SCALE as int,
        damping,
        iterations,
    );
}

proof fn lemma_bond_delta_unresolved(
    charges: Seq<int>,
    params: Seq<Option<GasteigerParams>>,
    delta: Seq<int>,
    bond: (usize, usize),
    factor: int,
    idx: int,
)
    requires
        delta.len() == charges.len(),
        0 <= idx < delta.len(),
        params[idx] is None,
    ensures
        bond_delta(charges, params, delta, bond, factor)[idx] == delta[idx],
{
    if bond_applies(charges, params, bond) {
        assert(bond.0 != idx && bond.1 != idx);
    }
}

proof fn lemma_pass_delta_upto_unresolved(
    charges: Seq<int>,
    params: Seq<Option<GasteigerParams>>,
    bonds: Seq<(usize, usize)>,
    factor: int,
    k: int,
    idx: int,
)
    requires
        0 <= idx < charges.len(),
        params[idx] is None,
    ensures
        pass_delta_upto(charges, params, bonds, factor, k)[idx] == 0,
    decreases k,
{
    if k > 0 {
        lemma_pass_delta_upto_unresolved(charges, params, bonds, factor, k - 1, idx);
        lemma_pass_delta_upto_len(charges, params, bonds, factor, k - 1);
        lemma_bond_delta_unresolved(
            charges,
            params,
            pass_delta_upto(charges, params, bonds, factor, k - 1),
            bonds[k - 1],
            factor,
            idx,
        );
    }
}

proof fn lemma_equalize_unresolved(
    charges: Seq<int>,
    params: Seq<Option<GasteigerParams>>,
    bonds: Seq<(usize, usize)>,
    factor: int,
    damping: int,
    passes: int,
    idx: int,
)
    requires
        0 <= idx < charges.len(),
        params[idx] is None,
    ensures
        equalize(charges, params, bonds, factor, damping, passes)[idx] == charges[idx],
    decreases passes,
{
    if passes > 0 {
        let delta = pass_delta(charges, params, bonds, factor);
        lemma_pass_delta_upto_unresolved(charges, params, bonds, factor, bonds.len() as int, idx);
        lemma_pass_delta_upto_len(charges, params, bonds, factor, bonds.len() as int);
        assert(add_charges(charges, delta)[idx] == charges[idx]);
        lemma_equalize_unresolved(
            add_charges(charges, delta),
            params,
            bonds,
            next_factor(factor, damping),
            damping,
            passes - 1,
            idx,
        );
    }
}

/// Inertness of unparameterized atoms: an atom whose element resolves to no
/// parameters at any fallback level never takes part in a transfer, so its
/// output charge is exactly its seeded formal charge.
pub proof fn lemma_unparameterized_atom_inert(
    atoms: Seq<(usize, i64)>,
    bonds: Seq<(usize, usize)>,
    iterations: int,
    damping: int,
    idx: int,
)
    requires
        0 <= idx < atoms.len(),
        resolve_params(atoms[idx].0, bond_degree(bonds, idx)) is None,
    ensures
        compute_charges_spec(atoms, bonds, iterations, damping)[idx] == atoms[idx].1,
{
    lemma_equalize_unresolved(
        seed_charges(atoms),
        resolved_params(atoms, bonds),
        bonds,
        SCALE as int,
        damping,
        iterations,
        idx,
    );
}

proof fn lemma_charge_sum_take_update(s: Seq<int>, cut: int, i: int, v: int)
    requires
        0 <= cut <= s.len(),
        0 <= i < s.len(),
    ensures
        charge_sum(s.update(i, v).take(cut)) == if i < cut {
            charge_sum(s.take(cut)) - s[i] + v
        } else {
            charge_sum(s.take(cut))
        },
{
    if i < cut {
        assert(s.update(i, v).take(cut) =~= s.take(cut).update(i, v));
        lemma_charge_sum_update(s.take(cut), i, v);
    } else {
        assert(s.update(i, v).take(cut) =~= s.take(cut));
    }
}

proof fn lemma_bond_delta_take_sum(
    charges: Seq<int>,
    params: Seq<Option<GasteigerParams>>,
    delta: Seq<int>,
    bond: (usize, usize),
    factor: int,
    cut: int,
)
    requires
        delta.len() == charges.len(),
        0 <= cut <= delta.len(),
        (bond.0 < cut) <==> (bond.1 < cut),
    ensures
        charge_sum(bond_delta(charges, params, delta, bond, factor).take(cut)) == charge_sum(
            delta.take(cut),
        ),
{
    if bond_applies(charges, params, bond) {
        let i = bond.0 as int;
        let j = bond.1 as int;
        match (params[i], params[j]) {
            (Some(p_i), Some(p_j)) => {
                let chi_i = chi(p_i, charges[i]);
                let chi_j = chi(p_j, charges[j]);
                if chi_j > chi_i {
                    let dq = transfer_amount(p_i, chi_i, chi_j, factor);
                    let once = delta.update(i, delta[i] + dq);
                    lemma_charge_sum_take_update(delta, cut, i, delta[i] + dq);
                    lemma_charge_sum_take_update(once, cut, j, once[j] - dq);
                } else if chi_i > chi_j {
                    let dq = transfer_amount(p_j, chi_j, chi_i, factor);
                    let once = delta.update(j, delta[j] + dq);
                    lemma_charge_sum_take_update(delta, cut, j, delta[j] + dq);
                    lemma_charge_sum_take_update(once, cut, i, once[i] - dq);
                }
            },
            _ => {},
        }
    }
}

proof fn lemma_pass_delta_upto_take_sum(
    charges: Seq<int>,
    params: Seq<Option<GasteigerParams>>,
    bonds: Seq<(usize, usize)>,
    factor: int,
    k: int,
    cut: int,
)
    requires
        0 <= cut <= charges.len(),
        bonds_respect_cut(bonds, cut),
        k <= bonds.len(),
    ensures
        charge_sum(pass_delta_upto(charges, params, bonds, factor, k).take(cut)) == 0,
    decreases k,
{
    if k <= 0 {
        assert(zero_delta(charges.len()).take(cut) =~= zero_delta(cut as nat));
        lemma_zero_delta_sum(cut as nat);
    } else {
        lemma_pass_delta_upto_take_sum(charges, params, bonds, factor, k - 1, cut);
        lemma_pass_delta_upto_len(charges, params, bonds, factor, k - 1);
        lemma_bond_delta_take_sum(
            charges,
            params,
            pass_delta_upto(charges, params, bonds, factor, k - 1),
            bonds[k - 1],
            factor,
            cut,
        );
    }
}

proof fn lemma_equalize_take_sum(
    charges: Seq<int>,
    params: Seq<Option<GasteigerParams>>,
    bonds: Seq<(usize, usize)>,
    factor: int,
    damping: int,
    passes: int,
    cut: int,
)
    requires
        0 <= cut <= charges.len(),
        bonds_respect_cut(bonds, cut),
    ensures
        charge_sum(equalize(charges, params, bonds, factor, damping, passes).take(cut))
            == charge_sum(charges.take(cut)),
    decreases passes,
{
    if passes > 0 {
        let delta = pass_delta(charges, params, bonds, factor);
        lemma_pass_delta_upto_take_sum(charges, params, bonds, factor, bonds.len() as int, cut);
        lemma_pass_delta_upto_len(charges, params, bonds, factor, bonds.len() as int);
        assert(add_charges(charges, delta).take(cut) =~= add_charges(
            charges.take(cut),
            delta.take(cut),
        ));
        lemma_add_charges_sum(charges.take(cut), delta.take(cut));
        lemma_equalize_take_sum(
            add_charges(charges, delta),
            params,
            bonds,
            next_factor(factor, damping),
            damping,
            passes - 1,
            cut,
        );
    }
}

/// Independence of disconnected molecules: when two molecules are packed
/// into one list and no bond reaches across the boundary `cut`, the first
/// `cut` output charges total exactly the first `cut` seeded charges.
/// Together with [`lemma_charge_conservation`], the atoms beyond the
/// boundary then also keep their own subtotal: charge never leaks between
/// disconnected components.
pub proof fn lemma_disjoint_prefix_conservation(
    atoms: Seq<(usize, i64)>,
    bonds: Seq<(usize, usize)>,
    iterations: int,
    damping: int,
    cut: int,
)
    requires
        0 <= cut <= atoms.len(),
        bonds_respect_cut(bonds, cut),
    ensures
        charge_sum(compute_charges_spec(atoms, bonds, iterations, damping).take(cut))
            == charge_sum(seed_charges(atoms).take(cut)),
{
    lemma_equalize_take_sum(
        seed_charges(atoms),
        resolved_params(atoms, bonds),
        bonds,
        SCALE as int,
        damping,
        iterations,
        cut,
    );
}

} // verus!
