use vstd::prelude::*;

verus! {

/// Number of fixed-point steps that make one unit of charge or of
/// electronegativity. Every charge, coefficient and bond order in this crate
/// is an integer carrying this scale, so `500_000` stands for one half.
pub const SCALE: i64 = 1_000_000;

/// Every coefficient in the table lies within this many steps of zero.
pub const PARAM_LIMIT: i64 = 30_000_000;

/// For every tabulated triple, `a + b + c` (the electronegativity of the
/// fully ionized atom, used as a denominator) is at least this many steps.
pub const CHI_PLUS_MIN: i64 = 1_000_000;

/// Coefficients of the Gasteiger electronegativity of one atom as a
/// quadratic in its current charge: chi(q) = a + b*q + c*q^2.
///
/// The fields carry the fixed scale [`SCALE`]: `a = 7_170_000` stands for
/// the coefficient 7.17.
#[derive(Clone, Copy, Debug, PartialEq, Eq, Structural)]
pub struct GasteigerParams {
    pub a: i64,
    pub b: i64,
    pub c: i64,
}

/// Coarse bonding geometry of an atom, inferred from its bond degree and
/// used only as a key into the parameter table.
#[derive(Clone, Copy, Debug, PartialEq, Eq, Hash, Structural)]
pub enum Hybridization {
    Sp3,
    Sp2,
    Sp,
    Default,
}

/// The parameter table: `Some` exactly for the tabulated
/// (element, hybridization) pairs, `None` for every other combination.
pub open spec fn spec_get_params(
    atomic_number: usize,
    hybridization: Hybridization,
) -> Option<GasteigerParams> {
    match (atomic_number, hybridization) {
        // Hydrogen
        (1usize, _) => Some(GasteigerParams { a: 7_170_000, b: 6_240_000, c: -560_000i64 }),
        // Carbon
        (6usize, Hybridization::Sp3) => Some(
            GasteigerParams { a: 7_980_000, b: 9_180_000, c: 1_880_000 },
        ),
        (6usize, Hybridization::Sp2) => Some(
            GasteigerParams { a: 8_790_000, b: 9_320_000, c: 1_510_000 },
        ),
        (6usize, Hybridization::Sp) => Some(
            GasteigerParams { a: 10_390_000, b: 9_450_000, c: 730_000 },
        ),
        // Nitrogen
        (7usize, Hybridization::Sp3) => Some(
            GasteigerParams { a: 11_540_000, b: 10_820_000, c: 1_360_000 },
        ),
        (7usize, Hybridization::Sp2) => Some(
            GasteigerParams { a: 12_870_000, b: 11_150_000, c: 850_000 },
        ),
        (7usize, Hybridization::Sp) => Some(
            GasteigerParams { a: 15_680_000, b: 11_700_000, c: -270_000i64 },
        ),
        // Oxygen
        (8usize, Hybridization::Sp3) => Some(
            GasteigerParams { a: 14_120_000, b: 12_920_000, c: 1_390_000 },
        ),
        (8usize, Hybridization::Sp2) => Some(
            GasteigerParams { a: 17_070_000, b: 13_790_000, c: 470_000 },
        ),
        // Fluorine
        (9usize, _) => Some(GasteigerParams { a: 14_660_000, b: 13_850_000, c: 2_310_000 }),
        // Phosphorus
        (15usize, _) => Some(GasteigerParams { a: 8_900_000, b: 8_120_000, c: 310_000 }),
        // Sulfur
        (16usize, Hybridization::Sp3) => Some(
            GasteigerParams { a: 10_140_000, b: 9_130_000, c: 1_380_000 },
        ),
        (16usize, Hybridization::Sp2) => Some(
            GasteigerParams { a: 10_880_000, b: 9_470_000, c: 1_330_000 },
        ),
        // Chlorine
        (17usize, _) => Some(GasteigerParams { a: 10_180_000, b: 9_380_000, c: 1_130_000 }),
        // Bromine
        (35usize, _) => Some(GasteigerParams { a: 9_900_000, b: 8_290_000, c: 1_010_000 }),
        // Iodine
        (53usize, _) => Some(GasteigerParams { a: 8_850_000, b: 7_170_000, c: 990_000 }),
        _ => None,
    }
}

/// The bounds that every tabulated triple satisfies; they keep the solver's
/// arithmetic inside `i128` and its denominators positive.
pub open spec fn params_within_bounds(p: GasteigerParams) -> bool {
    &&& -PARAM_LIMIT <= p.a <= PARAM_LIMIT
    &&& -PARAM_LIMIT <= p.b <= PARAM_LIMIT
    &&& -PARAM_LIMIT <= p.c <= PARAM_LIMIT
    &&& p.a + p.b + p.c >= CHI_PLUS_MIN
}

/// Every entry of the table satisfies [`params_within_bounds`].
pub proof fn lemma_table_within_bounds(atomic_number: usize, hybridization: Hybridization)
    ensures
        spec_get_params(atomic_number, hybridization) matches Some(p) ==> params_within_bounds(p),
{
}

/// Electronegativity parameters for one (element, hybridization) pair:
/// `Some` exactly for the tabulated pairs, with no partial match.
pub fn get_params(atomic_number: usize, hybridization: Hybridization) -> (result: Option<
    GasteigerParams,
>)
    ensures
        result == spec_get_params(atomic_number, hybridization),
        result matches Some(p) ==> params_within_bounds(p),
{
    match (atomic_number, hybridization) {
        // Hydrogen
        (1, _) => Some(GasteigerParams { a: 7_170_000, b: 6_240_000, c: -560_000 }),
        // Carbon
        (6, Hybridization::Sp3) => Some(GasteigerParams { a: 7_980_000, b: 9_180_000, c: 1_880_000 }),
        (6, Hybridization::Sp2) => Some(GasteigerParams { a: 8_790_000, b: 9_320_000, c: 1_510_000 }),
        (6, Hybridization::Sp) => Some(GasteigerParams { a: 10_390_000, b: 9_450_000, c: 730_000 }),
        // Nitrogen
        (7, Hybridization::Sp3) => Some(
            GasteigerParams { a: 11_540_000, b: 10_820_000, c: 1_360_000 },
        ),
        (7, Hybridization::Sp2) => Some(GasteigerParams { a: 12_870_000, b: 11_150_000, c: 850_000 }),
        (7, Hybridization::Sp) => Some(GasteigerParams { a: 15_680_000, b: 11_700_000, c: -270_000 }),
        // Oxygen
        (8, Hybridization::Sp3) => Some(
            GasteigerParams { a: 14_120_000, b: 12_920_000, c: 1_390_000 },
        ),
        (8, Hybridization::Sp2) => Some(GasteigerParams { a: 17_070_000, b: 13_790_000, c: 470_000 }),
        // Fluorine
        (9, _) => Some(GasteigerParams { a: 14_660_000, b: 13_850_000, c: 2_310_000 }),
        // Phosphorus
        (15, _) => Some(GasteigerParams { a: 8_900_000, b: 8_120_000, c: 310_000 }),
        // Sulfur
        (16, Hybridization::Sp3) => Some(
            GasteigerParams { a: 10_140_000, b: 9_130_000, c: 1_380_000 },
        ),
        (16, Hybridization::Sp2) => Some(
            GasteigerParams { a: 10_880_000, b: 9_470_000, c: 1_330_000 },
        ),
        // Chlorine
        (17, _) => Some(GasteigerParams { a: 10_180_000, b: 9_380_000, c: 1_130_000 }),
        // Bromine
        (35, _) => Some(GasteigerParams { a: 9_900_000, b: 8_290_000, c: 1_010_000 }),
        // Iodine
        (53, _) => Some(GasteigerParams { a: 8_850_000, b: 7_170_000, c: 990_000 }),
        _ => None,
    }
}

} // verus!
