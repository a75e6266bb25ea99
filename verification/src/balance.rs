//! Judging a balancing run.
//!
//! The quantities are `f64` values given by their bits. Of two numbers that are not
//! negative the greater one has the greater bits, so a comparison with a positive
//! threshold is one of integers.

use crate::ranking::rank;
use vstd::prelude::*;

verus! {

/// Bits of the sign.
pub const SIGN_BIT: u64 = 0x8000_0000_0000_0000;

/// Bits of infinity.
pub const INFINITY_BITS: u64 = 0x7FF0_0000_0000_0000;

/// Bits of 0.7.
pub const RATIO_0_7: u64 = 0x3FE6_6666_6666_6666;

/// Bits of 1.3.
pub const RATIO_1_3: u64 = 0x3FF4_CCCC_CCCC_CCCD;

/// Bits of 0.1.
pub const RATIO_0_1: u64 = 0x3FB9_9999_9999_999A;

/// Bits of 0.3.
pub const RATIO_0_3: u64 = 0x3FD3_3333_3333_3333;

/// Bits of 2.
pub const RATIO_2: u64 = 0x4000_0000_0000_0000;

/// Bits of 10.
pub const NUMBER_10: u64 = 0x4024_0000_0000_0000;

/// Bits of 25.
pub const NUMBER_25: u64 = 0x4039_0000_0000_0000;

/// Bits of 1e-10.
pub const AMPLITUDE_FLOOR: u64 = 0x3DDB_7CDF_D9D7_BDBB;

/// Bits of 1e-30.
pub const DETERMINANT_FLOOR: u64 = 0x39B4_484B_FEEB_C2A0;

/// Whether the bits have the sign of a negative number.
pub open spec fn is_negative(bits: u64) -> bool {
    bits >= SIGN_BIT
}

/// Whether the bits stand for no number.
pub open spec fn is_nan(bits: u64) -> bool {
    if is_negative(bits) {
        bits > SIGN_BIT + INFINITY_BITS
    } else {
        bits > INFINITY_BITS
    }
}

/// Whether a number is below a positive threshold.
pub open spec fn below(bits: u64, threshold: u64) -> bool {
    !is_nan(bits) && (is_negative(bits) || bits < threshold)
}

/// Whether a number is above a positive threshold.
pub open spec fn above(bits: u64, threshold: u64) -> bool {
    !is_nan(bits) && !is_negative(bits) && bits > threshold
}

fn is_below(bits: u64, threshold: u64) -> (r: bool)
    requires
        threshold <= INFINITY_BITS,
    ensures
        r == below(bits, threshold),
{
    if bits >= SIGN_BIT {
        bits <= SIGN_BIT + INFINITY_BITS
    } else {
        bits < threshold
    }
}

fn is_above(bits: u64, threshold: u64) -> (r: bool)
    requires
        threshold <= INFINITY_BITS,
    ensures
        r == above(bits, threshold),
{
    bits <= INFINITY_BITS && bits > threshold
}

pub(crate) fn is_number(bits: u64) -> (r: bool)
    ensures
        r == !is_nan(bits),
{
    if bits >= SIGN_BIT {
        bits <= SIGN_BIT + INFINITY_BITS
    } else {
        bits <= INFINITY_BITS
    }
}

/// Where a speed lies with respect to the critical one.
#[derive(Debug, Clone, Copy, PartialEq, Eq, Structural)]
pub enum Regime {
    /// Well below: the phase is near 0° and the amplitude grows with the speed.
    SubResonance,
    /// Near: the phase is near 90° and the amplitude is greatest.
    Resonance,
    /// Well above: the phase is near 180° and the amplitude settles.
    SuperResonance,
}

/// The regime at a ratio of the speed to the critical one.
pub open spec fn regime_at(ratio: u64) -> Regime {
    if below(ratio, RATIO_0_7) {
        Regime::SubResonance
    } else if above(ratio, RATIO_1_3) {
        Regime::SuperResonance
    } else {
        Regime::Resonance
    }
}

impl Regime {
    /// The regime at a speed, given as its ratio to the critical one: below 0.7, up
    /// to 1.3, above.
    pub fn of_ratio(ratio: u64) -> (r: Regime)
        ensures
            r == regime_at(ratio),
    {
        if is_below(ratio, RATIO_0_7) {
            Regime::SubResonance
        } else if is_above(ratio, RATIO_1_3) {
            Regime::SuperResonance
        } else {
            Regime::Resonance
        }
    }

    /// The regime in words.
    pub fn text(self) -> (r: &'static str)
        ensures
            r@ == match self {
                Regime::SubResonance => "дорезонансный (w << w_cr)"@,
                Regime::Resonance => "резонансный (w ≈ w_cr)"@,
                Regime::SuperResonance => "зарезонансный (w >> w_cr)"@,
            },
    {
        match self {
            Regime::SubResonance => "дорезонансный (w << w_cr)",
            Regime::Resonance => "резонансный (w ≈ w_cr)",
            Regime::SuperResonance => "зарезонансный (w >> w_cr)",
        }
    }
}

/// Whether a vibration is strong enough for a change to be measured against it.
pub fn measurable(amplitude: u64) -> (r: bool)
    ensures
        r == above(amplitude, AMPLITUDE_FLOOR),
{
    is_above(amplitude, AMPLITUDE_FLOOR)
}

/// Why no correction can be found.
#[derive(Debug, Clone, Copy, PartialEq, Eq, Structural)]
pub enum BalanceError {
    /// The trial weight has changed the vibration too little.
    TrialResponseTooWeak,
    /// The trial weights cannot be told apart.
    SingularMatrix,
}

/// What the amplitude of the change that a trial weight has made leads to.
pub open spec fn change_error(change: u64) -> Option<BalanceError> {
    if is_nan(change) || above(change, AMPLITUDE_FLOOR) {
        None
    } else {
        Some(BalanceError::TrialResponseTooWeak)
    }
}

/// What the size of the determinant of the influence coefficients leads to.
pub open spec fn determinant_error(size: u64) -> Option<BalanceError> {
    if is_nan(size) || above(size, DETERMINANT_FLOOR) {
        None
    } else {
        Some(BalanceError::SingularMatrix)
    }
}

impl BalanceError {
    /// What the amplitude of the change that a trial weight has made leads to: up to
    /// 1e-10 it is too weak.
    pub fn of_change(change: u64) -> (r: Option<BalanceError>)
        ensures
            r == change_error(change),
    {
        if is_above(change, AMPLITUDE_FLOOR) || !is_number(change) {
            None
        } else {
            Some(BalanceError::TrialResponseTooWeak)
        }
    }

    /// What the size of the determinant of the influence coefficients leads to: up to
    /// 1e-30 the matrix is singular.
    pub fn of_determinant(size: u64) -> (r: Option<BalanceError>)
        ensures
            r == determinant_error(size),
    {
        if is_above(size, DETERMINANT_FLOOR) || !is_number(size) {
            None
        } else {
            Some(BalanceError::SingularMatrix)
        }
    }

    /// The error in words.
    pub fn text(self) -> (r: &'static str)
        ensures
            r@ == match self {
                BalanceError::TrialResponseTooWeak =>
                    "пробный груз не дал заметного изменения вибрации: груз слишком мал или обороты нестабильны"@,
                BalanceError::SingularMatrix =>
                    "матрица коэффициентов влияния вырождена: пробные грузы дали слабый или одинаковый отклик"@,
            },
    {
        match self {
            BalanceError::TrialResponseTooWeak =>
                "пробный груз не дал заметного изменения вибрации: груз слишком мал или обороты нестабильны",
            BalanceError::SingularMatrix =>
                "матрица коэффициентов влияния вырождена: пробные грузы дали слабый или одинаковый отклик",
        }
    }
}

/// How good a solution in two planes is.
#[derive(Debug, Clone, Copy, PartialEq, Eq, Structural)]
pub enum TwoPlaneQuality {
    Good,
    /// The solution amplifies noise.
    Marginal,
    /// The planes can hardly be told apart.
    Poor,
}

/// Whether a response is weak: a number below a tenth. Infinity stands for a
/// response that cannot be judged.
pub open spec fn is_weak(ratio: u64) -> bool {
    below(ratio, RATIO_0_1) && ratio != SIGN_BIT + INFINITY_BITS
}

fn weak(ratio: u64) -> (r: bool)
    ensures
        r == is_weak(ratio),
{
    is_below(ratio, RATIO_0_1) && ratio != SIGN_BIT + INFINITY_BITS
}

/// The quality of a solution, from the responses and the condition number.
pub open spec fn planes_quality(responses: Seq<u64>, condition: u64) -> TwoPlaneQuality {
    if (exists|i: int| 0 <= i < responses.len() && is_weak(#[trigger] responses[i])) || above(
        condition,
        NUMBER_25,
    ) {
        TwoPlaneQuality::Poor
    } else if above(condition, NUMBER_10) {
        TwoPlaneQuality::Marginal
    } else {
        TwoPlaneQuality::Good
    }
}

impl TwoPlaneQuality {
    /// The quality, from the responses of both sensors to both trial weights and the
    /// condition number of the influence coefficients: poor where a response is weak
    /// or the number is above 25, marginal where it is above 10.
    pub fn of_runs(r1: u64, r2: u64, r3: u64, r4: u64, condition: u64) -> (q: TwoPlaneQuality)
        ensures
            q == planes_quality(seq![r1, r2, r3, r4], condition),
    {
        let ghost r = seq![r1, r2, r3, r4];
        assert(r[0] == r1 && r[1] == r2 && r[2] == r3 && r[3] == r4);
        if weak(r1) || weak(r2) || weak(r3) || weak(r4) || is_above(condition, NUMBER_25) {
            TwoPlaneQuality::Poor
        } else if is_above(condition, NUMBER_10) {
            TwoPlaneQuality::Marginal
        } else {
            TwoPlaneQuality::Good
        }
    }

    /// The quality in words.
    pub fn text(self) -> (r: &'static str)
        ensures
            r@ == match self {
                TwoPlaneQuality::Good => "OK"@,
                TwoPlaneQuality::Marginal => "на грани: решение чувствительно к шуму"@,
                TwoPlaneQuality::Poor => "плохо: слабая разделимость плоскостей"@,
            },
    {
        match self {
            TwoPlaneQuality::Good => "OK",
            TwoPlaneQuality::Marginal => "на грани: решение чувствительно к шуму",
            TwoPlaneQuality::Poor => "плохо: слабая разделимость плоскостей",
        }
    }
}

/// How good the response to a trial weight is.
#[derive(Debug, Clone, Copy, PartialEq, Eq, Structural)]
pub enum TrialQuality {
    /// Between 30 % and 200 % of the initial vibration.
    Good,
    /// Too weak: take more mass.
    TooWeak,
    /// Too strong: take less mass.
    TooStrong,
    /// There is no initial vibration to speak of: the rotor is balanced.
    InitialTooLow,
}

/// The quality of a response, from the initial vibration and the ratio of the change to it.
pub open spec fn trial_quality(initial: u64, ratio: u64) -> TrialQuality {
    if below(initial, AMPLITUDE_FLOOR) {
        TrialQuality::InitialTooLow
    } else if below(ratio, RATIO_0_3) {
        TrialQuality::TooWeak
    } else if above(ratio, RATIO_2) {
        TrialQuality::TooStrong
    } else {
        TrialQuality::Good
    }
}

impl TrialQuality {
    /// The quality, from the amplitude of the initial vibration and the ratio of the
    /// change to it.
    pub fn of_response(initial: u64, ratio: u64) -> (q: TrialQuality)
        ensures
            q == trial_quality(initial, ratio),
    {
        if is_below(initial, AMPLITUDE_FLOOR) {
            TrialQuality::InitialTooLow
        } else if is_below(ratio, RATIO_0_3) {
            TrialQuality::TooWeak
        } else if is_above(ratio, RATIO_2) {
            TrialQuality::TooStrong
        } else {
            TrialQuality::Good
        }
    }

    /// The quality in words.
    pub fn text(self) -> (r: &'static str)
        ensures
            r@ == match self {
                TrialQuality::Good => "OK"@,
                TrialQuality::TooWeak => "слишком слабый отклик, увеличить груз"@,
                TrialQuality::TooStrong => "слишком сильный отклик, уменьшить груз"@,
                TrialQuality::InitialTooLow => "начальная вибрация ~0, ротор сбалансирован?"@,
            },
    {
        match self {
            TrialQuality::Good => "OK",
            TrialQuality::TooWeak => "слишком слабый отклик, увеличить груз",
            TrialQuality::TooStrong => "слишком сильный отклик, уменьшить груз",
            TrialQuality::InitialTooLow => "начальная вибрация ~0, ротор сбалансирован?",
        }
    }
}

// ---------------------------------------------------------------------------
// What holds of every judgement
// ---------------------------------------------------------------------------

/// No number has the bits that stand for none: all exponent bits set and some of the
/// fraction.
pub proof fn law_nan_has_a_fraction(bits: u64)
    ensures
        is_nan(bits) <==> bits & 0x7FF0_0000_0000_0000 == 0x7FF0_0000_0000_0000 && bits
            & 0x000F_FFFF_FFFF_FFFF != 0,
{
    assert((if bits >= 0x8000_0000_0000_0000u64 {
        bits > 0x8000_0000_0000_0000u64 + 0x7FF0_0000_0000_0000u64
    } else {
        bits > 0x7FF0_0000_0000_0000u64
    }) == (bits & 0x7FF0_0000_0000_0000 == 0x7FF0_0000_0000_0000 && bits & 0x000F_FFFF_FFFF_FFFF
        != 0)) by (bit_vector);
}

/// Comparing with a threshold that is no negative number is the order of the numbers: a
/// number is below it, above it or the same, and only one of these; what is greater than a
/// number above it is above it too, and what is less than one below it is below it too.
pub proof fn law_threshold_is_an_order(a: u64, b: u64, threshold: u64)
    requires
        threshold <= 0x7FF0_0000_0000_0000,
        threshold > 0,
    ensures
        above(b, threshold) <==> !is_nan(b) && rank(b) > rank(threshold),
        below(b, threshold) <==> !is_nan(b) && rank(b) < rank(threshold),
        !is_nan(b) ==> (above(b, threshold) || below(b, threshold) || b == threshold),
        !(above(b, threshold) && below(b, threshold)),
        !above(threshold, threshold) && !below(threshold, threshold),
        above(a, threshold) && !is_nan(b) && rank(b) >= rank(a) ==> above(b, threshold),
        below(a, threshold) && !is_nan(b) && rank(b) <= rank(a) ==> below(b, threshold),
{
}

/// How far a regime is along.
pub open spec fn regime_order(r: Regime) -> int {
    match r {
        Regime::SubResonance => 0,
        Regime::Resonance => 1,
        Regime::SuperResonance => 2,
    }
}

/// With a greater speed the regime is never an earlier one, and it changes right below 0.7
/// and right above 1.3 of the critical speed.
pub proof fn law_regimes_in_order(a: u64, b: u64)
    requires
        !is_nan(a),
        !is_nan(b),
        rank(a) <= rank(b),
    ensures
        regime_order(regime_at(a)) <= regime_order(regime_at(b)),
        regime_at(0x3FE6_6666_6666_6665) == Regime::SubResonance,
        regime_at(0x3FE6_6666_6666_6666) == Regime::Resonance,
        regime_at(0x3FF4_CCCC_CCCC_CCCD) == Regime::Resonance,
        regime_at(0x3FF4_CCCC_CCCC_CCCE) == Regime::SuperResonance,
{
}

/// How strong a response is.
pub open spec fn trial_order(q: TrialQuality) -> int {
    match q {
        TrialQuality::InitialTooLow => -1,
        TrialQuality::TooWeak => 0,
        TrialQuality::Good => 1,
        TrialQuality::TooStrong => 2,
    }
}

/// Of a rotor with an initial vibration, a greater response is never judged weaker, and the
/// judgement changes right below 30 % and right above 200 %. Whether there is an initial
/// vibration does not depend on the response, and a greater one is never too low where a
/// lesser one is not.
pub proof fn law_trials_in_order(initial: u64, more: u64, a: u64, b: u64)
    requires
        !is_nan(initial),
        !is_nan(more),
        rank(initial) <= rank(more),
        !is_nan(a),
        !is_nan(b),
        rank(a) <= rank(b),
    ensures
        trial_order(trial_quality(initial, a)) <= trial_order(trial_quality(initial, b)),
        trial_quality(initial, a) == TrialQuality::InitialTooLow <==> trial_quality(initial, b)
            == TrialQuality::InitialTooLow,
        trial_quality(initial, a) != TrialQuality::InitialTooLow ==> {
            &&& trial_quality(more, a) == trial_quality(initial, a)
            &&& trial_quality(initial, 0x3FD3_3333_3333_3332) == TrialQuality::TooWeak
            &&& trial_quality(initial, 0x3FD3_3333_3333_3333) == TrialQuality::Good
            &&& trial_quality(initial, 0x4000_0000_0000_0000) == TrialQuality::Good
            &&& trial_quality(initial, 0x4000_0000_0000_0001) == TrialQuality::TooStrong
        },
        trial_quality(0x3DDB_7CDF_D9D7_BDBA, a) == TrialQuality::InitialTooLow,
        trial_quality(0x3DDB_7CDF_D9D7_BDBB, a) != TrialQuality::InitialTooLow,
{
}

/// A greater change of the vibration is never refused where a lesser one is not, and a
/// greater determinant neither; the limits are 1e-10 and 1e-30.
pub proof fn law_greater_is_never_refused(a: u64, b: u64)
    requires
        !is_nan(a),
        !is_nan(b),
        rank(a) <= rank(b),
    ensures
        change_error(a) is None ==> change_error(b) is None,
        determinant_error(a) is None ==> determinant_error(b) is None,
        change_error(0x3DDB_7CDF_D9D7_BDBB) == Some(BalanceError::TrialResponseTooWeak),
        change_error(0x3DDB_7CDF_D9D7_BDBC) is None,
        determinant_error(0x39B4_484B_FEEB_C2A0) == Some(BalanceError::SingularMatrix),
        determinant_error(0x39B4_484B_FEEB_C2A1) is None,
{
}

/// How good a solution in two planes is, the worse the greater.
pub open spec fn planes_order(q: TwoPlaneQuality) -> int {
    match q {
        TwoPlaneQuality::Good => 0,
        TwoPlaneQuality::Marginal => 1,
        TwoPlaneQuality::Poor => 2,
    }
}

/// A greater condition number is never judged better, and the judgement changes right above
/// 10 and right above 25. One response below a tenth makes the solution poor whatever the
/// others are; without any the condition number alone decides.
pub proof fn law_planes_in_order(r: Seq<u64>, a: u64, b: u64, k: int)
    requires
        !is_nan(a),
        !is_nan(b),
        rank(a) <= rank(b),
        0 <= k < r.len(),
    ensures
        planes_order(planes_quality(r, a)) <= planes_order(planes_quality(r, b)),
        !is_nan(r[k]) && rank(r[k]) > -0x7FF0_0000_0000_0000 && rank(r[k])
            < 0x3FB9_9999_9999_999A ==> planes_quality(r, a) == TwoPlaneQuality::Poor,
        (forall|i: int|
            #![trigger r[i]]
            0 <= i < r.len() ==> !is_nan(r[i]) && rank(r[i]) >= 0x3FB9_9999_9999_999A) ==> {
            &&& planes_quality(r, 0x4024_0000_0000_0000) == TwoPlaneQuality::Good
            &&& planes_quality(r, 0x4024_0000_0000_0001) == TwoPlaneQuality::Marginal
            &&& planes_quality(r, 0x4039_0000_0000_0000) == TwoPlaneQuality::Marginal
            &&& planes_quality(r, 0x4039_0000_0000_0001) == TwoPlaneQuality::Poor
        },
{
    if !is_nan(r[k]) && rank(r[k]) > -0x7FF0_0000_0000_0000 && rank(r[k])
        < 0x3FB9_9999_9999_999A {
        assert(is_weak(r[k]));
    }
}

} // verus!
