use num_complex::Complex64;
use vibrometer::balance::{measurable, BalanceError, Regime, TrialQuality, TwoPlaneQuality};
use vibrometer::chart::{
    channel_shown, count_axes, points_per_group, visible_lanes, ChartInput, ChartState,
};
use vibrometer::keyphasor::{
    block_source, keyphasor_indices, revolution_ranges, smooth_window, trail_window,
    tsa_revolutions, BlockSource,
};
use vibrometer::protocol::Sample;
use vibrometer::ranking::{
    crossing, dominant, equal_numbers, greatest, interval_of, order_of, Interval,
};
use vibrometer::session::Selection;
use vibrometer::timeline::{
    cursor_revolution, kp_flag_levels, kp_flag_spans, kp_flag_spans_fit, kp_ticks_to_offsets,
    phase_source, speed_percentiles, tacho_steps, PhaseSource, SYSTIMER_TICKS_PER_S,
};
use vibrometer::types::{AdcCount, SampleIndex, SampleRateHz};

fn sample(ch0: i32, ch1: i32, keyphasor: bool) -> Sample {
    Sample {
        ch0: AdcCount(ch0),
        ch1: AdcCount(ch1),
        flags: if keyphasor { Sample::KEYPHASOR_FLAG } else { 0 },
        tick: 0,
    }
}

fn level(tick: u64, high: bool) -> Sample {
    Sample {
        ch0: AdcCount(0),
        ch1: AdcCount(0),
        flags: if high { Sample::KEYPHASOR_LEVEL_FLAG } else { 0 },
        tick,
    }
}

fn bits(values: &[f64]) -> Vec<u64> {
    values.iter().map(|v| v.to_bits()).collect()
}

#[test]
fn keyphasor_indices_extract_relative_positions() {
    let samples = vec![
        sample(0, 0, false),
        sample(1, 1, true),
        sample(2, 2, false),
        sample(3, 3, true),
    ];
    assert_eq!(keyphasor_indices(&samples), vec![SampleIndex(1), SampleIndex(3)]);
}

#[test]
fn tacho_steps_basic() {
    let start = 1_000_000u64;
    let kp_ticks = vec![start, start + 1_600_000];
    let end = start + 3_200_000;

    let hz = SYSTIMER_TICKS_PER_S as f64;
    let steps = tacho_steps(&kp_ticks, start, end);
    assert_eq!(steps.len(), 1);
    let rpm = 60.0 * hz / (steps[0].end - steps[0].start) as f64;
    let t_start = steps[0].start as f64 / hz;
    let t_end = steps[0].end as f64 / hz;
    assert!((rpm - 600.0).abs() < 0.01);
    assert!((t_start - 0.0).abs() < 1e-9);
    assert!((t_end - 0.1).abs() < 1e-6);
}

#[test]
fn tacho_steps_empty_without_keyphasor() {
    let steps = tacho_steps(&[], 0, 1_000_000);
    assert!(steps.is_empty());
}

#[test]
fn blocks_are_analysed_by_their_edges() {
    let rate = SampleRateHz(2000);
    assert_eq!(block_source(rate, 64, 3), Some(BlockSource::Tsa));
    assert_eq!(block_source(rate, 64, 2), Some(BlockSource::Keyphasor));
    assert_eq!(block_source(rate, 64, 1), Some(BlockSource::Spectrum));
    assert_eq!(block_source(rate, 63, 3), None);
    assert_eq!(block_source(SampleRateHz(0), 64, 3), None);
    let edges: Vec<SampleIndex> = [5, 10, 11, 30, 200].iter().map(|&i| SampleIndex(i)).collect();
    assert_eq!(tsa_revolutions(&edges, 100), vec![(5, 10), (11, 30)]);
    assert_eq!(tsa_revolutions(&edges[..1].to_vec(), 100), vec![]);
}

#[test]
fn revolutions_get_their_samples() {
    let samples: Vec<Sample> = (0..10).map(|i| level(i * 10, false)).collect();
    assert_eq!(revolution_ranges(&samples, &[5, 30, 31, 62]), vec![(0, 1, 3), (1, 3, 4), (2, 4, 7)]);
    assert_eq!(revolution_ranges(&samples, &[500, 600]), vec![]);
    assert_eq!(smooth_window(5, 5, 100), (3, 8));
    assert_eq!(smooth_window(0, 5, 100), (0, 3));
    assert_eq!(smooth_window(99, 5, 100), (97, 100));
    assert_eq!(trail_window(10, 100), (0, 35));
    assert_eq!(trail_window(90, 100), (66, 100));
}

#[test]
fn edges_within_a_view() {
    assert_eq!(kp_ticks_to_offsets(&[5, 10, 15, 20], 10, 20), vec![0, 5]);
    assert_eq!(cursor_revolution(17, &[5, 10, 15, 21]), Some((2, 6)));
    assert_eq!(cursor_revolution(10, &[5, 10, 15]), Some((0, 5)));
    assert_eq!(cursor_revolution(4, &[5, 10, 15]), None);
    assert_eq!(cursor_revolution(15, &[5, 10, 15]), None);
    assert_eq!(phase_source(1, true), PhaseSource::Nothing);
    assert_eq!(phase_source(2, true), PhaseSource::Loop);
    assert_eq!(phase_source(3, true), PhaseSource::Spline);
    assert_eq!(phase_source(30, false), PhaseSource::Loop);
}

#[test]
fn levels_cover_the_view() {
    let samples = vec![
        level(100, false),
        level(110, true),
        level(120, true),
        level(130, false),
        level(140, true),
    ];
    let spans = kp_flag_spans(&samples, 100);
    assert_eq!(spans[0], (10, 30));
    let steps = kp_flag_levels(&spans, 60);
    assert_eq!(steps[0].from, 0);
    assert_eq!(steps[steps.len() - 1].to, 60);
    for w in steps.windows(2) {
        assert_eq!(w[0].to, w[1].from);
        assert_ne!(w[0].high, w[1].high);
    }
    assert!(!steps[0].high && steps[1].high);
}

#[test]
fn percentiles_by_floats() {
    for n in 1usize..3000 {
        let lo = (n as f64 * 0.02) as usize;
        let hi = ((n as f64 * 0.98) as usize).max(lo + 1).min(n - 1);
        assert_eq!(speed_percentiles(n), (lo, hi), "{}", n);
    }
}

fn still() -> ChartInput {
    ChartInput {
        hovered: true,
        pointer_t: Some(1f64.to_bits()),
        pin_click_t: None,
        scrolled: false,
        value_key: false,
        lane: Some(0),
        dragged: false,
        shift: false,
        press_t: 0,
        range_from_press: Selection { t_from: 0, t_to: 0 },
        range_from_anchor: Selection { t_from: 0, t_to: 0 },
        drag_moves_x: false,
        drag_moves_y: false,
        drag_stopped: false,
        double_clicked: false,
        clicked: false,
        escape: false,
    }
}

#[test]
fn charts_take_input() {
    let mut c = ChartState::new();
    let m = c.handle_input(still());
    assert!(!m.zoom_x && !m.pan_x && !m.fit_all);
    assert_eq!(c.active_cursor_t(), Some(1f64.to_bits()));
    let m = c.handle_input(ChartInput { scrolled: true, ..still() });
    assert!(m.zoom_x && m.zoom_y.is_none());
    let m = c.handle_input(ChartInput { scrolled: true, value_key: true, lane: Some(2), ..still() });
    assert_eq!((m.zoom_x, m.zoom_y), (false, Some(2)));
    // A range is drawn from where the button went down.
    let from_press = Selection { t_from: 1, t_to: 2 };
    let from_anchor = Selection { t_from: 1, t_to: 5 };
    let drag = ChartInput {
        dragged: true,
        shift: true,
        press_t: 1,
        range_from_press: from_press,
        range_from_anchor: from_anchor,
        ..still()
    };
    c.handle_input(drag);
    assert_eq!((c.selecting, c.selection), (true, Some(from_press)));
    c.handle_input(drag);
    assert_eq!((c.sel_anchor, c.selection), (1, Some(from_anchor)));
    c.handle_input(ChartInput { drag_stopped: true, ..still() });
    assert!(!c.selecting);
    c.handle_input(ChartInput { escape: true, ..still() });
    assert_eq!(c.selection, None);
    // A pinned cursor stays until it is pinned again.
    c.handle_input(ChartInput { pin_click_t: Some(7), ..still() });
    assert_eq!(c.active_cursor_t(), Some(7));
    c.handle_input(ChartInput { pin_click_t: Some(9), ..still() });
    assert_eq!(c.active_cursor_t(), Some(1f64.to_bits()));
    let m = c.handle_input(ChartInput { double_clicked: true, ..still() });
    assert!(m.fit_all);
}

#[test]
fn charts_lay_out_lanes() {
    assert_eq!(visible_lanes(&[true, false, true]), vec![0, 2]);
    assert_eq!(count_axes(&vec![]), 1);
    assert_eq!(count_axes(&vec![0, 2, 1]), 3);
    assert_eq!(points_per_group(100, 0), None);
    assert_eq!(points_per_group(100, 100), Some(1));
    assert_eq!(points_per_group(1000, 100), Some(5));
    assert!(channel_shown(0, 0) && channel_shown(2, 1) && !channel_shown(0, 1));
}

#[test]
fn values_are_ordered() {
    let keys = bits(&[3.0, -1.0, 0.0, -0.0, 1e300, -1e-300, 3.0]);
    assert_eq!(order_of(&keys), vec![1, 5, 2, 3, 0, 6, 4]);
    assert_eq!(greatest(&keys), Some(4));
    assert_eq!(greatest(&bits(&[2.0, 5.0, 5.0, 1.0])), Some(2));
    assert_eq!(greatest(&vec![]), None);
    assert_eq!(dominant(&bits(&[9.0, 1.0, 4.0, 4.0, 2.0]), 1, 4), 2);
    assert_eq!(dominant(&bits(&[9.0, 0.0, f64::NAN, -4.0]), 1, 3), 1);
    let wave = bits(&[0.0, 1.0, 3.0, 5.0, 2.0, 0.5]);
    let level = 2.5f64.to_bits();
    assert_eq!(crossing(&wave, 0, 3, level, true), Some(1));
    assert_eq!(crossing(&wave, 3, 5, level, false), Some(3));
    assert_eq!(crossing(&wave, 3, 5, level, true), None);
    let knots = bits(&[-2.0, 0.0, 10.0, 20.0]);
    assert_eq!(interval_of(&knots, (-2.0f64).to_bits()), Interval::Before);
    assert_eq!(interval_of(&knots, 20f64.to_bits()), Interval::After);
    assert_eq!(interval_of(&knots, (-1.0f64).to_bits()), Interval::Within(0));
    assert_eq!(interval_of(&knots, 0f64.to_bits()), Interval::Within(1));
    assert_eq!(interval_of(&knots, 19.9f64.to_bits()), Interval::Within(2));
}

/// A vibration vector as amplitude and phase.
fn change(v0: (f64, f64), v1: (f64, f64)) -> f64 {
    let re = v1.0 * v1.1.cos() - v0.0 * v0.1.cos();
    let im = v1.0 * v1.1.sin() - v0.0 * v0.1.sin();
    re.hypot(im)
}

fn trial(v0: (f64, f64), v1: (f64, f64)) -> (f64, TrialQuality) {
    let ratio = change(v0, v1) / v0.0;
    (ratio, TrialQuality::of_response(v0.0.to_bits(), ratio.to_bits()))
}

#[test]
fn test_check_trial_good() {
    let (ratio, quality) = trial((100.0, 0.0), (150.0, 0.3));
    assert!(ratio > 0.15 && ratio < 3.0);
    assert_eq!(quality, TrialQuality::Good);
}

#[test]
fn test_check_trial_too_weak() {
    let (_, quality) = trial((100.0, 0.0), (101.0, 0.0));
    assert_eq!(quality, TrialQuality::TooWeak);
}

#[test]
fn test_check_trial_too_strong() {
    let (_, quality) = trial((100.0, 0.0), (500.0, 0.0));
    assert_eq!(quality, TrialQuality::TooStrong);
}

#[test]
fn trial_limits() {
    let q = |initial: f64, ratio: f64| TrialQuality::of_response(initial.to_bits(), ratio.to_bits());
    assert_eq!(q(1.0, 0.3), TrialQuality::Good);
    assert_eq!(q(1.0, 0.299), TrialQuality::TooWeak);
    assert_eq!(q(1.0, 2.0), TrialQuality::Good);
    assert_eq!(q(1.0, 2.001), TrialQuality::TooStrong);
    assert_eq!(q(1e-11, 1.0), TrialQuality::InitialTooLow);
    assert_eq!(q(1e-10, 1.0), TrialQuality::Good);
    assert_eq!(TrialQuality::Good.text(), "OK");
    assert_eq!(TrialQuality::InitialTooLow.text(), "начальная вибрация ~0, ротор сбалансирован?");
}

#[test]
fn errors_by_size() {
    let change = |x: f64| BalanceError::of_change(x.to_bits());
    assert_eq!(change(1e-10), Some(BalanceError::TrialResponseTooWeak));
    assert_eq!(change(1.1e-10), None);
    assert_eq!(change(f64::NAN), None);
    let det = |x: f64| BalanceError::of_determinant(x.to_bits());
    assert_eq!(det(1e-30), Some(BalanceError::SingularMatrix));
    assert_eq!(det(1.1e-30), None);
    assert_eq!(det(0.0), Some(BalanceError::SingularMatrix));
    assert!(measurable(1.1e-10f64.to_bits()) && !measurable(1e-10f64.to_bits()));
}

#[test]
fn regimes_by_ratio() {
    let r = |x: f64| Regime::of_ratio(x.to_bits());
    assert_eq!(r(1500.0 / 3000.0), Regime::SubResonance);
    assert_eq!(r(0.7), Regime::Resonance);
    assert_eq!(r(1.0), Regime::Resonance);
    assert_eq!(r(2500.0 / 3000.0), Regime::Resonance);
    assert_eq!(r(1.3), Regime::Resonance);
    assert_eq!(r(4500.0 / 3000.0), Regime::SuperResonance);
    assert_eq!(r(-1.0), Regime::SubResonance);
    assert_eq!(Regime::Resonance.text(), "резонансный (w ≈ w_cr)");
}

#[test]
fn planes_by_condition() {
    let q = |r: f64, c: f64| {
        TwoPlaneQuality::of_runs(r.to_bits(), 1f64.to_bits(), 1f64.to_bits(), 1f64.to_bits(), c.to_bits())
    };
    assert_eq!(q(0.5, 10.0), TwoPlaneQuality::Good);
    assert_eq!(q(0.5, 10.1), TwoPlaneQuality::Marginal);
    assert_eq!(q(0.5, 25.1), TwoPlaneQuality::Poor);
    assert_eq!(q(0.5, f64::INFINITY), TwoPlaneQuality::Poor);
    assert_eq!(q(0.0999, 1.0), TwoPlaneQuality::Poor);
    assert_eq!(q(0.1, 1.0), TwoPlaneQuality::Good);
    assert_eq!(q(f64::INFINITY, 1.0), TwoPlaneQuality::Good);
    assert_eq!(TwoPlaneQuality::Good.text(), "OK");
    assert_eq!(
        BalanceError::SingularMatrix.text(),
        "матрица коэффициентов влияния вырождена: пробные грузы дали слабый или одинаковый отклик"
    );
}

/// Speeds and amplitudes of a Jeffcott rotor.
struct Bode {
    rpm: Vec<f64>,
    amplitude: Vec<f64>,
}

impl Bode {
    fn synthetic(rpm_cr: f64, zeta: f64, a0: f64, rpm_min: f64, rpm_max: f64, n: usize) -> Bode {
        let step = (rpm_max - rpm_min) / (n - 1) as f64;
        let mut bode = Bode { rpm: Vec::new(), amplitude: Vec::new() };
        for i in 0..n {
            bode.push(rpm_min + i as f64 * step, rpm_cr, zeta, a0);
        }
        bode
    }

    fn push(&mut self, rpm: f64, rpm_cr: f64, zeta: f64, a0: f64) {
        let r = rpm / rpm_cr;
        let r2 = r * r;
        self.rpm.push(rpm);
        self.amplitude.push(a0 * r2 / ((1.0 - r2).powi(2) + (2.0 * zeta * r).powi(2)).sqrt());
    }

    fn critical_rpm(&self) -> f64 {
        self.rpm[greatest(&bits(&self.amplitude)).unwrap()]
    }

    fn regime_at(&self, rpm: f64) -> Regime {
        Regime::of_ratio((rpm / self.critical_rpm()).to_bits())
    }

    fn damping_ratio(&self) -> f64 {
        let order = order_of(&bits(&self.rpm));
        let rpm: Vec<f64> = order.iter().map(|&i| self.rpm[i]).collect();
        let amplitude: Vec<f64> = order.iter().map(|&i| self.amplitude[i]).collect();
        let keys = bits(&amplitude);
        let peak = greatest(&keys).unwrap();
        let level = amplitude[peak] / 2.0_f64.sqrt();
        let at = |k: usize| {
            let frac = (level - amplitude[k]) / (amplitude[k + 1] - amplitude[k]);
            rpm[k] + frac * (rpm[k + 1] - rpm[k])
        };
        let low = crossing(&keys, 0, peak, level.to_bits(), true).unwrap();
        let high = crossing(&keys, peak, keys.len() - 1, level.to_bits(), false).unwrap();
        (at(high) - at(low)) / (2.0 * rpm[peak])
    }
}

#[test]
fn test_critical_rpm_detection() {
    let bode = Bode::synthetic(3000.0, 0.05, 100.0, 1000.0, 5000.0, 100);
    assert!((bode.critical_rpm() - 3000.0).abs() < 50.0);
}

#[test]
fn test_damping_ratio() {
    let bode = Bode::synthetic(3000.0, 0.1, 100.0, 500.0, 5500.0, 200);
    assert!((bode.damping_ratio() - 0.1).abs() < 0.02);
}

#[test]
fn test_regime_sub_resonance() {
    let bode = Bode::synthetic(3000.0, 0.05, 100.0, 500.0, 5000.0, 100);
    assert_eq!(bode.regime_at(1500.0), Regime::SubResonance);
}

#[test]
fn test_regime_resonance() {
    let bode = Bode::synthetic(3000.0, 0.05, 100.0, 500.0, 5000.0, 100);
    assert_eq!(bode.regime_at(3000.0), Regime::Resonance);
    assert_eq!(bode.regime_at(2500.0), Regime::Resonance);
}

#[test]
fn test_regime_super_resonance() {
    let bode = Bode::synthetic(3000.0, 0.05, 100.0, 500.0, 5000.0, 100);
    assert_eq!(bode.regime_at(4500.0), Regime::SuperResonance);
}

#[test]
fn test_incremental_building() {
    let mut bode = Bode { rpm: Vec::new(), amplitude: Vec::new() };
    assert!(bode.rpm.is_empty());
    for rpm in (1000..=5000).step_by(100) {
        bode.push(rpm as f64, 3000.0, 0.05, 100.0);
    }
    assert_eq!(bode.rpm.len(), 41);
    assert!((bode.critical_rpm() - 3000.0).abs() < 100.0);
}

/// The vibration at both sensors before and after the trial weights, each as amplitude
/// and phase, and the trial weights as mass and angle.
fn diagnose(
    v0: [(f64, f64); 2],
    v1: [(f64, f64); 2],
    v2: [(f64, f64); 2],
    trial_1: (f64, f64),
    trial_2: (f64, f64),
) -> (f64, TwoPlaneQuality) {
    let c = |v: (f64, f64)| Complex64::from_polar(v.0, v.1);
    let ratio = |v: (f64, f64), base: (f64, f64)| {
        if measurable(base.0.to_bits()) {
            change(base, v) / base.0
        } else {
            f64::INFINITY
        }
    };
    let a11 = (c(v1[0]) - c(v0[0])) / c(trial_1);
    let a12 = (c(v2[0]) - c(v0[0])) / c(trial_2);
    let a21 = (c(v1[1]) - c(v0[1])) / c(trial_1);
    let a22 = (c(v2[1]) - c(v0[1])) / c(trial_2);
    let det = a11 * a22 - a12 * a21;
    let norm = [a11, a12, a21, a22].iter().map(|a| a.norm_sqr()).sum::<f64>();
    let condition = match BalanceError::of_determinant(det.norm().to_bits()) {
        Some(_) => f64::INFINITY,
        None => norm / det.norm(),
    };
    let quality = TwoPlaneQuality::of_runs(
        ratio(v1[0], v0[0]).to_bits(),
        ratio(v1[1], v0[1]).to_bits(),
        ratio(v2[0], v0[0]).to_bits(),
        ratio(v2[1], v0[1]).to_bits(),
        condition.to_bits(),
    );
    (condition, quality)
}

#[test]
fn test_diagnose_2planes_good_matrix() {
    let (condition, quality) = diagnose(
        [(100.0, 0.0), (80.0, 0.2)],
        [(150.0, 0.1), (100.0, 0.3)],
        [(110.0, 0.5), (145.0, -0.2)],
        (5.0, 0.0),
        (5.0, std::f64::consts::PI / 2.0),
    );
    assert_eq!(quality, TwoPlaneQuality::Good);
    assert!(condition.is_finite());
    assert!(condition < 10.0);
}

#[test]
fn test_diagnose_2planes_poor_matrix() {
    let (condition, quality) = diagnose(
        [(100.0, 0.0), (100.0, 0.0)],
        [(105.0, 0.0), (105.0, 0.0)],
        [(105.0, 0.0), (105.0, 0.0)],
        (5.0, 0.0),
        (5.0, std::f64::consts::PI / 2.0),
    );
    assert_eq!(quality, TwoPlaneQuality::Poor);
    assert!(condition > 20.0 || !condition.is_finite());
}

#[test]
fn only_the_ends_of_spans_count() {
    let mut samples = vec![level(100, false), level(50, false), level(110, true), level(60, true)];
    assert!(!kp_flag_spans_fit(&samples, 100));
    samples.push(level(120, false));
    assert!(kp_flag_spans_fit(&samples, 100));
    assert_eq!(kp_flag_spans(&samples, 100), vec![(10, 20)]);
    samples.push(level(130, true));
    assert_eq!(kp_flag_spans(&samples, 100), vec![(10, 20), (30, 30)]);
    samples.push(level(99, false));
    assert!(!kp_flag_spans_fit(&samples, 100));
    assert!(kp_flag_spans_fit(&[], 7));
}

#[test]
fn numbers_that_are_equal() {
    let values = [0.0, -0.0, 1.0, -1.0, f64::INFINITY, f64::NEG_INFINITY, f64::NAN, 5e-324];
    for a in values {
        for b in values {
            assert_eq!(equal_numbers(a.to_bits(), b.to_bits()), a == b);
        }
    }
}
