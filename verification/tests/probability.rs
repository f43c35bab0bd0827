use polytrade::config::{DivergenceConfig, ProbabilityConfig};
use polytrade::market_data::state::BtcState;
use polytrade::numeric::Double;
use polytrade::probability::edge::{score_edge, Direction, EdgeReason};
use polytrade::probability::estimator::{compute_estimate, compute_estimate_at, ProbabilityInput};
use polytrade::probability::momentum::{compute_momentum_adjustment, normalize};

fn d(x: f64) -> Double {
    Double::from_bits(x.to_bits())
}

fn f(x: Double) -> f64 {
    f64::from_bits(x.to_bits())
}

fn norm(value: f64, min: f64, max: f64) -> f64 {
    f(normalize(d(value), d(min), d(max)))
}

fn divergence() -> DivergenceConfig {
    DivergenceConfig {
        enabled: true,
        market_uncertainty_min: d(0.35),
        market_uncertainty_max: d(0.65),
        min_velocity_abs: d(0.1),
        min_velocity_consistency: d(0.5),
        velocity_scale: d(2.0),
        delta_scale: d(500000.0),
        min_edge_pct: d(0.03),
        min_confidence: d(0.3),
        max_expected_repricing: d(0.1),
        profit_target_pct: d(0.05),
        stop_loss_pct: d(0.03),
        exit_before_final_secs: 20,
        max_spread: d(0.04),
        require_volume_alignment: true,
        min_time_remaining_secs: 60,
        max_time_remaining_secs: 280,
    }
}

#[test]
fn normalize_extremes() {
    assert!((norm(2.0, -2.0, 2.0) - 1.0).abs() < 1e-10);
    assert!((norm(-2.0, -2.0, 2.0) - (-1.0)).abs() < 1e-10);
    assert!((norm(0.0, -2.0, 2.0) - 0.0).abs() < 1e-10);
}

#[test]
fn normalize_clamps() {
    assert!((norm(10.0, -2.0, 2.0) - 1.0).abs() < 1e-10);
    assert!((norm(-10.0, -2.0, 2.0) - (-1.0)).abs() < 1e-10);
}

#[test]
fn normalize_of_an_empty_range_is_zero() {
    assert_eq!(norm(7.0, 3.0, 3.0), 0.0);
}

#[test]
fn normalize_stays_within_one() {
    for i in -50..50 {
        let r = norm(i as f64 * 0.37, -2.0, 2.0);
        assert!((-1.0..=1.0).contains(&r));
    }
}

#[test]
fn momentum_weighs_velocity_and_delta() {
    let mut btc = BtcState::default();
    btc.price_velocity = d(1.0);
    btc.volume_delta = d(-250000.0);
    let config = ProbabilityConfig {
        max_momentum_adjustment: d(0.1),
        momentum_weight: d(0.6),
        delta_weight: d(0.4),
    };
    let r = compute_momentum_adjustment(&btc, &config);
    assert_eq!(f(r.momentum_signal), 0.5);
    assert_eq!(f(r.delta_signal), -0.5);
    assert_eq!(f(r.adjustment), (0.5 * 0.6 + -0.5 * 0.4) * 0.1);
}

#[test]
fn momentum_is_bounded_by_its_maximum() {
    let mut btc = BtcState::default();
    btc.price_velocity = d(1e9);
    btc.volume_delta = d(1e12);
    let config = ProbabilityConfig {
        max_momentum_adjustment: d(0.1),
        momentum_weight: d(0.5),
        delta_weight: d(0.5),
    };
    assert_eq!(f(compute_momentum_adjustment(&btc, &config).adjustment), 0.1);
}

#[test]
fn momentum_keeps_its_maximum_for_any_weights() {
    let mut btc = BtcState::default();
    btc.price_velocity = d(2.0);
    btc.volume_delta = d(500000.0);
    let mut config = ProbabilityConfig {
        max_momentum_adjustment: d(1.0),
        momentum_weight: d(1.0),
        delta_weight: d(1.0),
    };
    let r = compute_momentum_adjustment(&btc, &config);
    assert_eq!(f(r.momentum_signal), 1.0);
    assert_eq!(f(r.delta_signal), 1.0);
    assert_eq!(f(r.adjustment), 1.0);
    config.momentum_weight = d(-3.0);
    config.max_momentum_adjustment = d(0.25);
    assert_eq!(f(compute_momentum_adjustment(&btc, &config).adjustment), -0.25);
}

#[test]
fn normalize_keeps_order_and_reaches_the_ends() {
    for (min, max) in [(-2.0, 2.0), (0.1, 0.3), (-7.0, 1e9), (5.0, 5.0 + 1e-9)] {
        assert_eq!(norm(min, min, max), -1.0);
        assert_eq!(norm(max, min, max), 1.0);
        assert_eq!(norm(f64::NEG_INFINITY, min, max), -1.0);
        assert_eq!(norm(f64::INFINITY, min, max), 1.0);
        let mut last = -1.0;
        for i in -3..14 {
            let r = norm(min + (max - min) * i as f64 / 10.0, min, max);
            assert!(last <= r && r <= 1.0);
            last = r;
        }
    }
}

fn input(velocity: f64, delta: f64, secs: i64, spread: f64) -> ProbabilityInput {
    let mut btc = BtcState::default();
    btc.price_velocity = d(velocity);
    btc.volume_delta = d(delta);
    ProbabilityInput {
        market_id: "m".to_string(),
        current_yes_price: d(0.5),
        current_no_price: d(0.5),
        btc_state: btc,
        time_remaining_secs: secs,
        spread: d(spread),
    }
}

#[test]
fn estimate_stays_in_its_bounds() {
    for v in [-5.0, -1.0, -0.01, 0.0, 0.3, 2.0, 100.0] {
        for secs in [-5, 0, 30, 150, 300, 900] {
            for spread in [0.0, 0.02, 0.5] {
                let r = compute_estimate_at(&input(v, v * 1000.0, secs, spread), &divergence(), 9);
                assert_eq!(r.market_id, "m");
                assert_eq!(r.computed_at_ms, 9);
                assert!((0.0..=1.0).contains(&f(r.divergence_score)));
                assert!((0.0..=1.0).contains(&f(r.confidence)));
                assert!(f(r.expected_repricing).abs() <= 0.1);
            }
        }
    }
}

#[test]
fn estimate_is_held_to_shares_for_any_settings() {
    let mut config = divergence();
    config.max_expected_repricing = d(3.0);
    let r = compute_estimate_at(&input(2.0, 500000.0, 300, -5.0), &config, 9);
    assert_eq!(f(r.divergence_score), 1.0);
    assert_eq!(f(r.expected_repricing), 1.0);
    assert_eq!(f(r.confidence), 1.0);
    config.max_expected_repricing = d(-0.5);
    let r = compute_estimate_at(&input(2.0, 500000.0, 300, 0.01), &config, 9);
    assert_eq!(f(r.expected_repricing), 0.0);
    let r = compute_estimate_at(&input(f64::NAN, f64::NAN, 0, f64::NAN), &config, 9);
    assert!((0.0..=1.0).contains(&f(r.confidence)));
}

#[test]
fn estimate_takes_the_time_from_the_clock() {
    let r = compute_estimate(&input(1.0, 1.0, 100, 0.01), &divergence());
    assert!(r.computed_at_ms > 1_600_000_000_000);
}

fn score(repricing: f64, yes: f64, spread: f64, secs: i64, confidence: f64) -> Option<EdgeReason> {
    let r = score_edge(
        d(repricing),
        Direction::Yes,
        d(yes),
        d(1.0 - yes),
        d(spread),
        secs,
        d(confidence),
        &divergence(),
    );
    assert_eq!(r.tradeable, r.reason.is_none());
    r.reason
}

#[test]
fn edge_passes_every_gate() {
    assert!(score(0.05, 0.5, 0.02, 150, 0.5).is_none());
}

#[test]
fn edge_names_the_gate_that_fails() {
    assert!(matches!(
        score(0.05, 0.9, 0.02, 150, 0.5),
        Some(EdgeReason::OutsideUncertainty { .. })
    ));
    assert!(matches!(score(0.01, 0.5, 0.02, 150, 0.5), Some(EdgeReason::LowEdge { .. })));
    assert!(matches!(score(0.05, 0.5, 0.02, 150, 0.1), Some(EdgeReason::LowConfidence { .. })));
    assert!(matches!(score(0.05, 0.5, 0.2, 150, 0.5), Some(EdgeReason::WideSpread { .. })));
    assert!(matches!(
        score(0.05, 0.5, 0.02, 10, 0.5),
        Some(EdgeReason::TooLate { secs: 10, min_secs: 60 })
    ));
    assert!(matches!(
        score(0.05, 0.5, 0.02, 290, 0.5),
        Some(EdgeReason::TooEarly { secs: 290, max_secs: 280 })
    ));
}

#[test]
fn directions_have_names() {
    assert_eq!(Direction::Yes.as_str(), "YES");
    assert_eq!(Direction::No.as_str(), "NO");
}
