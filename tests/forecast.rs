use vibe_cockpit::forecast::{
    rank_alternative_accounts, AccountKey, ForecastConfig, OracleError, RateLimitAction,
    RateLimitForecaster, UsageSample, Velocity, INDEFINITE_SECS,
};

const NOW: i64 = 1_700_000_000;

fn sample(provider: &str, account: &str, used_bp: u32, collected_at: i64) -> UsageSample {
    UsageSample {
        provider: provider.to_string(),
        account: account.to_string(),
        used_bp,
        collected_at,
        resets_at: None,
    }
}

/// Samples of one account, an hour back from `NOW` plus the given minutes.
fn make_samples(usages: &[(i64, u32)]) -> Vec<UsageSample> {
    let base = NOW - 3600;
    usages
        .iter()
        .map(|(minutes_offset, used_bp)| {
            sample("acme", "test@example.com", *used_bp, base + minutes_offset * 60)
        })
        .collect()
}

/// Percent per minute.
fn per_minute(v: Velocity) -> f64 {
    v.delta_bp as f64 * 60.0 / v.window_secs as f64 / 100.0
}

/// A velocity of `pct` percent per minute, given in hundredths of a percent per minute.
fn velocity(bp_per_min: i128) -> Velocity {
    Velocity { delta_bp: bp_per_min, window_secs: 60 }
}

#[test]
fn test_forecaster_new() {
    let forecaster = RateLimitForecaster::new();
    assert_eq!(forecaster.config().swap_now_threshold_secs, 300);
}

#[test]
fn test_forecaster_default() {
    let forecaster = RateLimitForecaster::default();
    assert_eq!(forecaster.config().prepare_swap_threshold_secs, 600);
}

#[test]
fn forecaster_with_config_keeps_it() {
    let config = ForecastConfig { swap_now_threshold_secs: 10, ..ForecastConfig::default() };
    let forecaster = RateLimitForecaster::with_config(config);
    assert_eq!(forecaster.config().swap_now_threshold_secs, 10);
    assert_eq!(forecaster.config().slow_down_factor, 70);
}

#[test]
fn test_calculate_velocity_increasing() {
    // 10% increase over 10 minutes = 1% per minute
    let samples = make_samples(&[(0, 5000), (5, 5500), (10, 6000)]);
    let velocity = RateLimitForecaster::calculate_velocity(&samples);
    assert!((per_minute(velocity) - 1.0).abs() < 0.1);
    assert_eq!(velocity, Velocity { delta_bp: 1000, window_secs: 600 });
}

#[test]
fn test_calculate_velocity_decreasing() {
    // 20% decrease over 10 minutes = -2% per minute
    let samples = make_samples(&[(0, 8000), (5, 7000), (10, 6000)]);
    let velocity = RateLimitForecaster::calculate_velocity(&samples);
    assert!(per_minute(velocity) < 0.0);
    assert!((per_minute(velocity) + 2.0).abs() < 0.01);
}

#[test]
fn test_calculate_velocity_constant() {
    let samples = make_samples(&[(0, 5000), (5, 5000), (10, 5000)]);
    let velocity = RateLimitForecaster::calculate_velocity(&samples);
    assert!(per_minute(velocity).abs() < 0.01);
}

#[test]
fn rate_limit_test_calculate_velocity_empty() {
    let velocity = RateLimitForecaster::calculate_velocity(&[]);
    assert_eq!(per_minute(velocity), 0.0);
}

#[test]
fn test_calculate_velocity_single_sample() {
    let samples = make_samples(&[(0, 5000)]);
    let velocity = RateLimitForecaster::calculate_velocity(&samples);
    assert_eq!(per_minute(velocity), 0.0);
}

#[test]
fn short_window_velocity_is_the_raw_difference() {
    // 10 seconds apart, 5% apart: 5.0 per minute, not 30.0
    let samples = vec![sample("acme", "a", 5000, NOW - 10), sample("acme", "a", 5500, NOW)];
    let velocity = RateLimitForecaster::calculate_velocity(&samples);
    assert_eq!(velocity, Velocity { delta_bp: 500, window_secs: 60 });
    assert_eq!(per_minute(velocity), 5.0);
}

#[test]
fn velocity_sign_follows_usage_over_a_minute_or_more() {
    let up = vec![sample("acme", "a", 1000, NOW - 60), sample("acme", "a", 1001, NOW)];
    let down = vec![sample("acme", "a", 1001, NOW - 600), sample("acme", "a", 1000, NOW)];
    assert!(per_minute(RateLimitForecaster::calculate_velocity(&up)) > 0.0);
    assert!(per_minute(RateLimitForecaster::calculate_velocity(&down)) < 0.0);
}

#[test]
fn test_calculate_time_to_limit_positive_velocity() {
    // At 80%, velocity 2% per minute -> 10 minutes to 100%
    let time = RateLimitForecaster::calculate_time_to_limit(8000, velocity(200));
    assert!((time as f64 - 600.0).abs() < 10.0);
    assert_eq!(time, 600);
}

#[test]
fn test_calculate_time_to_limit_zero_velocity() {
    let time = RateLimitForecaster::calculate_time_to_limit(5000, velocity(0));
    assert!(time > 1_000_000_000);
}

#[test]
fn test_calculate_time_to_limit_negative_velocity() {
    let time = RateLimitForecaster::calculate_time_to_limit(5000, velocity(-100));
    assert!(time > 1_000_000_000);
    assert_eq!(time, INDEFINITE_SECS);
}

#[test]
fn test_calculate_time_to_limit_already_at_limit() {
    let time = RateLimitForecaster::calculate_time_to_limit(10000, velocity(100));
    assert_eq!(time, 0);
    assert_eq!(RateLimitForecaster::calculate_time_to_limit(12000, velocity(100)), 0);
}

#[test]
fn test_determine_action_continue() {
    let forecaster = RateLimitForecaster::new();
    let action = forecaster.determine_action(2 * 3600, velocity(50));
    assert!(matches!(action, RateLimitAction::Continue));
}

#[test]
fn test_determine_action_slow_down() {
    let forecaster = RateLimitForecaster::new();
    // 20 minutes to limit, high velocity
    let action = forecaster.determine_action(20 * 60, velocity(200));
    match action {
        RateLimitAction::SlowDown { target_velocity } => {
            assert!((per_minute(target_velocity) - 1.4).abs() < 0.01); // 2.0 * 0.7
        }
        _ => panic!("Expected SlowDown"),
    }
}

#[test]
fn slow_velocity_near_the_limit_continues() {
    let forecaster = RateLimitForecaster::new();
    // 20 minutes to limit at exactly the high-velocity threshold
    assert_eq!(forecaster.determine_action(20 * 60, velocity(100)), RateLimitAction::Continue);
}

#[test]
fn test_determine_action_prepare_swap() {
    let forecaster = RateLimitForecaster::new();
    // 8 minutes to limit
    let action = forecaster.determine_action(8 * 60, velocity(50));
    match action {
        RateLimitAction::PrepareSwap { in_minutes } => {
            assert_eq!(in_minutes, 8);
        }
        _ => panic!("Expected PrepareSwap"),
    }
}

#[test]
fn test_determine_action_swap_now() {
    let forecaster = RateLimitForecaster::new();
    // 3 minutes to limit
    let action = forecaster.determine_action(3 * 60, velocity(50));
    match action {
        RateLimitAction::SwapNow { to_account } => assert!(to_account.is_empty()),
        _ => panic!("Expected SwapNow"),
    }
}

#[test]
fn test_determine_action_emergency() {
    let forecaster = RateLimitForecaster::new();
    let action = forecaster.determine_action(0, velocity(500));
    assert!(matches!(action, RateLimitAction::EmergencyPause));
}

#[test]
fn test_forecast_single_account() {
    let forecaster = RateLimitForecaster::new();
    let samples = make_samples(&[(0, 5000), (5, 5500), (10, 6000)]);
    let forecasts = forecaster.forecast(samples);

    assert_eq!(forecasts.len(), 1);
    let f = &forecasts[0];
    assert_eq!(f.provider, "acme");
    assert_eq!(f.account, "test@example.com");
    assert_eq!(f.current_usage_bp, 6000);
    assert!(per_minute(f.current_velocity) > 0.0);
}

#[test]
fn forecast_at_fills_every_field() {
    let forecaster = RateLimitForecaster::new();
    // 1% per minute from 60%: 40 minutes to the limit, seen 50 minutes ago
    let samples = make_samples(&[(0, 5000), (5, 5500), (10, 6000)]);
    let forecasts = forecaster.forecast_at(samples, NOW);
    assert_eq!(forecasts.len(), 1);
    let f = &forecasts[0];
    assert_eq!(f.time_to_limit, 2400);
    assert_eq!(f.recommended_action, RateLimitAction::Continue);
    assert_eq!(f.optimal_swap_time, Some(NOW + 1920));
    // 3/10 x 1 x 10/(10 + 50)
    assert_eq!(f.confidence, 1000);
    assert!(f.alternative_accounts.is_empty());
}

#[test]
fn test_forecast_multiple_accounts() {
    let base = NOW - 3600;
    let samples = vec![
        sample("acme", "acc1@example.com", 9000, base),
        sample("acme", "acc2@example.com", 2000, base),
    ];
    let forecaster = RateLimitForecaster::new();
    let forecasts = forecaster.forecast(samples);
    assert_eq!(forecasts.len(), 2);
}

#[test]
fn forecast_puts_the_most_urgent_account_first() {
    let samples = vec![
        sample("acme", "slow", 1000, NOW - 600),
        sample("acme", "fast", 5000, NOW - 600),
        sample("acme", "slow", 1100, NOW),
        sample("acme", "fast", 9000, NOW),
    ];
    let forecasts = RateLimitForecaster::new().forecast_at(samples, NOW);
    assert_eq!(forecasts.len(), 2);
    assert_eq!(forecasts[0].account, "fast");
    assert_eq!(forecasts[1].account, "slow");
    assert!(forecasts[0].time_to_limit <= forecasts[1].time_to_limit);
    // 4000 per 600 s: 10% left takes 150 s
    assert_eq!(forecasts[0].time_to_limit, 150);
    assert!(matches!(forecasts[0].recommended_action, RateLimitAction::SwapNow { .. }));
}

#[test]
fn forecast_orders_each_account_by_time() {
    // Given out of order, the run is read oldest first
    let samples = vec![
        sample("acme", "a", 6000, NOW),
        sample("acme", "a", 5000, NOW - 600),
    ];
    let forecasts = RateLimitForecaster::new().forecast_at(samples, NOW);
    assert_eq!(forecasts[0].current_usage_bp, 6000);
    assert_eq!(forecasts[0].current_velocity, Velocity { delta_bp: 1000, window_secs: 600 });
}

#[test]
fn test_forecast_empty() {
    let forecaster = RateLimitForecaster::new();
    let forecasts = forecaster.forecast(vec![]);
    assert!(forecasts.is_empty());
}

#[test]
fn forecast_single_needs_samples() {
    let forecaster = RateLimitForecaster::new();
    let key = AccountKey { provider: "acme".to_string(), account: "a".to_string() };
    assert!(matches!(
        forecaster.forecast_single(&key, &[], NOW),
        Err(OracleError::InsufficientData)
    ));
    let one = vec![sample("acme", "a", 10000, NOW)];
    let f = forecaster.forecast_single(&key, &one, NOW).unwrap();
    assert_eq!(f.time_to_limit, INDEFINITE_SECS);
    assert_eq!(f.optimal_swap_time, None);
}

#[test]
fn account_keys_and_samples_group_by_account() {
    let samples = vec![
        sample("acme", "a", 1, NOW),
        sample("globex", "a", 2, NOW),
        sample("acme", "a", 3, NOW - 5),
    ];
    let keys = RateLimitForecaster::account_keys(&samples);
    assert_eq!(keys.len(), 2);
    assert_eq!(keys[0].provider, "acme");
    assert_eq!(keys[1].provider, "globex");
    let run = RateLimitForecaster::account_samples(&samples, "acme", "a");
    assert_eq!(run.iter().map(|s| s.used_bp).collect::<Vec<_>>(), vec![3, 1]);
}

#[test]
fn group_by_account_keeps_first_appearance_and_time_order() {
    let samples = vec![
        sample("acme", "b", 10, NOW),
        sample("acme", "a", 20, NOW),
        sample("acme", "b", 30, NOW - 60),
        sample("acme", "b", 40, NOW - 60),
    ];
    let groups = RateLimitForecaster::group_by_account(&samples);
    assert_eq!(groups.len(), 2);
    assert_eq!(groups[0].0.account, "b");
    assert_eq!(groups[0].1.iter().map(|s| s.used_bp).collect::<Vec<_>>(), vec![30, 40, 10]);
    assert_eq!(groups[1].0.account, "a");
    assert_eq!(groups[1].1.len(), 1);
    assert!(RateLimitForecaster::group_by_account(&[]).is_empty());
}

#[test]
fn test_rank_alternative_accounts() {
    let samples = vec![
        sample("acme", "current@example.com", 9000, NOW),
        sample("acme", "alt1@example.com", 2000, NOW),
        sample("acme", "alt2@example.com", 5000, NOW),
        sample("globex", "other@example.com", 1000, NOW),
    ];

    let alternatives = rank_alternative_accounts(&samples, "acme", "current@example.com");

    assert_eq!(alternatives.len(), 2);
    assert_eq!(alternatives[0].0, "alt1@example.com");
    assert!((alternatives[0].1 as f64 / 100.0 - 80.0).abs() < 0.1);
    assert_eq!(alternatives[1].0, "alt2@example.com");
    assert!((alternatives[1].1 as f64 / 100.0 - 50.0).abs() < 0.1);
}

#[test]
fn test_rank_alternative_accounts_excludes_low_headroom() {
    let samples = vec![sample("acme", "alt@example.com", 9500, NOW)];
    let alternatives = rank_alternative_accounts(&samples, "acme", "current@example.com");
    assert!(alternatives.is_empty());
}

#[test]
fn rank_uses_the_highest_usage_seen() {
    let samples = vec![
        sample("acme", "alt", 7000, NOW - 60),
        sample("acme", "alt", 3000, NOW),
        sample("acme", "edge", 9000, NOW),
    ];
    let alternatives = rank_alternative_accounts(&samples, "acme", "current");
    // exactly 10% headroom is not enough
    assert_eq!(alternatives, vec![("alt".to_string(), 3000)]);
}

#[test]
fn test_calculate_variance() {
    assert_eq!(RateLimitForecaster::calculate_variance(&[]), 0);
    // one rate of 5% per minute
    let one = vec![sample("c", "a", 0, NOW - 60), sample("c", "a", 500, NOW)];
    assert_eq!(RateLimitForecaster::calculate_variance(&one), 0);
    // three equal rates
    let flat = make_samples(&[(0, 0), (1, 500), (2, 1000), (3, 1500)]);
    assert_eq!(RateLimitForecaster::calculate_variance(&flat), 0);
    // rates 1, 2, 3 -> mean 2, variance 2/3
    let rising = make_samples(&[(0, 0), (1, 100), (2, 300), (3, 600)]);
    let var = RateLimitForecaster::calculate_variance(&rising) as f64 / 100_000_000.0;
    assert!((var - 2.0 / 3.0).abs() < 0.01);
}

#[test]
fn test_calculate_confidence_increases_with_samples() {
    let samples_few = vec![sample("acme", "t", 5000, NOW - 300), sample("acme", "t", 5500, NOW)];
    let samples_many: Vec<UsageSample> = (0..6)
        .map(|i| sample("acme", "t", 5000 + 200 * i as u32, NOW - 600 + 120 * i))
        .collect();
    let conf_few = RateLimitForecaster::calculate_confidence_at(&samples_few, NOW);
    let conf_many = RateLimitForecaster::calculate_confidence_at(&samples_many, NOW);
    assert!(conf_many > conf_few, "conf_many={conf_many} should be > conf_few={conf_few}");
    assert_eq!(conf_few, 2000);
    assert_eq!(conf_many, 6000);
    let live_few = RateLimitForecaster::calculate_confidence(&samples_few, velocity(100));
    assert!((1000..=9900).contains(&live_few));
}

#[test]
fn confidence_bounds() {
    assert_eq!(RateLimitForecaster::calculate_confidence_at(&[], NOW), 1000);
    let many: Vec<UsageSample> = (0..12).map(|i| sample("c", "a", 5000, NOW - 60 * (11 - i))).collect();
    // ten or more steady, fresh samples are held at 99%
    assert_eq!(RateLimitForecaster::calculate_confidence_at(&many, NOW), 9900);
    // a single sample: variance taken as 1, so 1/10 x 1/2
    let one = vec![sample("c", "a", 5000, NOW)];
    assert_eq!(RateLimitForecaster::calculate_confidence_at(&one, NOW), 1000);
}

#[test]
fn test_optimal_swap_time_with_upcoming_reset() {
    // Reset in 30 minutes, limit in 60 minutes: the reset comes first
    let now = NOW;
    let optimal = RateLimitForecaster::calculate_optimal_swap_time_at(3600, Some(now + 1800), now);
    assert!(optimal.is_none());
    let live = RateLimitForecaster::calculate_optimal_swap_time(3600, Some(i64::MAX));
    assert!(live.is_some());
}

#[test]
fn test_optimal_swap_time_without_reset() {
    let optimal = RateLimitForecaster::calculate_optimal_swap_time_at(10 * 60, None, NOW);
    assert_eq!(optimal, Some(NOW + 480));
    let live = RateLimitForecaster::calculate_optimal_swap_time(10 * 60, None).unwrap();
    let diff = live - chrono::Utc::now().timestamp();
    assert!(diff > 400 && diff < 600);
}

#[test]
fn optimal_swap_time_none_at_or_beyond_the_ends() {
    assert_eq!(RateLimitForecaster::calculate_optimal_swap_time_at(0, None, NOW), None);
    assert_eq!(RateLimitForecaster::calculate_optimal_swap_time_at(INDEFINITE_SECS, None, NOW), None);
    // a reset already past does not count
    assert_eq!(
        RateLimitForecaster::calculate_optimal_swap_time_at(600, Some(NOW - 10), NOW),
        Some(NOW + 480)
    );
}
