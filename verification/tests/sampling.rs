use netmon::sampling::{resolve, SamplingInputs, SamplingOverflow, SamplingRate, SamplingSource};

#[test]
fn zero_is_not_a_constructible_rate() {
    assert_eq!(SamplingRate::new(0), None);
    assert_eq!(SamplingRate::new(1).unwrap().get(), 1);
    assert_eq!(SamplingRate::new(100).unwrap().get(), 100);
}

#[test]
fn apply_multiplies_raw_counters() {
    let rate = SamplingRate::new(100).unwrap();
    assert_eq!(rate.apply(50).unwrap(), 5000);
    assert_eq!(SamplingRate::unsampled().apply(50).unwrap(), 50);
}

#[test]
fn apply_reports_overflow_instead_of_wrapping() {
    let rate = SamplingRate::new(u32::MAX).unwrap();
    let result = rate.apply(u64::MAX);
    assert_eq!(result, Err(SamplingOverflow));
}

#[test]
fn priority_record_level_wins_over_everything() {
    let inputs = SamplingInputs {
        record_level: Some(10),
        options_template: Some(20),
        exporter_configured: Some(30),
        global_default: Some(40),
    };
    let resolved = resolve(&inputs);
    assert_eq!(resolved.rate.get(), 10);
    assert_eq!(resolved.source, SamplingSource::RecordLevel);
    assert!(!resolved.zero_rate_skipped);
}

#[test]
fn falls_through_to_options_template_when_record_level_absent() {
    let inputs = SamplingInputs {
        record_level: None,
        options_template: Some(20),
        exporter_configured: Some(30),
        global_default: Some(40),
    };
    let resolved = resolve(&inputs);
    assert_eq!(resolved.rate.get(), 20);
    assert_eq!(resolved.source, SamplingSource::OptionsTemplate);
}

#[test]
fn falls_through_to_exporter_configured() {
    let inputs = SamplingInputs {
        exporter_configured: Some(30),
        global_default: Some(40),
        ..Default::default()
    };
    let resolved = resolve(&inputs);
    assert_eq!(resolved.rate.get(), 30);
    assert_eq!(resolved.source, SamplingSource::ExporterConfigured);
}

#[test]
fn falls_through_to_global_default() {
    let inputs = SamplingInputs { global_default: Some(40), ..Default::default() };
    let resolved = resolve(&inputs);
    assert_eq!(resolved.rate.get(), 40);
    assert_eq!(resolved.source, SamplingSource::GlobalDefault);
}

#[test]
fn falls_back_to_unsampled_when_nothing_declared() {
    let resolved = resolve(&SamplingInputs::default());
    assert_eq!(resolved.rate.get(), 1);
    assert_eq!(resolved.source, SamplingSource::Unsampled);
    assert!(!resolved.zero_rate_skipped);
}

#[test]
fn an_explicit_zero_rate_is_rejected_and_falls_through() {
    let inputs = SamplingInputs {
        record_level: Some(0),
        options_template: Some(0),
        exporter_configured: Some(50),
        global_default: None,
    };
    let resolved = resolve(&inputs);
    assert_eq!(resolved.rate.get(), 50);
    assert_eq!(resolved.source, SamplingSource::ExporterConfigured);
    assert!(resolved.zero_rate_skipped);
}

#[test]
fn all_tiers_zero_falls_back_to_unsampled_and_flags_it() {
    let inputs = SamplingInputs {
        record_level: Some(0),
        options_template: Some(0),
        exporter_configured: Some(0),
        global_default: Some(0),
    };
    let resolved = resolve(&inputs);
    assert_eq!(resolved.rate.get(), 1);
    assert_eq!(resolved.source, SamplingSource::Unsampled);
    assert!(resolved.zero_rate_skipped);
}

#[test]
fn a_zero_below_the_chosen_tier_is_not_flagged() {
    let inputs = SamplingInputs { record_level: Some(7), options_template: Some(0), ..Default::default() };
    let resolved = resolve(&inputs);
    assert_eq!(resolved.rate.get(), 7);
    assert!(!resolved.zero_rate_skipped);
}

#[test]
fn default_filter_parses_when_rust_log_unset() {
    assert!("info".parse::<tracing::Level>().is_ok());
}
