use rssstv::bands::{stepped_frequency, BandPlan, BandValue, DEFAULT_PLAN, NO_BANDS};

const PLAN: &str = "[[bands]]\nname = \"40m\"\nlow = 7000000\nhigh = 7300000\nstep = 1000\n\
[[bands]]\nname = \"20m\"\nlow = 14000000\nhigh = 14350000\nstep = 1000\n";

fn setting<'a>(settings: &'a [(String, BandValue)], key: &str) -> Option<&'a BandValue> {
    settings.iter().find(|(name, _)| name == key).map(|(_, value)| value)
}

#[test]
fn every_setting_but_the_range_is_carried_through_untouched() {
    let plan = BandPlan::parse(
        "[[bands]]\n\
name = \"40m\"\n\
low = 7000000\n\
high = 7300000\n\
target = 7171000\n\
receive-mode = \"LSB\"\n\
monitor-gain = 0.15\n\
amplifier = true\n",
    )
    .unwrap();

    let band = plan.by_name("40m").unwrap();
    assert_eq!(band.low_hz, 7_000_000);
    assert_eq!(band.high_hz, 7_300_000);
    assert_eq!(setting(&band.settings, "target"), Some(&BandValue::Integer(7_171_000)));
    assert_eq!(setting(&band.settings, "receive-mode"), Some(&BandValue::Text("LSB".to_owned())));
    match setting(&band.settings, "monitor-gain") {
        Some(BandValue::Decimal(written)) => assert_eq!(written.parse::<f64>().unwrap(), 0.15),
        other => panic!("{other:?}"),
    }
    assert_eq!(setting(&band.settings, "amplifier"), Some(&BandValue::Flag(true)));
    assert!(setting(&band.settings, "low").is_none());
    assert!(setting(&band.settings, "name").is_none());
}

#[test]
fn a_band_that_names_no_range_is_dropped() {
    for written in [
        "[[bands]]\nlow = 1\nhigh = 2\n",
        "[[bands]]\nname = \"40m\"\n",
        "[[bands]]\nname = \"  \"\nlow = 1\nhigh = 2\n",
        "[[bands]]\nname = \"40m\"\nlow = 2\nhigh = 1\n",
        "[[bands]]\nname = \"40m\"\nlow = -1\nhigh = 2\n",
    ] {
        assert!(BandPlan::parse(written).unwrap().is_empty(), "{written}");
    }
}

#[test]
fn a_file_with_no_bands_in_it_is_refused_rather_than_read_as_empty() {
    assert!(BandPlan::parse("bands = 3\n").is_err());
    assert_eq!(BandPlan::parse("").unwrap_err(), NO_BANDS);
    assert!(BandPlan::parse("[[bands]\n").is_err());
}

#[test]
fn the_step_is_read_for_the_interface() {
    for (written, expected) in [("step = 1000", Some(1_000)), ("step = 0", None), ("step = \"1k\"", None), ("", None)] {
        let plan = BandPlan::parse(&format!(
            "[[bands]]\nname = \"40m\"\nlow = 7000000\nhigh = 7300000\n{written}\n"
        ))
        .unwrap();
        assert_eq!(plan.by_name("40m").unwrap().step_hz(), expected, "{written}");
    }
}

#[test]
fn a_frequency_names_the_band_it_sits_in() {
    let plan = BandPlan::built_in().unwrap();
    for (frequency, expected) in [
        (7_171_000, Some("40m")),
        (7_000_000, Some("40m")),
        (7_300_000, Some("40m")),
        (14_230_000, Some("20m")),
        (6_000_000, None),
        (0, None),
    ] {
        assert_eq!(plan.for_frequency(frequency).map(|band| band.name.as_str()), expected);
    }
}

#[test]
fn a_name_is_trimmed_and_the_order_is_kept() {
    let plan = BandPlan::parse("[[bands]]\nname = \" 80m \"\nlow = 3500000\nhigh = 3800000\n[[bands]]\nname = \"40m\"\nlow = 7000000\nhigh = 7300000\n").unwrap();
    let names: Vec<&str> = plan.bands().iter().map(|band| band.name.as_str()).collect();
    assert_eq!(names, vec!["80m", "40m"]);
    assert!(plan.by_name("10m").is_none());
}

#[test]
fn stepping_stays_inside_the_band() {
    let plan = BandPlan::parse(PLAN).unwrap();
    let band = plan.by_name("40m").unwrap();
    for (frequency, steps, expected) in [
        (7_100_000, -1, Some(7_099_000)),
        (7_100_000, 1, Some(7_101_000)),
        (7_100_000, 5, Some(7_105_000)),
        (7_000_000, -1, None),
        (7_300_000, 1, None),
        (7_100_000, i64::MAX, None),
    ] {
        assert_eq!(stepped_frequency(band, frequency, steps), expected, "{frequency} {steps}");
    }
}

#[test]
fn a_band_with_no_step_has_nothing_to_move_by() {
    let plan = BandPlan::parse("[[bands]]\nname = \"40m\"\nlow = 7000000\nhigh = 7300000\n").unwrap();
    assert_eq!(stepped_frequency(plan.by_name("40m").unwrap(), 7_100_000, 1), None);
}

#[test]
fn an_empty_plan_has_no_bands() {
    assert!(BandPlan::empty().is_empty());
    assert!(BandPlan::empty().for_frequency(7_100_000).is_none());
}

#[test]
fn the_built_in_plan_parses_and_is_ordered() {
    let plan = BandPlan::built_in().unwrap();
    assert!(!plan.is_empty());
    for pair in plan.bands().windows(2) {
        assert!(pair[0].high_hz < pair[1].low_hz, "{} and {} overlap", pair[0].name, pair[1].name);
    }
}

#[test]
fn a_missing_file_reads_the_built_in_plan() {
    let (plan, error) = BandPlan::from_file(None);
    assert!(error.is_none());
    assert_eq!(plan.bands().len(), BandPlan::parse(DEFAULT_PLAN).unwrap().bands().len());
    assert_eq!(plan.by_name("20m").unwrap().step_hz(), Some(1_000));
}

#[test]
fn a_malformed_file_is_reported_and_the_built_in_plan_used() {
    let (plan, error) = BandPlan::from_file(Some("bands = 3\n"));
    assert_eq!(error.as_deref(), Some(NO_BANDS));
    assert_eq!(plan.by_name("40m").unwrap().low_hz, 7_000_000);
    let (plan, error) = BandPlan::from_file(Some("[[bands]\n"));
    assert!(error.is_some());
    assert!(!plan.is_empty());
    let (plan, error) = BandPlan::from_file(Some(PLAN));
    assert!(error.is_none());
    assert_eq!(plan.bands().len(), 2);
    assert_eq!(BandPlan::built_in_or_empty().bands().len(), BandPlan::built_in().unwrap().bands().len());
}

#[test]
fn the_settings_come_out_in_key_order() {
    let plan = BandPlan::parse(
        "[[bands]]\nname = \"40m\"\nlow = 7000000\nhigh = 7300000\ntarget = 7171000\namplifier = true\nreceive-mode = \"LSB\"\nlist = [1, 2]\n",
    )
    .unwrap();
    let keys: Vec<&str> = plan.by_name("40m").unwrap().settings.iter().map(|(key, _)| key.as_str()).collect();
    assert_eq!(keys, vec!["amplifier", "receive-mode", "target"]);
}
