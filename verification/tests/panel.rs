use obscura::controls::{Editable, Group, Manual, Row, SliderTitle, build, caption, fps_choices, frame_duration, known, log_scale, padded, row, slider_title, split_camel, titled};
use obscura::number::Number;
use obscura::settings::{ControlDesc, Kind, Metadata};

fn n(x: f64) -> Number {
    Number::from_bits(x.to_bits())
}

fn control(name: &str, kind: Kind, len: usize, min: f64, max: f64, def: &[f64], enums: &[&str]) -> ControlDesc {
    ControlDesc {
        id: 1,
        name: name.into(),
        kind,
        len,
        min: n(min),
        max: n(max),
        def: def.iter().map(|d| n(*d)).collect(),
        enums: enums.iter().enumerate().map(|(i, n)| (i as i32, n.to_string())).collect(),
    }
}

#[test]
fn labels() {
    assert_eq!(split_camel("AeFlickerMode"), "Ae Flicker Mode");
}

#[test]
fn unknown_names_are_split_at_capitals() {
    assert_eq!(split_camel(""), "");
    assert_eq!(split_camel("HDR"), "H D R");
    assert_eq!(split_camel("lower_case"), "lower_case");
    assert_eq!(split_camel("aÉb"), "a Éb");
}

#[test]
fn known_controls_have_a_title_and_a_group() {
    // Without a catalogue a message is its own translation.
    for (name, title, group) in [
        ("ExposureTime", "Shutter Speed", Group::Exposure),
        ("FrameDurationLimits", "Frame Rate", Group::Exposure),
        ("AwbMode", "White Balance Preset", Group::Colour),
        ("LensPosition", "Focus Distance", Group::Focus),
        ("HdrMode", "HDR", Group::Image),
        ("TestPatternMode", "Test Pattern Mode", Group::Other),
    ] {
        let k = known(name);
        assert_eq!((k.title.as_str(), k.group), (title, group));
    }
    assert_eq!(titled("AeEnable", Some("Automatik".into())), "Automatik");
    assert_eq!(titled("NewControl", None), "New Control");
    assert!(log_scale("ExposureTime") && !log_scale("AnalogueGain"));
}

#[test]
fn rows_are_chosen_by_type_and_range() {
    let fps = Some((n(5.0), n(120.0)));
    let limits = control("FrameDurationLimits", Kind::Int, 2, 1.0, 2.0, &[], &[]);
    assert!(matches!(row(&limits, fps), Row::FrameRate(lo, hi) if lo == n(5.0) && hi == n(120.0)));
    assert!(matches!(row(&limits, None), Row::Hidden));
    assert!(matches!(row(&control("AeEnable", Kind::Bool, 1, 0.0, 1.0, &[1.0], &[]), fps), Row::Switch(true)));
    assert!(matches!(row(&control("AeEnable", Kind::Bool, 1, 0.0, 1.0, &[], &[]), fps), Row::Switch(false)));
    assert!(matches!(row(&control("AfMode", Kind::Int, 1, 0.0, 2.0, &[2.9], &["A", "B", "C"]), fps), Row::Labels(2)));
    assert!(matches!(row(&control("AfMode", Kind::Int, 1, 0.0, 2.0, &[7.0], &["A", "B"]), fps), Row::Labels(0)));
    assert!(matches!(row(&control("ColourGains", Kind::Float, 2, 0.0, 8.0, &[1.5], &[]), fps), Row::Sliders(v) if v == vec![n(1.5), n(0.0)]));
    assert!(matches!(row(&control("Matrix", Kind::Float, 9, 0.0, 8.0, &[], &[]), fps), Row::Hidden));
    assert!(matches!(row(&control("Fixed", Kind::Float, 1, 1.0, 1.0, &[], &[]), fps), Row::Hidden));
    assert!(matches!(row(&control("AfWindows", Kind::Other, 1, 0.0, 1.0, &[], &[]), fps), Row::Hidden));
    assert_eq!(padded(&vec![n(1.0), n(2.0)], 1, n(9.0)), vec![n(1.0)]);
}

#[test]
fn sliders_are_titled_by_their_element() {
    let gains = control("ColourGains", Kind::Float, 2, 0.0, 8.0, &[], &[]);
    assert!(matches!((slider_title(&gains, 0), slider_title(&gains, 1)), (SliderTitle::Red, SliderTitle::Blue)));
    assert!(matches!(slider_title(&control("Gamma", Kind::Float, 1, 0.0, 8.0, &[], &[]), 0), SliderTitle::Control));
    assert!(matches!(slider_title(&control("Other", Kind::Float, 3, 0.0, 8.0, &[], &[]), 2), SliderTitle::Numbered(3)));
}

#[test]
fn frame_rates_lie_in_the_cameras_range() {
    assert_eq!(fps_choices(n(4.5), n(120.5)), vec![120, 60, 30, 24, 15]);
    assert_eq!(fps_choices(n(29.5), n(30.4)), vec![30]);
    assert_eq!(fps_choices(n(0.5), n(10.5)), vec![]);
    assert_eq!(fps_choices(n(f64::NAN), n(240.0)), vec![]);
    for f in [240, 120, 60, 30, 24, 15, 7] {
        assert_eq!(frame_duration(f) as f64, (1e6 / f as f64).round());
    }
}

#[test]
fn manual_values_need_their_automatic_mode_off() {
    let controls = vec![
        control("AeEnable", Kind::Bool, 1, 0.0, 1.0, &[1.0], &[]),
        control("AfMode", Kind::Int, 1, 0.0, 2.0, &[2.0], &["AfModeManual", "AfModeAuto", "AfModeContinuous"]),
        control("AwbEnable", Kind::Bool, 1, 0.0, 1.0, &[1.0], &[]),
        control("ExposureTime", Kind::Int, 1, 100.0, 200000.0, &[16666.0], &[]),
        control("LensPosition", Kind::Float, 1, 0.0, 7.0, &[1.0], &[]),
    ];
    let (mut panel, rows) = build(&controls, None);
    assert_eq!(rows.len(), 5);
    assert_eq!((rows[3].known.group, rows[4].known.title.as_str()), (Group::Exposure, "Focus Distance"));
    assert_eq!(panel.sliders, vec!["ExposureTime".to_string(), "LensPosition".to_string()]);
    assert_eq!(panel.value("ExposureTime"), Some(n(16666.0)));
    assert_eq!(
        panel.update_dependencies(),
        Editable { exposure_time: false, analogue_gain: false, exposure_value: true, colour: false, lens_position: false }
    );
    // While a value is automatic, its row shows what the camera chose.
    let mut meta = Metadata::new();
    meta.insert("ExposureTime".into(), vec![n(20000.0)]);
    meta.insert("LensPosition".into(), vec![n(1.5)]);
    meta.insert("AnalogueGain".into(), vec![n(2.0)]);
    assert_eq!(panel.show_metadata(&meta), vec![("ExposureTime".to_string(), n(20000.0)), ("LensPosition".to_string(), n(1.5))]);
    panel.changed("AeEnable", vec![n(0.0)]);
    panel.changed("AfMode", vec![n(0.0)]);
    panel.changed("AwbEnable", vec![n(0.0)]);
    assert_eq!(
        panel.update_dependencies(),
        Editable { exposure_time: true, analogue_gain: true, exposure_value: false, colour: true, lens_position: true }
    );
    assert_eq!(panel.show_metadata(&meta), vec![]);
    // Modes of their own go before the switch for both.
    panel.changed("ExposureTimeMode", vec![n(0.0)]);
    let e = panel.update_dependencies();
    assert!(!e.exposure_time && e.analogue_gain && !e.exposure_value);
    panel.changed("AeEnable", vec![n(1.0)]);
    panel.changed("AnalogueGainMode", vec![n(1.0)]);
    let e = panel.update_dependencies();
    assert!(!e.exposure_time && e.analogue_gain && e.exposure_value);
}

#[test]
fn captions_are_those_of_the_known_controls() {
    assert_eq!(caption("AnalogueGain"), (Some("Sensitivity"), Group::Exposure));
    assert_eq!(caption("FocusFoM").0, None);
}

#[test]
fn the_panel_tells_what_was_taken_over() {
    let controls = vec![
        control("AfMode", Kind::Int, 1, 0.0, 2.0, &[2.0], &["AfModeManual", "AfModeAuto", "AfModeContinuous"]),
        control("AeEnable", Kind::Bool, 1, 0.0, 1.0, &[1.0], &[]),
        control("AwbEnable", Kind::Bool, 1, 0.0, 1.0, &[1.0], &[]),
    ];
    let (mut panel, _) = build(&controls, None);
    let none = Manual { exposure: false, gain: false, white_balance: false, focus: false, single: false };
    assert_eq!(panel.manual(&controls), none);
    panel.changed("AfMode", vec![n(1.0)]);
    assert_eq!(panel.manual(&controls), Manual { single: true, ..none });
    panel.changed("AfMode", vec![n(0.0)]);
    panel.changed("AeEnable", vec![n(0.0)]);
    panel.changed("AwbEnable", vec![n(0.0)]);
    assert_eq!(panel.manual(&controls), Manual { exposure: true, gain: true, white_balance: true, focus: true, single: false });
    // Without the controls nothing is at a label of theirs.
    assert_eq!(panel.manual(&vec![]), Manual { exposure: true, gain: true, white_balance: true, focus: false, single: false });
}
