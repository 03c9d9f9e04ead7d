use obscura::camera::{CameraInfo, Facing, Location, acceptable, configures_as, found, fourcc, frame_duration_range, pick_format};
use obscura::device::{Display, degrees, turned, upright};
use obscura::modes::{Format, Mode, candidate_modes, has_mode, is_ratio_near, sensor_modes, sort_by_area, viewfinder_mode};
use obscura::number::Number;
use obscura::settings::{
    ControlInfo, ControlList, ControlValue, Kind, Metadata, Rectangle, choose_setting, control_type, control_value, describe_controls, numbers, read_metadata, seed,
    settled, start_controls,
};
use obscura::viewfinder::{MemoryFormat, Plane, Texture, memory_format, texture};

fn n(x: f64) -> Number {
    Number::from_bits(x.to_bits())
}

fn m(width: u32, height: u32) -> Mode {
    Mode { width, height }
}

fn code(c: &[u8; 4]) -> u32 {
    u32::from_le_bytes(*c)
}

#[test]
fn landscape_turns_the_picture_back() {
    // Pixel 2 XL back camera (270) held with its left edge up: the
    // world looks a quarter turn anticlockwise, so add a clockwise one.
    assert_eq!(upright(270, false, 90), 0);
    assert_eq!(upright(90, true, 90), 0);
    assert_eq!(upright(270, false, 0), 270);
    assert_eq!(degrees("right-up"), Some(270));
}

#[test]
fn turns_stay_below_a_full_one() {
    for d in [0, 1, 359, 360, 361, -1, -360, -361, i32::MAX as i64, i32::MIN as i64] {
        assert_eq!(turned(d) as i64, d.rem_euclid(360));
    }
    assert_eq!(upright(10, true, 370), upright(10, true, 10));
    assert_eq!(upright(10, true, -30), upright(10, false, 30));
    assert_eq!(upright(upright(90, false, 100), false, 200), upright(90, false, 300));
    assert_eq!(["normal", "left-up", "bottom-up", "undefined"].map(degrees), [Some(0), Some(90), Some(180), None]);
}

#[test]
fn the_display_turns_with_the_device() {
    // A phone, held upright, then turned with the screen following it.
    let mut d = Display { device: 0, natural_landscape: None, rotation: 0 };
    assert!(!d.update(false));
    d.device = 90;
    assert!(d.update(true) && d.rotation == 90);
    assert!(!d.update(true));
    d.device = 270;
    assert!(d.update(true) && d.rotation == 270);
    // The screen does not follow.
    assert!(d.update(false) && d.rotation == 0);
    // A tablet whose natural orientation is landscape.
    let mut t = Display { device: 180, natural_landscape: None, rotation: 0 };
    assert!(!t.update(true) && t.natural_landscape == Some(true));
    t.device = 90;
    assert!(!t.update(true));
    assert!(t.update(false) && t.rotation == 90);
    // Never seen upright: a phone.
    let mut u = Display { device: 90, natural_landscape: None, rotation: 0 };
    assert!(u.update(true) && u.natural_landscape.is_none());
}

#[test]
fn cameras_are_named_by_where_they_are() {
    let c = found("/base/imx362", Some("imx\u{7}362"), Some(Location::CameraBack));
    assert_eq!((c.model.as_str(), c.facing, c.rotation), ("imx362", Facing::Back, 0));
    assert_eq!(c.caption(), Some("Back Camera"));
    assert_eq!(c.named(Some("Kamera".into())), "Kamera");
    // Without a catalogue a message is its own translation.
    assert_eq!(c.name(), "Back Camera");
    let c = found("usb-1", Some(" \u{0}\u{2003}"), Some(Location::CameraExternal));
    assert_eq!((c.model.as_str(), c.facing, c.name()), ("usb-1", Facing::External, "usb-1".to_string()));
    let c = found("usb-2", None, None);
    assert_eq!((c.model.as_str(), c.facing), ("usb-2", Facing::External));
    assert_eq!(found("f", Some("x"), Some(Location::CameraFront)).name(), "Front Camera");
    let copy = CameraInfo { id: "a".into(), model: "b".into(), facing: Facing::Front, rotation: 90 }.copy();
    assert_eq!((copy.id.as_str(), copy.model.as_str(), copy.rotation), ("a", "b", 90));
}

#[test]
fn the_best_plain_format_is_picked() {
    assert_eq!(fourcc(*b"XB24"), code(b"XB24"));
    let offered = vec![(code(b"NV12"), 0), (code(b"XB24"), 5), (code(b"AR24"), 0), (code(b"XR24"), 0)];
    assert_eq!(pick_format(&offered), Some(3));
    assert_eq!(pick_format(&vec![(code(b"YUYV"), 0)]), Some(0));
    assert_eq!(pick_format(&vec![(code(b"XB24"), 1), (code(b"RG10"), 0)]), None);
}

#[test]
fn configurations_must_come_out_as_asked() {
    assert!(configures_as(true, Some(m(1, 2)), m(1, 2)));
    assert!(!configures_as(false, Some(m(1, 2)), m(1, 2)) && !configures_as(true, Some(m(2, 2)), m(1, 2)) && !configures_as(true, None, m(1, 2)));
    assert!(acceptable(true, false, None, m(1, 2)) && acceptable(true, true, Some(m(1, 2)), m(1, 2)));
    assert!(!acceptable(true, true, Some(m(2, 2)), m(1, 2)) && !acceptable(true, true, None, m(1, 2)) && !acceptable(false, false, None, m(1, 2)));
}

#[test]
fn frame_durations_are_positive() {
    assert_eq!(frame_duration_range(&vec![n(8333.0)], &vec![n(1.0), n(200000.0)]), Some((n(8333.0), n(200000.0))));
    assert_eq!(frame_duration_range(&vec![n(0.0)], &vec![n(1.0)]), None);
    assert_eq!(frame_duration_range(&vec![n(1.0)], &vec![n(-1.0)]), None);
    assert_eq!(frame_duration_range(&vec![], &vec![n(1.0)]), None);
    assert_eq!(frame_duration_range(&vec![n(1.0)], &vec![]), None);
}

#[test]
fn ranges_offer_halves_and_widescreen() {
    let formats = vec![
        Format { sizes: vec![m(640, 480), m(4032, 3024)], max: m(4032, 3024) },
        Format { sizes: vec![m(640, 480)], max: m(0, 0) },
    ];
    let found = candidate_modes(&formats);
    assert_eq!(found, vec![m(640, 480), m(4032, 3024), m(2016, 1512), m(4032, 2268), m(2016, 1134)]);
    assert!(has_mode(&found, m(2016, 1134)) && !has_mode(&found, m(1, 1)));
    assert_eq!(sort_by_area(&found), vec![m(4032, 3024), m(4032, 2268), m(2016, 1512), m(2016, 1134), m(640, 480)]);
    assert_eq!(sensor_modes(&found, &vec![m(1, 1)], &vec![true]).len(), 5);
    assert_eq!(sensor_modes(&vec![], &vec![m(1, 1), m(3, 3), m(2, 2)], &vec![true, false, true]), vec![m(2, 2), m(1, 1)]);
    // Of the same area, the one found first stays first.
    assert_eq!(sort_by_area(&vec![m(1, 6), m(2, 3), m(10, 10)]), vec![m(10, 10), m(1, 6), m(2, 3)]);
    assert!(is_ratio_near(m(4032, 3024), 4, 3, 2) && !is_ratio_near(m(4032, 2268), 4, 3, 2) && !is_ratio_near(m(4, 0), 4, 3, 2));
    // Ratios are compared as they are rounded: 1.13 less 1.1 is below 0.03.
    assert!(is_ratio_near(m(2200, 2000), 2260, 2000, 3));
    assert_eq!(viewfinder_mode(&[m(2260, 2000), m(2200, 2000)], m(2260, 2000)), m(2200, 2000));
    for (p, q, n, bound) in [(4u32, 3u32, 2u32, 0.02), (16, 9, 3, 0.03), (3, 2, 2, 0.02), (1, 1, 2, 0.02), (16, 9, 5, 0.05), (2260, 2000, 3, 0.03)] {
        for height in [1u32, 3, 25, 50, 100, 900, 1000, 1080, 2000, 2268] {
            for width in (1..4100).step_by(7).chain([102, 98, 2040, 1960, 1530, 1470, 1827, 1727]) {
                let r = width as f64 / height as f64;
                assert_eq!(is_ratio_near(m(width, height), p, q, n), (r - p as f64 / q as f64).abs() < bound, "{width}x{height} {p}:{q}");
            }
        }
    }
}

#[test]
fn values_become_numbers() {
    assert_eq!(numbers(&ControlValue::Byte(vec![7, 255])), vec![n(7.0), n(255.0)]);
    assert_eq!(numbers(&ControlValue::Uint16(vec![65535])), vec![n(65535.0)]);
    assert_eq!(numbers(&ControlValue::Uint32(vec![u32::MAX])), vec![n(u32::MAX as f64)]);
    assert_eq!(numbers(&ControlValue::Int32(vec![-3])), vec![n(-3.0)]);
    assert_eq!(numbers(&ControlValue::Int64(vec![i64::MAX])), vec![n(i64::MAX as f64)]);
    assert_eq!(numbers(&ControlValue::Float(vec![n(0.25)])), vec![n(0.25)]);
    assert_eq!(numbers(&ControlValue::Rectangle(vec![Rectangle { x: 0, y: 0, width: 1, height: 1 }])), vec![]);
    assert_eq!(numbers(&ControlValue::Empty), vec![]);
    assert_eq!(numbers(&ControlValue::Other), vec![]);
}

#[test]
fn numbers_become_values() {
    let v = vec![n(2.5), n(-2.5), n(0.0)];
    assert!(matches!(control_value(Kind::Bool, None, &v), Some(ControlValue::Bool(b)) if b == vec![true, true, false]));
    assert!(matches!(control_value(Kind::Int, Some(3), &v), Some(ControlValue::Int32(i)) if i == vec![3, -3, 0]));
    assert!(matches!(control_value(Kind::Int, Some(4), &vec![n(1e12)]), Some(ControlValue::Int64(i)) if i == vec![1_000_000_000_000]));
    assert!(matches!(control_value(Kind::Int, None, &vec![n(1e12)]), Some(ControlValue::Int32(i)) if i == vec![i32::MAX]));
    assert!(matches!(control_value(Kind::Float, None, &v), Some(ControlValue::Float(f)) if f == v));
    assert!(control_value(Kind::Other, None, &v).is_none());
    assert_eq!((control_type(&vec![(7, 4), (8, 3)], 8), control_type(&vec![], 8)), (Some(3), None));
}

#[test]
fn metadata_is_kept_by_name() {
    let list = vec![
        (Some("ExposureTime".to_string()), ControlValue::Int32(vec![20000])),
        (None, ControlValue::Int32(vec![1])),
        (Some("AfWindows".to_string()), ControlValue::Other),
        (Some("ColourGains".to_string()), ControlValue::Float(vec![n(1.5), n(2.0)])),
        (Some("ExposureTime".to_string()), ControlValue::Int32(vec![30000])),
    ];
    let meta = read_metadata(&list);
    assert_eq!(meta.get("ExposureTime"), Some(n(30000.0)));
    assert_eq!(meta.all("ColourGains"), Some(&vec![n(1.5), n(2.0)]));
    assert_eq!((meta.get("AfWindows"), meta.values.len()), (None, 2));
    assert_eq!(meta.copy().get("ColourGains"), Some(n(1.5)));
}

#[test]
fn colours_are_held_where_both_gains_are_known() {
    let info = |id: u32, name: &str| ControlInfo {
        id,
        known: true,
        name: Some(name.into()),
        array: false,
        size: 0,
        min: ControlValue::Float(vec![n(0.0)]),
        max: ControlValue::Float(vec![n(8.0)]),
        def: ControlValue::Float(vec![n(1.0)]),
        values: vec![],
        enumerators: vec![],
    };
    let controls = describe_controls(&vec![info(2, "ColourGains"), info(1, "AwbEnable"), info(3, "AeEnable")]);
    let mut meta = Metadata::new();
    meta.insert("ColourGains".into(), vec![n(1.8), n(1.5)]);
    assert_eq!(seed(&controls, &meta), vec![(1, vec![n(0.0)]), (2, vec![n(1.8), n(1.5)])]);
    meta.insert("ColourGains".into(), vec![n(1.8)]);
    assert_eq!(seed(&controls, &meta), vec![]);
    // Exposure is held with its gain or not at all.
    meta.insert("ExposureTime".into(), vec![n(1.0)]);
    assert_eq!(seed(&controls, &meta), vec![]);
    meta.insert("AnalogueGain".into(), vec![n(1.0)]);
    assert_eq!(seed(&controls, &meta), vec![(3, vec![n(0.0)])]);
}

#[test]
fn controls_are_described_and_sorted() {
    let info = |id: u32, name: Option<&str>, min: ControlValue| ControlInfo {
        id,
        known: true,
        name: name.map(String::from),
        array: false,
        size: 3,
        min,
        max: ControlValue::Empty,
        def: ControlValue::Empty,
        values: vec![],
        enumerators: vec![],
    };
    let mut mode = info(4, Some("AfMode"), ControlValue::Int32(vec![0]));
    mode.enumerators = vec![(0, "AfModeManual".into()), (1, "AfModeAuto".into()), (2, "AfModeContinuous".into())];
    mode.values = vec![ControlValue::Int32(vec![0]), ControlValue::Int32(vec![2])];
    let mut gains = info(3, Some("ColourGains"), ControlValue::Float(vec![n(0.5)]));
    gains.array = true;
    let mut unknown = info(9, Some("Aaa"), ControlValue::Empty);
    unknown.known = false;
    let list = vec![info(8, None, ControlValue::Bool(vec![false])), gains, unknown, mode, info(2, Some("AfWindows"), ControlValue::Other)];
    let d = describe_controls(&list);
    assert_eq!(d.iter().map(|c| c.name.as_str()).collect::<Vec<_>>(), vec!["AfMode", "AfWindows", "ColourGains", "Control 8"]);
    assert_eq!(d.iter().map(|c| c.kind).collect::<Vec<_>>(), vec![Kind::Int, Kind::Other, Kind::Float, Kind::Bool]);
    assert_eq!(d[0].enums, vec![(0, "AfModeManual".to_string()), (2, "AfModeContinuous".to_string())]);
    assert_eq!((d[2].len, d[0].len, d[2].min, d[2].max), (3, 1, n(0.5), n(0.0)));
}

#[test]
fn the_newest_choice_counts() {
    let mut user = vec![(1, vec![n(1.0)]), (2, vec![n(2.0)])];
    choose_setting(&mut user, 1, vec![n(3.0)]);
    assert_eq!(user, vec![(2, vec![n(2.0)]), (1, vec![n(3.0)])]);
    let mut list = ControlList::new();
    list.set(5, ControlValue::Bool(vec![true]));
    list.set(5, ControlValue::Bool(vec![false]));
    assert!(list.values.len() == 1 && matches!(&list.values[0].1, ControlValue::Bool(b) if *b == vec![false]));
}

#[test]
fn sessions_start_with_the_settings_they_have() {
    let info = ControlInfo {
        id: 6,
        known: true,
        name: Some("ExposureTime".into()),
        array: false,
        size: 0,
        min: ControlValue::Int32(vec![0]),
        max: ControlValue::Int32(vec![9]),
        def: ControlValue::Int32(vec![1]),
        values: vec![],
        enumerators: vec![],
    };
    let controls = describe_controls(&vec![info]);
    let initial = vec![(6, vec![n(5.0)]), (7, vec![n(1.0)]), (6, vec![n(6.0)])];
    let list = start_controls(&controls, &vec![(6, 4)], &initial);
    assert!(list.values.len() == 1 && matches!(&list.values[0], (6, ControlValue::Int64(v)) if *v == vec![6]));
}

#[test]
fn held_values_are_near_within_a_tenth() {
    let held = (Some(n(1000.0)), None);
    assert!(settled(held, Some(n(1100.0)), None, 1) && settled(held, Some(n(900.0)), None, 1));
    assert!(!settled(held, Some(n(1100.1)), None, 1) && !settled(held, Some(n(899.9)), None, 1));
    assert!(settled((Some(n(0.0)), None), Some(n(0.001)), None, 1) && !settled((Some(n(0.0)), None), Some(n(0.0011)), None, 1));
    assert!(!settled((None, None), None, None, 0));
    assert!(settled((Some(n(1.0)), Some(n(1.0))), None, None, 8));
    let samples = [0.0, -0.0, 5e-324, 0.0010000004, 0.0011, 1.0, -1.0, 1.2, 4.0, 4.35, 1e13, 2e13, 1e300, 1.05e300, 1.3e300, -1e300, 0.001, 10.0, 11.001, 1000.0, 1100.001, 899.999, 0.03, 0.3, 0.331, 1e-310, 3e-311, 2.2250738585072014e-308, f64::MAX, f64::MIN];
    for want in samples.into_iter().chain([f64::NAN, f64::INFINITY, f64::NEG_INFINITY]) {
        for got in samples.into_iter().chain([f64::NAN, f64::INFINITY, f64::NEG_INFINITY]) {
            let near = (got - want).abs() <= want.abs() * 0.1 + 0.001;
            assert_eq!(settled((Some(n(want)), None), Some(n(got)), None, 1), near, "{want} {got}");
        }
        // What was held settles, whatever it was.
        assert_eq!(settled((Some(n(want)), Some(n(want))), Some(n(want)), Some(n(want)), 0), want.is_finite());
    }
}

fn frame(fourcc: &[u8; 4], bytes: Option<Vec<u8>>) -> obscura::camera::Frame {
    obscura::camera::Frame { width: 4, height: 3, stride: 8, fourcc: code(fourcc), fd: 5, offset: 64, bytes, ret: None }
}

#[test]
fn frames_become_textures() {
    assert!(matches!(texture(&frame(b"XB24", Some(vec![]))), Ok(Texture::Memory(MemoryFormat::R8g8b8x8))));
    assert!(texture(&frame(b"NV12", Some(vec![]))).is_err());
    assert!(matches!(texture(&frame(b"XR24", None)), Ok(Texture::Dmabuf(p)) if p == vec![Plane { stride: 8, offset: 64 }]));
    assert!(matches!(texture(&frame(b"NV12", None)), Ok(Texture::Dmabuf(p)) if p == vec![Plane { stride: 8, offset: 64 }, Plane { stride: 8, offset: 88 }]));
    assert_eq!(
        [b"AB24", b"XR24", b"AR24", b"YUYV"].map(|c| memory_format(code(c))),
        [Some(MemoryFormat::R8g8b8a8), Some(MemoryFormat::B8g8r8x8), Some(MemoryFormat::B8g8r8a8), None]
    );
}
