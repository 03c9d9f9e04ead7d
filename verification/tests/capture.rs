use obscura::camera::{Orientation, upright_rotation};
use obscura::modes::{Mode, viewfinder_mode};
use obscura::number::Number;
use obscura::settings::{ControlDesc, Kind, Metadata, seed, settled};

fn n(x: f64) -> Number {
    Number::from_bits(x.to_bits())
}

#[test]
fn still_waits_for_the_held_exposure() {
    let held = (Some(n(20000.0)), Some(n(4.0)));
    assert!(!settled(held, Some(n(33333.0)), Some(n(4.0)), 1));
    assert!(settled(held, Some(n(20500.0)), Some(n(4.1)), 2));
    assert!(!settled(held, None, None, 5));
    assert!(settled(held, Some(n(33333.0)), Some(n(1.0)), 8));
    assert!(settled((None, None), None, None, 1));
}

#[test]
fn seed_holds_what_auto_chose() {
    let d = |id: u32, name: &str, enums: &[&str]| ControlDesc {
        id,
        name: name.into(),
        kind: Kind::Int,
        len: 1,
        min: n(0.0),
        max: n(1.0),
        def: vec![n(0.0)],
        enums: enums.iter().enumerate().map(|(i, n)| (i as i32, n.to_string())).collect(),
    };
    let controls = vec![
        d(1, "ExposureTimeMode", &["ExposureTimeModeAuto", "ExposureTimeModeManual"]),
        d(2, "ExposureTime", &[]),
        d(3, "AnalogueGain", &[]),
        d(4, "AfMode", &["AfModeManual", "AfModeAuto", "AfModeContinuous"]),
        d(5, "LensPosition", &[]),
    ];
    let mut meta = Metadata::new();
    for (k, v) in [("ExposureTime", 16666.0), ("AnalogueGain", 2.0), ("LensPosition", 1.5)] {
        meta.insert(k.into(), vec![n(v)]);
    }
    let seeded = seed(&controls, &meta);
    assert_eq!(
        seeded,
        vec![(1, vec![n(1.0)]), (2, vec![n(16666.0)]), (3, vec![n(2.0)]), (4, vec![n(0.0)]), (5, vec![n(1.5)])]
    );
}

#[test]
fn viewfinder_takes_the_binned_mode_of_the_same_shape() {
    let m = |width, height| Mode { width, height };
    let imx362 = [m(4032, 3032), m(4032, 2272), m(2016, 1512), m(2016, 1136)];
    assert_eq!(viewfinder_mode(&imx362, m(4032, 3032)), m(2016, 1512));
    assert_eq!(viewfinder_mode(&imx362, m(4032, 2272)), m(2016, 1136));
    assert_eq!(viewfinder_mode(&imx362, m(2016, 1512)), m(2016, 1512));
    // A webcam's largest mode is also its viewfinder.
    assert_eq!(viewfinder_mode(&[m(1920, 1080), m(1280, 720)], m(1920, 1080)), m(1920, 1080));
}

#[test]
fn rotation_undoes_the_orientation() {
    // Pixel 2 XL: Rotation 90, no transpose-capable sensor, so the
    // buffers are Rotate90 and need a quarter turn counter-clockwise.
    assert_eq!(upright_rotation(Orientation::Rotate90), 270);
    assert_eq!(upright_rotation(Orientation::Rotate270), 90);
    assert_eq!(upright_rotation(Orientation::Rotate0), 0);
}
