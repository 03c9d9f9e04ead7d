use obscura::app::{
    App, Aspect, Chips, Complaint, Focus, FocusChip, FrameShown, Picture, Rate, Shot, Shutter, Step, aspect, chips, fill, found_thumbnail, last_photo, menu_modes, parse_size,
    remember, saved_mode, shows_switch, size_text, target_mode, thumbnail, timer_label, timer_of, video_name, wide,
};
use obscura::camera::{CameraInfo, Cmd, Facing, Session, Still};
use obscura::modes::Mode;
use obscura::number::Number;
use obscura::portal::Access;
use obscura::settings::{ControlDesc, Kind, Metadata, lock_settings, tap_settings, unlock_settings};

fn n(x: f64) -> Number {
    Number::from_bits(x.to_bits())
}

fn m(width: u32, height: u32) -> Mode {
    Mode { width, height }
}

fn info(id: &str, facing: Facing) -> CameraInfo {
    CameraInfo { id: id.into(), model: "imx".into(), facing, rotation: 270 }
}

fn session() -> Session {
    Session {
        camera: 0,
        info: info("back", Facing::Back),
        modes: vec![m(4032, 3032), m(4032, 2272), m(2016, 1512), m(2016, 1136)],
        mode: m(4032, 3032),
        view: m(2016, 1512),
        fourcc: 7,
        controls: vec![ControlDesc {
            id: 5,
            name: "AfTrigger".into(),
            kind: Kind::Int,
            len: 1,
            min: n(0.0),
            max: n(1.0),
            def: vec![],
            enums: vec![(3, "AfTriggerCancel".into()), (4, "AfTriggerStart".into())],
        }],
        raw: true,
        fps: Some((n(5.0), n(120.0))),
        af_windows: true,
    }
}

fn app() -> App {
    let mut a = App::new(0);
    a.cameras = vec![info("back", Facing::Back), info("front", Facing::Front)];
    a.granted = true;
    a.session = Some(session());
    a
}

#[test]
fn sizes_are_remembered_per_camera() {
    assert_eq!(size_text(m(4032, 3024)), "4032x3024");
    assert_eq!(parse_size("4032x3024"), Some(m(4032, 3024)));
    for bad in ["", "x", "4032", "4032x", "x3024", "4032x30x24", "-1x2", "4032 x3024", "99999999999x1"] {
        assert_eq!(parse_size(bad), None, "{bad}");
    }
    let mut list = vec![("front".to_string(), "1x2".to_string())];
    remember(&mut list, "back", m(10, 20));
    remember(&mut list, "front", m(3, 4));
    assert_eq!((saved_mode(&list, "back"), saved_mode(&list, "front"), saved_mode(&list, "none")), (Some(m(10, 20)), Some(m(3, 4)), None));
    assert_eq!(list.len(), 2);
}

#[test]
fn shapes_have_names() {
    assert_eq!(
        [m(4032, 3024), m(3840, 2160), m(3000, 2000), m(1000, 1000), m(1280, 1024), m(1, 0)].map(aspect),
        [Aspect::FourByThree, Aspect::SixteenByNine, Aspect::ThreeByTwo, Aspect::Square, Aspect::Other, Aspect::Square]
    );
    assert!(wide(m(4032, 2272)) && !wide(m(4032, 3024)));
    assert_eq!([m(4032, 2272), m(1920, 1080), m(1280, 720), m(640, 480)].map(video_name), ["4K", "1080p", "720p", "480p"]);
    assert_eq!(fill("Self-Timer: {} Seconds", 10), "Self-Timer: 10 Seconds");
    assert_eq!(fill("{{}}{}{", 3), "{3}3{");
    assert_eq!(timer_label(3), "3 s");
}

fn still(width: u32, height: u32, stride: u32, fourcc: &[u8; 4], rgba: Vec<u8>) -> Still {
    Still {
        width,
        height,
        stride,
        fourcc: u32::from_le_bytes(*fourcc),
        rgba,
        raw: None,
        metadata: Metadata::new(),
        info: info("back", Facing::Back),
        zoom: n(1.0),
    }
}

#[test]
fn thumbnails_sample_the_still() {
    // Four pixels, the last of them cut short.
    let s = still(2, 2, 10, b"XB24", vec![1, 2, 3, 4, 5, 6, 7, 8, 0, 0, 9, 10, 11, 12, 13, 14]);
    let t = thumbnail(&s);
    assert_eq!((t.width, t.height, t.rotation, t.rgba.len()), (128, 128, 270, 128 * 128 * 4));
    let at = |x: usize, y: usize| t.rgba[4 * (128 * y + x)..4 * (128 * y + x) + 4].to_vec();
    assert_eq!((at(0, 0), at(63, 63), at(64, 0), at(0, 64), at(127, 127)), (vec![1, 2, 3, 255], vec![1, 2, 3, 255], vec![5, 6, 7, 255], vec![9, 10, 11, 255], vec![0, 0, 0, 255]));
    let t = thumbnail(&still(1, 1, 4, b"XR24", vec![1, 2, 3, 4]));
    assert_eq!(t.rgba[..4], [3, 2, 1, 255]);
    assert_eq!(thumbnail(&still(1000, 1, 4000, b"XB24", vec![])).height, 1);
}

#[test]
fn the_newest_photo_is_shown_first() {
    let file = |ext: Option<&str>, modified: Option<i128>| Picture { extension: ext.map(String::from), modified };
    let files = vec![file(Some("jpg"), Some(5)), file(Some("JPG"), Some(7)), file(Some("dng"), Some(9)), file(Some("jPg"), Some(7)), file(None, Some(9)), file(Some("jpg"), None)];
    assert_eq!(last_photo(&files), Some(3));
    assert_eq!(last_photo(&vec![file(Some("jpg"), None)]), Some(0));
    assert_eq!(last_photo(&vec![file(Some("jpeg"), Some(1))]), None);
    let t = found_thumbnail(1, 2, 6, &[1, 2, 3, 4, 0, 0, 5, 6, 7, 8]);
    assert_eq!((t.rgba, t.width, t.height, t.rotation), (vec![1, 2, 3, 4, 5, 6, 7, 8], 1, 2, 0));
    assert_eq!(found_thumbnail(1, 0, 6, &[]).rgba, vec![]);
}

#[test]
fn cameras_open_once_access_is_granted() {
    let saved = vec![("front".to_string(), "640x480".to_string())];
    let mut a = App::new(3);
    assert!(a.portal_slow(true) && !a.portal_slow(false));
    assert!(matches!(a.retry(&saved), Step::AskAccess));
    assert!(matches!(a.access(&Access::Denied, &saved), Step::NoAccess) && !a.granted);
    assert!(matches!(a.found_cameras(vec![], "", &saved), Step::NoCamera));
    let list = || vec![info("usb", Facing::External), info("back", Facing::Back), info("front", Facing::Front)];
    assert!(matches!(a.found_cameras(list(), "front", &saved), Step::Nothing));
    assert_eq!(a.camera, 2);
    assert!(matches!(
        a.access(&Access::Granted { remote: false }, &saved),
        Step::Send(Cmd::Open { camera: 2, mode: Some(Mode { width: 640, height: 480 }), video: false })
    ));
    assert!(a.granted && !a.portal_slow(true));
    assert!(matches!(a.found_cameras(list(), "gone", &saved), Step::Send(Cmd::Open { camera: 1, mode: None, .. })));
    assert!(matches!(a.found_cameras(vec![info("usb", Facing::External)], "gone", &saved), Step::Send(Cmd::Open { camera: 0, .. })));
    assert!(matches!(a.retry(&saved), Step::Send(Cmd::Open { camera: 0, .. })));
    let mut direct = App::new(0);
    assert!(matches!(direct.access(&Access::Unavailable("no portal".into()), &saved), Step::Nothing) && direct.granted);
}

#[test]
fn reopening_lets_go_of_the_old_session() {
    let mut a = app();
    a.locked = true;
    a.lock_exposure = Some(n(1.0));
    a.saving = true;
    a.awaiting_frame = false;
    let cmd = a.reopen(1, Some(m(1, 2)), &vec![]);
    assert!(matches!(cmd, Cmd::Open { camera: 1, mode: Some(Mode { width: 1, height: 2 }), video: false }));
    assert!(a.session.is_none() && !a.locked && a.lock_exposure.is_none() && !a.saving && a.awaiting_frame && a.camera == 1);
    assert!(matches!(a.opened(session()), Step::Nothing) && a.camera == 0 && a.session.is_some());
    a.suspended = true;
    assert!(matches!(a.opened(session()), Step::Send(Cmd::Close)));
}

#[test]
fn the_first_frame_warms_the_photo_path() {
    let mut a = app();
    assert_eq!(a.frame_ready(true, false), FrameShown { copies: false, first: true, warm: true });
    assert_eq!(a.frame_ready(false, false), FrameShown { copies: true, first: false, warm: false });
    assert_eq!(a.frame_ready(false, false), FrameShown { copies: false, first: false, warm: false });
    a.reopen(0, None, &vec![]);
    assert_eq!(a.frame_ready(true, true), FrameShown { copies: false, first: true, warm: false });
}

#[test]
fn focus_scans_end_focused_or_failed() {
    let meta = |state: f64| {
        let mut m = Metadata::new();
        m.insert("AfState".into(), vec![n(state)]);
        m.insert("FrameDuration".into(), vec![n(33333.0)]);
        m
    };
    let mut a = app();
    assert_eq!(a.metadata(meta(2.0)), None);
    assert_eq!(a.frame_duration, Some(n(33333.0)));
    assert_eq!(a.focus_trigger(), Some((5, n(4.0), true)));
    let first = a.tap_focus();
    let second = a.tap_focus();
    assert!(a.focusing && first == 1 && second == 2);
    assert!(!a.hide_focus(first) && a.focusing);
    assert_eq!(a.metadata(meta(1.0)), None);
    assert_eq!(a.metadata(meta(3.9)), Some(Focus::Failed));
    assert!(!a.focusing);
    a.tap_focus();
    assert_eq!(a.metadata(meta(2.0)), Some(Focus::Focused));
    assert!(a.hide_focus(3));
    a.session = None;
    assert_eq!(a.focus_trigger(), None);
}

#[test]
fn photos_are_turned_for_the_device() {
    let mut a = app();
    a.orientation(90);
    a.set_zoom(n(2.0));
    let s = a.still(still(1, 1, 4, b"XB24", vec![1, 2, 3, 4]));
    assert_eq!((s.info.rotation, s.zoom, s.rgba), (0, n(2.0), vec![1, 2, 3, 4]));
    assert!(a.captured && !a.found());
}

#[test]
fn errors_are_told_where_they_belong() {
    let mut a = app();
    assert!(matches!(a.error("busy".into()), Complaint::Note(e) if e == "busy"));
    a.session = None;
    assert!(matches!(a.error("Device or resource busy".into()), Complaint::Busy));
    assert!(matches!(a.error("gone".into()), Complaint::Unavailable(e) if e == "gone"));
}

#[test]
fn cameras_and_modes_are_switched() {
    let mut a = app();
    a.recording = true;
    assert!(matches!(a.switch_camera(&vec![]), Step::Nothing));
    assert!(matches!(a.select_mode(m(2016, 1512), &vec![]), Step::Nothing));
    a.recording = false;
    assert_eq!((a.select_mode_index(1), a.select_mode_index(9)), (Some(m(4032, 2272)), None));
    assert!(matches!(a.select_mode(m(1, 1), &vec![]), Step::Nothing));
    assert!(matches!(a.select_mode(m(4032, 3032), &vec![]), Step::Nothing));
    assert!(matches!(a.select_mode(m(2016, 1512), &vec![]), Step::Send(Cmd::Open { camera: 0, mode: Some(Mode { width: 2016, height: 1512 }), .. })));
    a.opened(session());
    assert!(matches!(a.switch_camera(&vec![]), Step::Send(Cmd::Open { camera: 1, mode: None, .. })));
    assert!(matches!(a.switch_camera(&vec![]), Step::Nothing));
    a.session = Some(session());
    assert!(matches!(a.switch_camera(&vec![]), Step::Send(Cmd::Open { camera: 0, .. })));
}

#[test]
fn the_timer_counts_down_to_the_shot() {
    let mut a = app();
    assert_eq!(a.timer, 0);
    a.cycle_timer();
    assert_eq!(a.timer, 3);
    assert!(matches!(a.capture(), Shutter::Counting(3)));
    assert!(matches!(a.count_down(), Shutter::Counting(2)));
    assert!(matches!(a.count_down(), Shutter::Counting(1)) && !a.saving);
    assert!(matches!(a.count_down(), Shutter::Shoot(Shot::Photo)) && a.saving && a.countdown.is_none());
    assert!(matches!(a.count_down(), Shutter::Nothing));
    // While a photo is saved, nothing is shot and nothing counts down.
    assert!(matches!(a.capture(), Shutter::Shoot(Shot::Nothing)));
    a.saving = false;
    a.capture();
    assert!(matches!(a.capture(), Shutter::Cancelled) && a.countdown.is_none());
    a.cycle_timer();
    assert_eq!(a.timer, 10);
    a.cycle_timer();
    assert_eq!(a.timer, 0);
    assert!(matches!(a.capture(), Shutter::Shoot(Shot::Photo)));
}

#[test]
fn recordings_start_and_stop() {
    let mut a = app();
    a.video = true;
    a.orientation(180);
    let Shot::Record { view, fourcc, rotation, rate: Rate::PerSecond(r) } = a.shoot() else { panic!() };
    assert_eq!((view, fourcc, rotation, r), (m(2016, 1512), 7, 90, n(120.0)));
    assert!(a.record_started && !a.tick());
    assert!(matches!(a.shoot(), Shot::Nothing));
    a.recording_started(true);
    assert!(a.tick());
    assert!(matches!(a.shoot(), Shot::Stop) && !a.recording);
    assert!(matches!(a.shoot(), Shot::Nothing) && a.record_started);
    a.recording_done(true);
    assert!(a.captured && !a.record_started);
    a.frame_duration = Some(n(33333.0));
    assert!(matches!(a.shoot(), Shot::Record { rate: Rate::Duration(d), .. } if d == n(33333.0)));
    a.recording_started(false);
    assert!(!a.record_started);
    a.frame_duration = None;
    a.session.as_mut().unwrap().fps = None;
    assert!(matches!(a.shoot(), Shot::Record { rate: Rate::PerSecond(d), .. } if d == n(30.0)));
    a.session = None;
    assert!(matches!(a.shoot(), Shot::Nothing));
}

#[test]
fn hidden_windows_close_the_camera() {
    let mut a = app();
    a.countdown = Some(2);
    assert!(matches!(a.suspend(true, &vec![]), Step::Nothing));
    a.countdown = None;
    assert!(matches!(a.suspend(true, &vec![]), Step::Send(Cmd::Close)) && a.suspended && a.session.is_none());
    assert!(matches!(a.suspend(false, &vec![]), Step::Send(Cmd::Open { camera: 0, .. })) && !a.suspended);
    assert!(matches!(a.suspend(false, &vec![]), Step::Nothing));
    // The camera and the kind of capture are those of before.
    a.camera = 1;
    a.video = true;
    a.suspend(true, &vec![]);
    assert!(matches!(a.suspend(false, &vec![]), Step::Send(Cmd::Open { camera: 1, video: true, .. })));
}

fn mode(id: u32, name: &str, labels: &[&str]) -> ControlDesc {
    let enums = labels.iter().enumerate().map(|(i, l)| (i as i32, l.to_string())).collect();
    ControlDesc { id, name: name.into(), kind: Kind::Int, len: 1, min: n(0.0), max: n(2.0), def: vec![], enums }
}

#[test]
fn locks_set_manual_values_and_let_go_of_them() {
    let (held, lens) = (Some((n(20000.0), n(2.0))), Some(n(1.5)));
    let switch = vec![mode(1, "AeEnable", &[]), mode(2, "ExposureTime", &[]), mode(3, "AnalogueGain", &[]), mode(5, "LensPosition", &[])];
    assert_eq!(lock_settings(&switch, held, lens), vec![(1, vec![n(0.0)]), (2, vec![n(20000.0)]), (3, vec![n(2.0)])]);
    assert_eq!(unlock_settings(&switch), vec![(1, vec![n(1.0)])]);
    let mut modes = switch;
    modes.push(mode(4, "AfMode", &["AfModeManual", "AfModeAuto", "AfModeContinuous"]));
    modes.push(mode(6, "AnalogueGainMode", &["AnalogueGainModeAuto", "AnalogueGainModeManual"]));
    assert_eq!(lock_settings(&modes, None, lens), vec![(4, vec![n(0.0)]), (5, vec![n(1.5)])]);
    assert_eq!(lock_settings(&modes, held, None), vec![(6, vec![n(1.0)]), (2, vec![n(20000.0)]), (3, vec![n(2.0)])]);
    assert_eq!(unlock_settings(&modes), vec![(6, vec![n(0.0)]), (4, vec![n(2.0)])]);
    modes.push(mode(7, "ExposureTimeMode", &["ExposureTimeModeAuto", "ExposureTimeModeManual"]));
    assert_eq!(lock_settings(&modes, held, None)[..2], [(7, vec![n(1.0)]), (6, vec![n(1.0)])]);
    assert!(lock_settings(&modes, None, None).is_empty());
}

#[test]
fn taps_scan_once() {
    let auto = vec![mode(4, "AfMode", &["AfModeManual", "AfModeAuto", "AfModeContinuous"])];
    assert_eq!(tap_settings(&auto, true), Some(vec![(4, vec![n(1.0)])]));
    assert_eq!(tap_settings(&auto, false), Some(vec![]));
    assert_eq!(tap_settings(&vec![mode(4, "AfMode", &["AfModeManual"])], true), None);
}

#[test]
fn settings_and_cameras_shape_the_window() {
    assert_eq!([Some(10), Some(0), Some(-3), None].map(timer_of), [10, 0, 0, 0]);
    let all = || vec![info("back", Facing::Back), info("front", Facing::Front)];
    assert!(shows_switch(&all()) && !shows_switch(&all()[..1].iter().map(CameraInfo::copy).collect()) && !shows_switch(&vec![]));
}

#[test]
fn locks_hold_what_the_camera_chose() {
    let mut a = app();
    assert_eq!(a.lockable_exposure(true), None);
    let mut meta = Metadata::new();
    meta.insert("ExposureTime".into(), vec![n(20000.0)]);
    meta.insert("AnalogueGain".into(), vec![n(2.0)]);
    a.metadata(meta);
    assert_eq!(a.lockable_exposure(true), Some((n(20000.0), n(2.0))));
    assert_eq!(a.lockable_exposure(false), None);
    let focus = vec![mode(4, "AfMode", &["AfModeManual", "AfModeAuto", "AfModeContinuous"])];
    assert_eq!(a.lockable_lens(true, &focus), None);
    a.last_meta.insert("LensPosition".into(), vec![n(1.5)]);
    assert_eq!((a.lockable_lens(true, &focus), a.lockable_lens(false, &focus), a.lockable_lens(true, &vec![])), (Some(n(1.5)), None, None));
    assert_eq!(a.lock(None, false), None);
    assert!(!a.locked && !a.unlock());
    assert_eq!(a.lock(Some(n(20000.0)), true), Some("AE/AF"));
    assert_eq!((a.locked, a.lock_exposure, a.focus_generation), (true, Some(n(20000.0)), 1));
    assert!(matches!(a.focus_chip(true, true, Some(n(1.0))), FocusChip::Locked));
    assert!(a.unlock() && !a.locked && a.lock_exposure.is_none());
    assert_eq!((a.lock(Some(n(1.0)), false), a.lock(None, true)), (Some("AE"), Some("AF")));
    a.unlock();
    assert!(matches!(a.focus_chip(true, true, Some(n(1.0))), FocusChip::Manual(d) if d == n(1.0)));
    assert!(matches!(a.focus_chip(true, true, None), FocusChip::Single));
    assert!(matches!(a.focus_chip(false, false, Some(n(1.0))), FocusChip::Continuous));
}

#[test]
fn the_viewfinder_turns_with_the_screen() {
    let mut a = app();
    assert_eq!(a.apply_orientation(false), None);
    a.orientation(90);
    assert_eq!(a.apply_orientation(true), Some((0, false)));
    assert_eq!(a.apply_orientation(true), None);
    a.session = None;
    assert_eq!(a.apply_orientation(false), None);
    assert_eq!(a.display.rotation, 0);
}

#[test]
fn zoom_stays_between_one_and_four() {
    let mut a = app();
    for (zoom, want) in [(0.2, 1.0), (1.0, 1.0), (3.3, 3.3), (4.0, 4.0), (9.0, 4.0), (f64::INFINITY, 4.0)] {
        a.set_zoom(n(zoom));
        assert_eq!(a.zoom, n(want));
    }
    a.zoom_begin();
    assert_eq!(a.zoom_start, n(4.0));
    for want in [1.0, 2.0, 4.0, 1.0] {
        a.cycle_zoom();
        assert_eq!(a.zoom, n(want));
    }
    for (from, to) in [(1.98, 2.0), (1.99, 4.0), (3.98, 4.0), (3.99, 1.0)] {
        a.set_zoom(n(from));
        a.cycle_zoom();
        assert_eq!(a.zoom, n(to), "{from}");
    }
}

#[test]
fn captures_open_once_they_are_written() {
    let mut a = app();
    assert!(!a.open_last());
    a.shoot();
    assert!(!a.open_last() && a.open_pending);
    assert!(!a.saved(false) && a.open_pending && !a.saving);
    a.shoot();
    assert!(a.saved(true) && !a.open_pending && a.captured);
    assert!(a.open_last());
    assert!(!a.saved(true));
}

#[test]
fn video_wants_a_wide_mode() {
    let modes = session().modes;
    assert_eq!(target_mode(&modes, false), Some(m(4032, 3032)));
    assert_eq!(target_mode(&modes, true), Some(m(2016, 1136)));
    assert_eq!(target_mode(&vec![m(1280, 720), m(640, 360), m(640, 480)], true), Some(m(1280, 720)));
    assert_eq!((target_mode(&vec![m(640, 480)], true), target_mode(&vec![], false)), (None, None));
    assert_eq!((menu_modes(&modes, true), menu_modes(&modes, false).len()), (vec![m(4032, 2272), m(2016, 1136)], 4));
    let mut a = app();
    a.set_zoom(n(2.0));
    assert!(matches!(a.set_video(true, &vec![]), Step::Send(Cmd::Open { camera: 0, mode: Some(Mode { width: 2016, height: 1136 }), video: true })));
    assert!(a.video && a.zoom == n(1.0) && a.session.is_none());
    assert!(matches!(a.set_video(false, &vec![]), Step::Nothing) && !a.video);
    let mut s = session();
    s.modes = vec![m(640, 480)];
    a.opened(s);
    assert!(matches!(a.set_video(true, &vec![]), Step::Nothing) && a.session.is_some());
}

#[test]
fn values_are_shown_where_there_is_a_row() {
    let rows = |names: &[&str]| names.iter().map(|n| n.to_string()).collect::<Vec<_>>();
    let none = Chips { iso: false, shutter: false, ev: false, wb: false, focus: false, fps: false };
    assert_eq!(chips(&rows(&[]), true), none);
    assert_eq!(chips(&rows(&["AeEnable"]), true), Chips { iso: true, shutter: true, ..none });
    assert_eq!(chips(&rows(&["AnalogueGain", "ColourTemperature"]), true), Chips { iso: true, wb: true, ..none });
    assert_eq!(chips(&rows(&["ExposureTime", "ExposureValue", "LensPosition"]), true), Chips { shutter: true, ev: true, focus: true, ..none });
    assert_eq!(chips(&rows(&["FrameDurationLimits", "AwbMode"]), true), Chips { fps: true, wb: true, ..none });
    assert_eq!(chips(&rows(&["FrameDurationLimits", "AfMode"]), false), Chips { focus: true, ..none });
}
