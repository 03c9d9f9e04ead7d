use obscura::camera::{CameraInfo, Cmd, Facing, Frame, FrameSlot, Orientation};
use obscura::modes::Mode;
use obscura::number::Number;
use obscura::settings::{ControlDesc, ControlValue, Kind, Metadata, Rectangle, numbers};
use obscura::worker::{
    After, Buffers, Closing, Completed, Configured, Fate, Internal, Live, Plan, Purpose, RawBuffer, Reopen, Step, Wait, Worker, no_camera, plan,
};

fn n(x: f64) -> Number {
    Number::from_bits(x.to_bits())
}

fn m(width: u32, height: u32) -> Mode {
    Mode { width, height }
}

fn info() -> CameraInfo {
    CameraInfo { id: "back".into(), model: "imx362".into(), facing: Facing::Back, rotation: 0 }
}

fn control(id: u32, name: &str, kind: Kind, enums: &[&str]) -> ControlDesc {
    ControlDesc {
        id,
        name: name.into(),
        kind,
        len: 1,
        min: n(0.0),
        max: n(100.0),
        def: vec![n(0.0)],
        enums: enums.iter().enumerate().map(|(i, n)| (i as i32, n.to_string())).collect(),
    }
}

fn controls() -> Vec<ControlDesc> {
    vec![
        control(1, "AeEnable", Kind::Bool, &[]),
        control(2, "AfMetering", Kind::Int, &["AfMeteringAuto", "AfMeteringWindows"]),
        control(3, "AfTrigger", Kind::Int, &["AfTriggerStart", "AfTriggerCancel"]),
        control(4, "AfWindows", Kind::Other, &[]),
        control(5, "AnalogueGain", Kind::Float, &[]),
        control(6, "ExposureTime", Kind::Int, &[]),
        control(7, "FrameDurationLimits", Kind::Int, &[]),
    ]
}

fn configured(view: Mode, raw: Option<Mode>) -> Configured {
    Configured {
        orientation: Orientation::Rotate90,
        view_size: view,
        fourcc: 0x34324258,
        raw: raw.is_some(),
        raw_size: raw,
        raw_role: true,
        crop_max: Some(Rectangle { x: 0, y: 0, width: 4032, height: 3024 }),
        fps: None,
        types: vec![(7, 4)],
        requests: 4,
    }
}

fn modes() -> Vec<Mode> {
    vec![m(4032, 3032), m(4032, 2272), m(2016, 1512), m(2016, 1136)]
}

fn live(purpose: Purpose, generation: u64) -> Live {
    let p = plan(&modes(), Some(m(4032, 3032)), purpose);
    let set = if purpose == Purpose::Preview { configured(m(2016, 1512), None) } else { configured(m(4032, 3032), Some(m(4032, 3032))) };
    Live::open(0, info(), modes(), p, purpose, Vec::new(), controls(), set, generation, 0)
}

fn worker(session: Option<Live>) -> Worker {
    let mut w = Worker::new(vec![info()]);
    w.session = session;
    w
}

fn completed<'a>(request: u64, meta: &[(&str, f64)], view: Option<&'a [u8]>) -> Completed<'a> {
    let mut metadata = Metadata::new();
    for (k, v) in meta {
        metadata.insert(k.to_string(), vec![n(*v)]);
    }
    Completed {
        request,
        complete: true,
        metadata,
        buffers: view.map(|view| Buffers { width: 2, height: 1, stride: 8, fourcc: 7, fd: 3, offset: 16, view, raw: None }),
    }
}

#[test]
fn plans_take_the_binned_mode_for_previews_only() {
    let p = plan(&modes(), Some(m(4032, 3032)), Purpose::Preview);
    assert_eq!(p, Plan { photo: Some(m(4032, 3032)), view: Some(m(2016, 1512)), want_raw: false });
    assert_eq!(p.with_raw(), None);
    assert_eq!(p.without_raw(), m(2016, 1512));
    let p = plan(&modes(), Some(m(640, 480)), Purpose::Still);
    assert_eq!(p, Plan { photo: Some(m(4032, 3032)), view: Some(m(4032, 3032)), want_raw: true });
    assert_eq!(p.with_raw(), Some(m(4032, 3032)));
    let p = plan(&Vec::new(), None, Purpose::Video);
    assert_eq!((p.photo, p.with_raw(), p.without_raw()), (None, None, m(1280, 720)));
}

#[test]
fn a_preview_knows_the_photo_mode_it_hands_over() {
    let l = live(Purpose::Preview, 1);
    assert_eq!((l.view_mode, l.info.mode, l.info.view), (m(2016, 1512), m(4032, 3032), m(2016, 1512)));
    assert_eq!(l.info.info.rotation, 270);
    assert!(l.info.raw && !l.raw && l.info.af_windows);
    assert_eq!(l.outstanding, 4);
    let s = l.announce();
    assert_eq!((s.mode, s.controls.len(), s.controls[3].name.as_str(), s.modes.len()), (m(4032, 3032), 7, "AfWindows", 4));
}

#[test]
fn controls_are_typed_and_remembered_but_triggers_are_not() {
    let mut l = live(Purpose::Preview, 1);
    l.set_control(6, vec![n(16666.4)]);
    l.set_control(3, vec![n(0.0)]);
    l.set_control(7, vec![n(33333.0), n(33333.0)]);
    l.set_control(6, vec![n(20000.0)]);
    l.set_control(4, vec![n(1.0)]);
    l.set_control(99, vec![n(1.0)]);
    assert_eq!(l.user, vec![(7, vec![n(33333.0), n(33333.0)]), (6, vec![n(20000.0)])]);
    let sent = l.requeue();
    assert_eq!(sent.values.len(), 3);
    for (id, v) in &sent.values {
        match id {
            6 => assert!(matches!(v, ControlValue::Int32(v) if *v == vec![20000])),
            3 => assert!(matches!(v, ControlValue::Int32(v) if *v == vec![0])),
            7 => assert!(matches!(v, ControlValue::Int64(v) if *v == vec![33333, 33333])),
            _ => panic!("{id}"),
        }
    }
    assert!(l.requeue().values.is_empty());
}

#[test]
fn focus_windows_stay_in_the_frame() {
    let mut l = live(Purpose::Preview, 1);
    l.focus_at(4032, 0);
    let sent = l.requeue();
    assert!(sent.values.iter().any(|(id, v)| *id == 2 && matches!(v, ControlValue::Int32(v) if *v == vec![1])));
    let Some((_, ControlValue::Rectangle(r))) = sent.values.iter().find(|(id, _)| *id == 4) else { panic!() };
    assert_eq!(r[0], Rectangle { x: 4032 - 504, y: 0, width: 504, height: 378 });
    l.focus_at(2016, 1512);
    let sent = l.requeue();
    let Some((_, ControlValue::Rectangle(r))) = sent.values.iter().find(|(id, _)| *id == 4) else { panic!() };
    assert_eq!(r[0], Rectangle { x: 2016 - 252, y: 1512 - 189, width: 504, height: 378 });
    l.crop_max = None;
    l.focus_at(0, 0);
    assert!(l.requeue().values.is_empty());
}

#[test]
fn viewfinder_frames_wait_in_the_slot() {
    let mut l = live(Purpose::Preview, 9);
    let mut slot = FrameSlot::new();
    let bytes = [1u8, 2, 3, 4, 5, 6, 7, 8];
    let out = l.completed(completed(5, &[], Some(&bytes)), false, 1, &mut slot);
    assert!(out.frame_ready && out.metadata.is_none() && out.still.is_none() && !out.record);
    assert!(matches!(out.fate, Fate::Shown));
    assert!(!l.first_frame);
    // The second replaces the first, which goes back.
    let out = l.completed(completed(6, &[], Some(&bytes)), false, 1, &mut slot);
    assert!(!out.frame_ready);
    assert_eq!(out.stale.unwrap().ret, Some((5, 9)));
    assert_eq!(slot.take_replaced(), 1);
    assert_eq!(slot.take_replaced(), 0);
    let f = slot.take_frame().unwrap();
    assert_eq!((f.ret, f.fd, f.offset, f.stride, f.bytes), (Some((6, 9)), 3, 16, 8, None));
    // Copied frames leave their request with the camera.
    let out = l.completed(completed(7, &[], Some(&bytes)), true, 1, &mut slot);
    assert!(matches!(out.fate, Fate::Requeue(_)));
    let f = slot.take_frame().unwrap();
    assert_eq!((f.ret, f.bytes), (None, Some(bytes.to_vec())));
}

#[test]
fn metadata_is_sent_five_times_a_second() {
    let mut l = live(Purpose::Video, 1);
    let mut slot = FrameSlot::new();
    let meta = [("ExposureTime", 100.0)];
    assert!(l.completed(completed(1, &meta, None), false, 200_000_000, &mut slot).metadata.is_none());
    let out = l.completed(completed(1, &meta, None), false, 200_000_001, &mut slot);
    assert_eq!(out.metadata.unwrap().get("ExposureTime"), Some(n(100.0)));
    assert_eq!((l.last_meta, l.meta.get("ExposureTime")), (200_000_001, Some(n(100.0))));
    // No buffer: nothing to show, the request goes back.
    assert!(matches!(out.fate, Fate::Requeue(_)) && slot.frame.is_none());
}

#[test]
fn cancelled_requests_are_dropped() {
    let mut l = live(Purpose::Preview, 1);
    let mut slot = FrameSlot::new();
    let mut done = completed(1, &[], None);
    done.complete = false;
    assert!(matches!(l.completed(done, false, 0, &mut slot).fate, Fate::Dropped));
    assert_eq!(l.outstanding, 3);
    l.lost();
    assert_eq!(l.outstanding, 2);
}

#[test]
fn stills_carry_the_raw_plane() {
    let mut l = live(Purpose::Video, 1);
    let mut slot = FrameSlot::new();
    l.capture_next = true;
    l.recording = true;
    let (view, raw) = ([9u8; 8], [1u8, 2, 3, 4, 5, 6]);
    let mut done = completed(1, &[("AnalogueGain", 2.0)], Some(&view));
    done.buffers.as_mut().unwrap().raw = Some(RawBuffer { width: 4, height: 1, stride: 6, format: "SRGGB10_CSI2P", used: 5, data: &raw });
    let out = l.completed(done, false, 0, &mut slot);
    assert!(out.record && !l.capture_next);
    let s = out.still.unwrap();
    assert_eq!((s.rgba, s.metadata.get("AnalogueGain"), s.zoom), (view.to_vec(), Some(n(2.0)), n(1.0)));
    let r = s.raw.unwrap();
    assert_eq!((r.format.as_str(), r.data), ("SRGGB10_CSI2P", vec![1, 2, 3, 4, 5]));
    assert_eq!(s.info.rotation, 270);
}

#[test]
fn a_photo_switches_modes_and_back_with_the_users_settings() {
    let mut slot = FrameSlot::new();
    let mut w = worker(Some(live(Purpose::Preview, 1)));
    assert!(matches!(w.command(Cmd::SetControl { id: 1, value: vec![n(1.0)] }), Step::Nothing));
    {
        let l = w.session.as_mut().unwrap();
        l.meta.insert("ExposureTime".into(), vec![n(20000.0)]);
        l.meta.insert("AnalogueGain".into(), vec![n(4.0)]);
    }
    let Step::Reopen(r) = w.command(Cmd::Capture) else { panic!() };
    assert!(w.session.is_none() && r.keep && r.purpose == Purpose::Still);
    assert_eq!((r.camera, r.mode), (0, Some(m(4032, 3032))));
    // The user's choice first, then what holds the exposure.
    assert_eq!(r.initial, vec![(1, vec![n(1.0)]), (1, vec![n(0.0)]), (6, vec![n(20000.0)]), (5, vec![n(4.0)])]);
    let Reopen { after, camera, .. } = r;
    let t = w.tried(camera, after, Ok(live(Purpose::Still, 2)));
    assert!(t.opened.is_none() && t.error.is_none() && t.next.is_none());
    let still = w.session.as_ref().unwrap();
    assert!(still.capture_next);
    assert_eq!((still.expect, &still.user), ((Some(n(20000.0)), Some(n(4.0))), &vec![(1, vec![n(1.0)])]));
    assert!(w.after_photo().is_none());
    // Not yet the held exposure: the frame is not the photo.
    let view = [0u8; 8];
    let out = w.done(completed(1, &[("ExposureTime", 33333.0), ("AnalogueGain", 4.0)], Some(&view)), 0, &mut slot).unwrap();
    assert!(out.still.is_none());
    let out = w.done(completed(1, &[("ExposureTime", 20500.0), ("AnalogueGain", 4.1)], Some(&view)), 0, &mut slot).unwrap();
    assert!(out.still.is_some() && !out.frame_ready && slot.frame.is_none());
    let back = w.after_photo().unwrap();
    assert!(back.keep && back.purpose == Purpose::Preview && matches!(back.after, After::Restore));
    assert_eq!((back.mode, back.initial), (Some(m(4032, 3032)), vec![(1, vec![n(1.0)])]));
}

#[test]
fn a_photo_comes_after_eight_frames_at_the_latest() {
    let mut slot = FrameSlot::new();
    let mut l = live(Purpose::Still, 1);
    l.capture_next = true;
    l.expect = (Some(n(20000.0)), Some(n(4.0)));
    let view = [0u8; 8];
    for i in 1..=8 {
        let out = l.completed(completed(1, &[("ExposureTime", 1.0)], Some(&view)), false, 0, &mut slot);
        assert_eq!(out.still.is_some(), i == 8);
        assert_eq!(l.frames_seen, i);
    }
}

#[test]
fn a_photo_mode_that_fails_falls_back_to_the_viewfinder() {
    let mut w = worker(Some(live(Purpose::Preview, 1)));
    w.session.as_mut().unwrap().set_control(6, vec![n(5.0)]);
    let r = w.capture().unwrap();
    let t = w.tried(r.camera, r.after, Err("start: busy".into()));
    assert_eq!(t.error.as_deref(), Some("start: busy"));
    let next = t.next.unwrap();
    assert!(!next.keep && next.closing.is_none() && next.purpose == Purpose::Preview);
    assert_eq!(next.initial, vec![(6, vec![n(5.0)])]);
    let t = w.tried(next.camera, next.after, Err("gone".into()));
    assert!(t.error.is_none() && t.next.is_none() && w.session.is_none());
}

#[test]
fn photos_come_from_the_viewfinder_when_told_to() {
    let mut w = worker(Some(live(Purpose::Preview, 1)));
    w.command(Cmd::FullResolution(false));
    assert!(matches!(w.command(Cmd::Capture), Step::Nothing));
    assert!(w.session.as_ref().unwrap().capture_next);
    let mut empty = worker(None);
    assert!(matches!(empty.command(Cmd::Capture), Step::Nothing));
}

#[test]
fn opening_the_same_camera_keeps_it() {
    let mut w = worker(Some(live(Purpose::Preview, 1)));
    let Step::Reopen(r) = w.command(Cmd::Open { camera: 0, mode: None, video: true }) else { panic!() };
    assert!(r.keep && r.closing.is_some() && r.purpose == Purpose::Video && r.info.is_some());
    let t = w.tried(0, r.after, Ok(live(Purpose::Video, 2)));
    assert_eq!(t.opened.unwrap().mode, m(4032, 3032));
    let Step::Reopen(r) = w.command(Cmd::Open { camera: 3, mode: None, video: false }) else { panic!() };
    assert!(!r.keep && r.info.is_none());
    let t = w.tried(3, r.after, Err(no_camera(3)));
    assert_eq!(t.error.as_deref(), Some("no camera 3"));
}

#[test]
fn late_requests_do_not_enter_the_next_session() {
    let mut w = worker(Some(live(Purpose::Preview, 7)));
    assert!(w.returned(6).is_none());
    assert!(w.returned(7).is_some());
    assert_eq!((w.number(), w.number()), (1, 2));
}

#[test]
fn closing_puts_commands_off_in_order() {
    let mut w = worker(Some(live(Purpose::Preview, 1)));
    let mut slot = FrameSlot::new();
    slot.deliver(Frame { width: 1, height: 1, stride: 4, fourcc: 0, fd: -1, offset: 0, bytes: None, ret: Some((3, 1)) });
    let Step::Close(l) = w.command(Cmd::Close) else { panic!() };
    let (mut c, waiting) = Closing::new(&l, &mut slot);
    assert_eq!(waiting.unwrap().ret, Some((3, 1)));
    c.receive(Internal::Returned(3, 1));
    c.receive(Internal::Cmd(Cmd::Capture));
    c.receive(Internal::Done(0));
    c.receive(Internal::Cmd(Cmd::Close));
    c.receive(Internal::Done(1));
    // One request is still out: it is waited for, up to the limit.
    assert_eq!([c.wait(0, false), c.wait(799, false), c.wait(800, false), c.wait(5000, false)], [Wait::Listen(800), Wait::Listen(1), Wait::Listen(0), Wait::Listen(0)]);
    assert_eq!(c.wait(800, true), Wait::GiveUp);
    c.receive(Internal::Done(2));
    assert_eq!((c.wait(0, false), c.wait(900, true)), (Wait::Over, Wait::Over));
    w.closed(c);
    assert!(matches!(w.next_deferred(), Some(Cmd::Capture)));
    assert!(matches!(w.next_deferred(), Some(Cmd::Close)));
    assert!(w.next_deferred().is_none());
    assert!(matches!(w.command(Cmd::Close), Step::Nothing));
}

#[test]
fn commands_reach_the_session_that_runs() {
    let mut w = worker(Some(live(Purpose::Video, 1)));
    w.command(Cmd::Record(true));
    assert!(w.session.as_ref().unwrap().recording);
    w.command(Cmd::CopyFrames(true));
    assert!(w.copy_frames);
    assert!(matches!(w.command(Cmd::FocusAt(n(0.5), n(0.5))), Step::Focus(r, _, _) if r.width == 4032));
    let mut slot = FrameSlot::new();
    w.close();
    assert!(w.done(completed(1, &[], None), 0, &mut slot).is_none());
    assert!(matches!(w.command(Cmd::FocusAt(n(0.5), n(0.5))), Step::Nothing));
    assert_eq!(numbers(&ControlValue::Bool(vec![true, false])), vec![n(1.0), n(0.0)]);
}
