use obscura::camera::{CameraInfo, Cmd, Facing, FrameSlot};
use obscura::modes::Mode;
use obscura::number::Number;
use obscura::pipewire::{
    Caps, Choice, Key, Negotiated, Nodes, Prop, Sample, Step, Stream, Value, VideoFormat, Wait, default_mode, describe, fourcc, modes, node_info, orientation_degrees, pick_mode,
    props, session, waiting, wanted,
};
use obscura::settings::Kind;

fn n(x: f64) -> Number {
    Number::from_bits(x.to_bits())
}

fn caps(name: &str, width: i32, height: i32) -> Caps {
    Caps { name: name.into(), width: Some(width), height: Some(height) }
}

#[test]
fn sizes_and_orientation_from_gstreamer() {
    let caps = vec![caps("video/x-raw", 640, 480), caps("video/x-raw", 1920, 1080), caps("video/x-raw", 640, 480), caps("image/jpeg", 4000, 3000)];
    assert_eq!(modes(&caps), [Mode { width: 1920, height: 1080 }, Mode { width: 640, height: 480 }]);
    assert_eq!(default_mode(&modes(&caps)), Some(Mode { width: 1920, height: 1080 }));
    assert_eq!(default_mode(&[Mode { width: 4032, height: 3024 }]), Some(Mode { width: 4032, height: 3024 }));
    assert_eq!(orientation_degrees("rotate-270"), Some(270));
    assert_eq!(orientation_degrees("flip-rotate-90"), None);
    assert_eq!(fourcc(VideoFormat::Rgbx), Some(u32::from_le_bytes(*b"XB24")));
}

fn info(id: u32, name: &str, kind: Value, labels: Option<Vec<Value>>) -> Vec<(Key, Value)> {
    let mut properties = vec![(Key::Id, Value::Id(id)), (Key::Description, Value::Text(name.into())), (Key::Type, kind)];
    if let Some(l) = labels {
        properties.push((Key::Labels, Value::Struct(l)));
    }
    properties
}

#[test]
fn prop_infos_become_controls() {
    let exposure = info(0x100_0010, "ExposureTime", Value::Ints(Choice::Range { default: 20000, min: 100, max: 66666 }), None);
    let d = describe(&exposure).unwrap();
    assert_eq!((d.name.as_str(), d.kind, d.min, d.max, d.def[0]), ("ExposureTime", Kind::Int, n(100.0), n(66666.0), n(20000.0)));

    let af = info(
        0x100_0020,
        "AfMode",
        Value::Ints(Choice::Enum { default: 2, alternatives: vec![0, 1, 2] }),
        Some(vec![Value::Int(0), Value::Text("AfModeManual".into()), Value::Int(2), Value::Text("AfModeContinuous".into())]),
    );
    let d = describe(&af).unwrap();
    assert_eq!(d.enums, vec![(0, "AfModeManual".to_string()), (2, "AfModeContinuous".to_string())]);
    assert_eq!((d.min, d.max, d.def[0]), (n(0.0), n(2.0), n(2.0)));

    let ae = info(0x100_0030, "AeEnable", Value::Bools(Choice::Enum { default: true, alternatives: vec![false, true] }), None);
    assert_eq!(describe(&ae).unwrap().kind, Kind::Bool);
}

#[test]
fn other_params_are_no_controls() {
    assert!(describe(&info(1, "Steps", Value::Ints(Choice::Other), None)).is_none());
    assert!(describe(&info(1, "Text", Value::Text("x".into()), None)).is_none());
    assert!(describe(&vec![(Key::Id, Value::Id(1)), (Key::Type, Value::Ints(Choice::Fixed(1)))]).is_none());
    assert!(describe(&vec![(Key::Description, Value::Text("x".into())), (Key::Type, Value::Ints(Choice::Fixed(1)))]).is_none());
    let gamma = describe(&info(7, "Gamma", Value::Floats(Choice::Fixed(n(2.2))), None)).unwrap();
    assert_eq!((gamma.id, gamma.kind, gamma.len, gamma.min, gamma.max, gamma.def), (7, Kind::Float, 1, n(2.2), n(2.2), vec![n(2.2)]));
    // Labels that are no pairs are passed over, and so is an odd one out.
    let labels = vec![Value::Text("a".into()), Value::Int(1), Value::Int(2), Value::Text("b".into()), Value::Int(3)];
    let d = describe(&info(8, "Mode", Value::Ints(Choice::Enum { default: 5, alternatives: vec![] }), Some(labels))).unwrap();
    assert_eq!((d.enums, d.min, d.max), (vec![(2, "b".to_string())], n(5.0), n(5.0)));
}

#[test]
fn settings_are_typed_for_the_node() {
    assert_eq!(props(Kind::Float, &[n(0.5)]), Some(Prop::Float(n(0.5))));
    assert_eq!(props(Kind::Int, &[n(2.5), n(9.0)]), Some(Prop::Int(3)));
    assert_eq!(props(Kind::Bool, &[n(0.0)]), Some(Prop::Bool(false)));
    assert_eq!(props(Kind::Other, &[n(0.0)]), None);
    assert_eq!(props(Kind::Int, &[]), None);
}

#[test]
fn pipewire_is_used_in_a_sandbox_or_when_asked_for() {
    assert!(wanted(Some("pipewire"), false) && wanted(Some("pipewire"), true));
    assert!(wanted(Some("libcamera"), true) && !wanted(Some("libcamera"), false));
    assert!(wanted(None, true) && !wanted(None, false));
}

#[test]
fn streams_have_five_seconds_to_start() {
    assert!(matches!(waiting(true, 0), Wait::Started) && matches!(waiting(true, 9000), Wait::Started));
    assert!(matches!(waiting(false, 0), Wait::Again(20)) && matches!(waiting(false, 5000), Wait::Again(20)));
    assert!(matches!(waiting(false, 5001), Wait::Failed(e) if e == "the PipeWire stream did not start"));
}

#[test]
fn sizes_without_duplicates_largest_first() {
    let m = |width, height| Mode { width, height };
    let list = vec![caps("video/x-raw", 100, 50), caps("video/x-raw", 50, 100), caps("video/x-raw", 100, 50), caps("video/x-raw", 200, 100)];
    assert_eq!(modes(&list), vec![m(200, 100), m(100, 50), m(50, 100)]);
    assert_eq!(modes(&vec![Caps { name: "video/x-raw".into(), width: Some(1), height: None }]), vec![]);
    let all = vec![m(4032, 3024), m(1920, 1080), m(1280, 720)];
    assert_eq!(pick_mode(&all, Some(m(1280, 720))), Some(m(1280, 720)));
    assert_eq!(pick_mode(&all, Some(m(1, 1))), Some(m(1920, 1080)));
    assert_eq!(pick_mode(&vec![m(4032, 3024), m(2048, 1536)], None), Some(m(2048, 1536)));
    assert_eq!(pick_mode(&vec![], None), None);
    assert_eq!(default_mode(&[m(100, 50), m(50, 100)]), Some(m(50, 100)));
}

#[test]
fn nodes_are_named_by_their_properties() {
    let i = node_info(Some("42"), Some("node"), "Back Camera", Some("back"));
    assert_eq!((i.id.as_str(), i.model.as_str(), i.facing, i.rotation), ("42", "Back Camera", Facing::Back, 0));
    let i = node_info(None, Some("node"), "Webcam", None);
    assert_eq!((i.id.as_str(), i.facing), ("node", Facing::External));
    let i = node_info(None, None, "Webcam", Some("front"));
    assert_eq!((i.id.as_str(), i.facing), ("Webcam", Facing::Front));
}

#[test]
fn all_formats_have_codes() {
    let codes: Vec<_> = [VideoFormat::Nv12, VideoFormat::Rgba, VideoFormat::Bgrx, VideoFormat::Bgra].map(fourcc).into();
    assert_eq!(codes, [b"NV12", b"AB24", b"XR24", b"AR24"].map(|c| Some(u32::from_le_bytes(*c))));
    assert_eq!(fourcc(VideoFormat::Other), None);
    assert_eq!(["rotate-0", "rotate-90", "rotate-180", ""].map(orientation_degrees), [Some(0), Some(90), Some(180), None]);
}

#[test]
fn a_stream_becomes_a_session() {
    let view = Mode { width: 640, height: 480 };
    let s = session(2, node_info(None, None, "Webcam", None), vec![view], view, 90, &Negotiated { view, format: VideoFormat::Nv12, rate: Some(n(30.0)) });
    assert_eq!((s.camera, s.info.rotation, s.fourcc, s.raw, s.fps, s.controls.len()), (2, 90, u32::from_le_bytes(*b"NV12"), false, Some((n(30.0), n(30.0))), 0));
    let s = session(2, node_info(None, None, "Webcam", None), vec![view], view, 0, &Negotiated { view, format: VideoFormat::Other, rate: Some(n(0.0)) });
    assert_eq!((s.fourcc, s.fps), (0, None));
}

fn sample<'a>(data: &'a [u8], format: VideoFormat) -> Sample<'a> {
    Sample { width: 1, height: 1, stride: 4, format, data }
}

#[test]
fn samples_are_copied_and_photographed() {
    let (mut s, mut slot) = (Stream::new(), FrameSlot::new());
    s.command(Cmd::Capture, 1);
    // Nothing streams yet: the photo is lost, the frame is shown.
    let out = s.sample(&sample(&[1, 2, 3, 4], VideoFormat::Rgbx), &mut slot);
    assert!(out.still.is_none() && out.frame_ready && !s.capture && !s.first);
    s.begin(CameraInfo { id: "1".into(), model: "Webcam".into(), facing: Facing::External, rotation: 0 });
    s.tag("rotate-90");
    s.tag("flip-rotate-90");
    s.command(Cmd::Capture, 1);
    s.command(Cmd::Record(true), 1);
    let out = s.sample(&sample(&[5, 6, 7, 8], VideoFormat::Other), &mut slot);
    assert!(out.still.is_none() && !out.record && !out.frame_ready && s.capture && s.first);
    let out = s.sample(&sample(&[5, 6, 7, 8], VideoFormat::Rgbx), &mut slot);
    assert!(out.record && !out.frame_ready && out.stale.is_some());
    let p = out.still.unwrap();
    assert_eq!((p.rgba, p.info.rotation, p.info.model.as_str(), p.zoom, p.metadata.values.len()), (vec![5, 6, 7, 8], 90, "Webcam", n(1.0), 0));
    let f = slot.take_frame().unwrap();
    assert_eq!((f.bytes, f.fd, f.ret, slot.take_replaced()), (Some(vec![5, 6, 7, 8]), -1, None, 1));
}

#[test]
fn stream_commands_ask_for_the_pipeline() {
    let mut s = Stream::new();
    assert!(matches!(s.command(Cmd::Open { camera: 0, mode: None, video: false }, 1), Step::Open { camera: 0, mode: None }));
    assert!(matches!(s.command(Cmd::Open { camera: 1, mode: None, video: false }, 1), Step::Missing(e) if e == "no camera 1"));
    assert!(matches!(s.command(Cmd::Close, 1), Step::Close));
    assert!(matches!(s.command(Cmd::SetControl { id: 3, value: vec![n(1.0)] }, 1), Step::Control { id: 3, value } if value == vec![n(1.0)]));
    assert!(matches!(s.command(Cmd::FullResolution(true), 1), Step::Nothing));
}

#[test]
fn nodes_announce_their_controls_by_name() {
    let control = |id: u32, name: &str, max: i32| describe(&info(id, name, Value::Ints(Choice::Range { default: 0, min: 0, max }), None)).unwrap();
    let mut nodes = Nodes::new();
    assert!(nodes.announce().is_none());
    assert!(nodes.watch("42".into()).is_none());
    nodes.appear("42".into());
    nodes.appear("43".into());
    assert!(nodes.learn("43", control(1, "Gain", 8)).is_none());
    assert_eq!(nodes.learn("42", control(2, "Zoom", 4)).unwrap().len(), 1);
    let list = nodes.learn("42", control(1, "Exposure", 100)).unwrap();
    assert_eq!(list.iter().map(|c| c.name.as_str()).collect::<Vec<_>>(), vec!["Exposure", "Zoom"]);
    // News of a known control replaces what was known.
    let list = nodes.learn("42", control(2, "Zoom", 6)).unwrap();
    assert_eq!((list.len(), list[1].max), (2, n(6.0)));
    assert!(nodes.learn("44", control(1, "Gain", 8)).is_none());
    assert_eq!(nodes.setting(2, &vec![n(3.2)]), Some(Prop::Int(3)));
    assert_eq!(nodes.setting(9, &vec![n(3.2)]), None);
    assert_eq!(nodes.watch("43".into()).unwrap()[0].name, "Gain");
    // A node that appears again starts over.
    nodes.appear("43".into());
    assert_eq!(nodes.announce().unwrap().len(), 0);
    assert_eq!(nodes.setting(1, &vec![n(1.0)]), None);
}
