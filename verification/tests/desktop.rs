use obscura::camera::{Cmd, Facing};
use obscura::modes::Mode;
use obscura::number::Number;
use obscura::perf::{PerfStats, Timing, WINDOW, first_word, init, on, resident, start_ticks};
use obscura::portal::{Access, Answer, Ask, request_access};
use obscura::preview::{Fake, Scene, Step, access, camera, cameras, fake, metadata, split_once, taimen_controls};
use obscura::settings::Kind;

const ID: &str = "io.github.jertlok.Obscura";

fn n(x: f64) -> Number {
    Number::from_bits(x.to_bits())
}

#[test]
fn access_is_asked_for_step_by_step() {
    assert!(matches!(request_access(Answer::Start { sandboxed: false, skip: false }, ID), Ask::Register));
    assert!(matches!(request_access(Answer::Start { sandboxed: true, skip: true }, ID), Ask::Connect));
    assert!(matches!(request_access(Answer::Start { sandboxed: false, skip: true }, ID), Ask::Done(Access::Unavailable(w)) if w == "OBSCURA_SKIP_PORTAL is set"));
    assert!(matches!(request_access(Answer::Registered, ID), Ask::Connect));
    assert!(matches!(request_access(Answer::Connected(Ok(())), ID), Ask::Question));
    assert!(matches!(request_access(Answer::Connected(Err("no bus".into())), ID), Ask::Done(Access::Unavailable(w)) if w == "no bus"));
    assert!(matches!(request_access(Answer::Agreed { pipewire: false }, ID), Ask::Done(Access::Granted { remote: false })));
    assert!(matches!(request_access(Answer::Agreed { pipewire: true }, ID), Ask::OpenRemote));
    assert!(matches!(request_access(Answer::Refused, ID), Ask::Done(Access::Denied)));
    assert!(matches!(request_access(Answer::Failed("odd".into()), ID), Ask::Done(Access::Unavailable(w)) if w == "odd"));
    assert!(matches!(request_access(Answer::Remote(Ok(())), ID), Ask::Done(Access::Granted { remote: true })));
    assert!(matches!(request_access(Answer::Remote(Err("gone".into())), ID), Ask::Done(Access::Unavailable(w)) if w == "no PipeWire remote: gone"));
}

#[test]
fn only_application_ids_are_registered() {
    let registers = |id: &str| matches!(request_access(Answer::Start { sandboxed: false, skip: false }, id), Ask::Register);
    let long = format!("a.{}", "b".repeat(253));
    for id in ["a.b", "a_c.b_c.h_c", "a.c-b", "a.c2.d", "_org.SomeApp", "a.-b", long.as_str()] {
        assert!(registers(id), "{id}");
    }
    let longer = format!("a.{}", "b".repeat(254));
    for id in ["", "a", ".", "a..c", ".a.b", "a.b.", "a-z.b.c", "a.0b.c", "0a.b", "a.é", "a b.c", longer.as_str()] {
        assert!(!registers(id), "{id}");
    }
}

#[test]
fn the_kernels_texts_are_read() {
    let stat = "12 (ob (s) cura) S 1 2 3 4 5 6 7 8 9 10 11 12 13 14 15 16 17 18 4242 99";
    assert_eq!(start_ticks(stat).as_deref(), Some("4242"));
    assert_eq!(start_ticks("12 obscura S 1"), None);
    assert_eq!(start_ticks("12 (o) S 1 2"), None);
    assert_eq!(first_word(" 123.45 99\n").as_deref(), Some("123.45"));
    assert_eq!(first_word(" \n"), None);
    assert_eq!(resident("Name:\tobscura\nVmRSS:\t   81234 kB\nThreads:\t1\n").as_deref(), Some("81234"));
    assert_eq!(resident("VmRSS: 5kBkB").as_deref(), Some("5"));
    assert_eq!(resident("Name:\tobscura\n"), None);
    let mut t = Timing::new();
    let seen: Vec<bool> = [false, true, false, true].into_iter().map(|v| {
        init(&mut t, v);
        on(&t)
    }).collect();
    assert!(!on(&Timing::new()));
    assert_eq!(seen, [false, true, true, true]);
}

#[test]
fn frames_are_counted_between_reports() {
    let mut p = PerfStats::new();
    assert_eq!(p.painted(WINDOW), None);
    p.delivered(2, 50);
    p.delivered(0, 70);
    assert_eq!((p.delivered, p.dropped, p.set_since_paint, p.main_ns, p.main_max_ns), (2, 2, 2, 120, 70));
    assert_eq!(p.painted(1), None);
    // Of the two frames set since, one was never seen.
    assert_eq!((p.presented, p.dropped, p.set_since_paint), (1, 3, 0));
    assert_eq!(p.presented + p.dropped + p.set_since_paint, p.delivered + 2);
    p.delivered(0, 10);
    let report = p.painted(WINDOW).unwrap();
    assert_eq!((report.delivered, report.presented, report.dropped), (3, 2, 3));
    assert_eq!(p, PerfStats::new());
}

#[test]
fn fakes_are_selected_by_name() {
    assert_eq!((fake(None), fake(Some("")), fake(Some("busy"))), (None, None, Some("busy")));
    assert!(access(None).is_none());
    assert!(matches!(access(Some("denied")), Some(Access::Denied)));
    assert!(matches!(access(Some("taimen")), Some(Access::Unavailable(w)) if w == "OBSCURA_FAKE"));
    let ids = |name: &str| cameras(name).into_iter().map(|c| c.id).collect::<Vec<_>>();
    assert_eq!((ids("nocamera"), ids("busy"), ids("taimen")), (vec![], vec!["back".to_string(), "front".into()], vec!["back".to_string(), "front".into()]));
    assert_eq!(split_once("12,34,5", ','), Some(("12".into(), "34,5".into())));
    assert_eq!(split_once("AfMode=1", '='), Some(("AfMode".into(), "1".into())));
    assert_eq!(split_once("none", '='), None);
}

#[test]
fn the_fake_camera_speaks_the_protocol() {
    let controls = taimen_controls();
    let rate = (n(5.0), n(120.0));
    let mut f = Fake::new("taimen");
    assert!(f.frame().is_none() && matches!(f.command(Cmd::Capture, &controls, rate), Step::Nothing));
    let Step::Opened(s) = f.command(Cmd::Open { camera: 0, mode: None, video: false }, &controls, rate) else { panic!() };
    assert_eq!((s.mode, s.view, s.info.rotation, s.fps, s.controls.len(), s.raw), (Mode { width: 4032, height: 3032 }, Mode { width: 2016, height: 1512 }, 270, Some(rate), 19, true));
    assert_eq!(f.frame(), Some(Scene { width: 252, height: 189, front: false }));
    assert!(matches!(f.command(Cmd::Capture, &controls, rate), Step::Photo { scene: Scene { width: 504, height: 379, front: false }, pause: true }));
    f.command(Cmd::FullResolution(false), &controls, rate);
    assert!(matches!(f.command(Cmd::Capture, &controls, rate), Step::Photo { pause: false, .. }));
    let Step::Opened(s) = f.command(Cmd::Open { camera: 1, mode: Some(Mode { width: 3280, height: 1846 }), video: true }, &controls, rate) else { panic!() };
    assert_eq!((s.info.facing, s.info.rotation, s.view), (Facing::Front, 90, Mode { width: 3280, height: 1846 }));
    assert!(matches!(f.command(Cmd::SetControl { id: 1, value: vec![] }, &controls, rate), Step::Nothing));
    f.command(Cmd::Close, &controls, rate);
    assert!(f.frame().is_none());
    let mut busy = Fake::new("busy");
    assert!(matches!(busy.command(Cmd::Open { camera: 7, mode: None, video: false }, &controls, rate), Step::Error(e) if e == "cannot acquire camera: Device or resource busy"));
}

#[test]
fn the_fake_camera_is_shaped_like_the_pixel() {
    let c = taimen_controls();
    assert_eq!(c.iter().map(|c| c.id).collect::<Vec<_>>(), (1..=19).collect::<Vec<_>>());
    assert_eq!((c[16].name.as_str(), c[16].kind, c[16].def.clone()), ("Gamma", Kind::Float, vec![n(2.2)]));
    assert_eq!(c[3].enums[2], (2, "AfModeContinuous".to_string()));
    assert_eq!((c[14].min, c[14].max), (n(-2.0), n(2.0)));
    let m = metadata();
    assert_eq!((m.get("LensPosition"), m.get("AfState"), m.all("ColourGains")), (Some(n(1.2)), Some(n(2.0)), Some(&vec![n(1.8), n(1.5)])));
    assert_eq!((camera(0).id.as_str(), camera(1).model.as_str()), ("back", "imx179"));
}
