//! Development only: a fake camera shaped like the Pixel 2 XL's, so that the
//! interface can be driven on a machine without the device.

use crate::camera::{Camera, CameraInfo, Cmd, Facing, Opened, Session};
use crate::modes::{Mode, has_mode, serves, viewfinder_mode};
use crate::number::{Number, law_integers_survive};
use crate::portal::Access;
use crate::settings::{Control, ControlDesc, Kind, Metadata, copied_controls, labels, reading, views};
use crate::text;
use vstd::prelude::*;

verus! {

/// The fake that OBSCURA_FAKE selects, where it is set and not empty:
/// `taimen` (a Pixel 2 XL-shaped back and front camera), `denied` (the portal
/// says no), `nocamera` or `busy`.
pub fn fake(variable: Option<&str>) -> (f: Option<&str>)
    ensures
        f == match variable {
            Some(v) if v@.len() > 0 => variable,
            _ => None,
        },
{
    match variable {
        Some(v) => if v.is_empty() {
            None
        } else {
            Some(v)
        },
        None => None,
    }
}

/// The portal's answer under a fake camera.
pub fn access(fake: Option<&str>) -> (a: Option<Access>)
    ensures
        match fake {
            Some(f) => if f@ == "denied"@ {
                a == Some(Access::Denied)
            } else {
                a matches Some(Access::Unavailable(why)) && why@ == "OBSCURA_FAKE"@
            },
            None => a is None,
        },
{
    match fake {
        Some(f) => Some(
            if text::same(f, "denied") {
                Access::Denied
            } else {
                Access::Unavailable(String::from_str("OBSCURA_FAKE"))
            },
        ),
        None => None,
    }
}

/// What precedes the first `c` of a text, and what follows it.
pub open spec fn split_at_first(s: Seq<char>, c: char) -> Option<(Seq<char>, Seq<char>)> {
    let n = text::first_of(s, c);
    if n < s.len() {
        Some((s.take(n), s.skip(n + 1)))
    } else {
        None
    }
}

/// Part a text at the first `c`: "x,y" of a point, "Control=value" of a
/// setting.
pub fn split_once(s: &str, c: char) -> (r: Option<(String, String)>)
    ensures
        match r {
            Some((a, b)) => split_at_first(s@, c) == Some((a@, b@)),
            None => split_at_first(s@, c) is None,
        },
{
    let v: Vec<char> = text::chars(s);
    let n: usize = text::find(&v, c);
    if n >= v.len() {
        return None;
    }
    assert(s@.take(n as int) =~= s@.subrange(0, n as int));
    assert(s@.skip(n + 1) =~= s@.subrange(n + 1, s@.len() as int));
    Some((text::gather(&v, 0, n), text::gather(&v, n + 1, v.len())))
}

/// The modes of a fake camera: of the back one, or of the front one.
pub open spec fn fake_modes(camera: usize) -> Seq<Mode> {
    if camera == 0 {
        seq![
            Mode { width: 4032, height: 3032 },
            Mode { width: 4032, height: 2272 },
            Mode { width: 2016, height: 1512 },
            Mode { width: 2016, height: 1136 },
        ]
    } else {
        seq![Mode { width: 3280, height: 2464 }, Mode { width: 3280, height: 1846 }]
    }
}

fn modes(camera: usize) -> (m: Vec<Mode>)
    ensures
        m@ == fake_modes(camera),
{
    let mut m: Vec<Mode> = Vec::new();
    if camera == 0 {
        m.push(Mode { width: 4032, height: 3032 });
        m.push(Mode { width: 4032, height: 2272 });
        m.push(Mode { width: 2016, height: 1512 });
        m.push(Mode { width: 2016, height: 1136 });
    } else {
        m.push(Mode { width: 3280, height: 2464 });
        m.push(Mode { width: 3280, height: 1846 });
    }
    assert(m@ =~= fake_modes(camera));
    m
}

/// A fake camera, by its index.
pub open spec fn fake_camera(camera: usize) -> Camera {
    if camera == 0 {
        Camera { id: "back"@, model: "imx362"@, facing: Facing::Back, rotation: 0 }
    } else {
        Camera { id: "front"@, model: "imx179"@, facing: Facing::Front, rotation: 0 }
    }
}

/// One of the two fake cameras.
pub fn camera(index: usize) -> (c: CameraInfo)
    ensures
        c@ == fake_camera(index),
{
    if index == 0 {
        CameraInfo {
            id: String::from_str("back"),
            model: String::from_str("imx362"),
            facing: Facing::Back,
            rotation: 0,
        }
    } else {
        CameraInfo {
            id: String::from_str("front"),
            model: String::from_str("imx179"),
            facing: Facing::Front,
            rotation: 0,
        }
    }
}

/// The cameras a fake reports: none for `nocamera`, else the back and the
/// front one.
pub fn cameras(fake: &str) -> (v: Vec<CameraInfo>)
    ensures
        fake@ == "nocamera"@ ==> v@.len() == 0,
        fake@ != "nocamera"@ ==> v@.len() == 2 && v@[0]@ == fake_camera(0) && v@[1]@ == fake_camera(1),
{
    let mut v: Vec<CameraInfo> = Vec::new();
    if !text::same(fake, "nocamera") {
        v.push(camera(0));
        v.push(camera(1));
    }
    v
}

/// A fake camera that is open.
#[derive(Debug)]
pub struct Running {
    pub mode: Mode,
    pub view: Mode,
    pub info: CameraInfo,
}

/// The fake camera's state.
#[derive(Debug)]
pub struct Fake {
    /// Another application has the camera.
    pub busy: bool,
    pub open: Option<Running>,
    pub full_resolution: bool,
}

/// A picture to draw, an eighth of its mode's size each way.
#[derive(Debug, Clone, Copy, PartialEq, Eq, Structural)]
pub struct Scene {
    pub width: u32,
    pub height: u32,
    pub front: bool,
}

/// What a command leads to.
#[derive(Debug)]
pub enum Step {
    Nothing,
    Error(String),
    Opened(Session),
    /// A photo of this scene; `pause` asks for the wait of a reconfiguration.
    Photo { scene: Scene, pause: bool },
}

/// The scene of a mode of a camera.
pub open spec fn scene_of(m: Mode, info: Camera) -> Scene {
    Scene { width: m.width / 8, height: m.height / 8, front: info.facing == Facing::Front }
}

/// The fake opens: at the size asked for, or its first; with a viewfinder
/// that serves photos, or for video at the size itself.
pub open spec fn opens(f: Fake, camera: usize, mode: Option<Mode>, video: bool) -> bool {
    let modes = fake_modes(camera);
    f.open matches Some(r) && {
        &&& r.mode == if mode is Some && modes.contains(mode->0) {
            mode->0
        } else {
            modes[0]
        }
        &&& if video {
            r.view == r.mode
        } else {
            serves(modes, r.mode, r.view)
        }
        &&& r.info@ == (Camera {
            rotation: if camera == 0 {
                270
            } else {
                90
            },
            ..fake_camera(camera)
        })
    }
}

/// The session of a fake camera that is open.
pub open spec fn fake_session(camera: usize, r: Running, controls: Seq<Control>, rate: (Number, Number)) -> Opened {
    Opened {
        camera,
        info: r.info@,
        modes: fake_modes(camera),
        mode: r.mode,
        view: r.view,
        fourcc: 0x3432_4258,
        controls,
        raw: true,
        fps: Some(rate),
        af_windows: false,
    }
}

impl Fake {
    pub fn new(fake: &str) -> (f: Fake)
        ensures
            f == (Fake { busy: fake@ == "busy"@, open: None, full_resolution: true }),
    {
        Fake { busy: text::same(fake, "busy"), open: None, full_resolution: true }
    }

    /// Carry out a command. `controls` are those of the cameras, `rate` their
    /// slowest and fastest frame rate.
    pub fn command(&mut self, cmd: Cmd, controls: &Vec<ControlDesc>, rate: (Number, Number)) -> (step: Step)
        requires
            cmd matches Cmd::Open { camera, .. } ==> old(self).busy || camera < 2,
        ensures
            final(self).busy == old(self).busy,
            match cmd {
                Cmd::Open { camera, mode, video } => {
                    &&& final(self).full_resolution == old(self).full_resolution
                    &&& if old(self).busy {
                        &&& final(self).open == old(self).open
                        &&& step matches Step::Error(e) && e@ == "cannot acquire camera: Device or resource busy"@
                    } else {
                        &&& opens(*final(self), camera, mode, video)
                        &&& step matches Step::Opened(s) && s@ == fake_session(camera, final(self).open->0, views(controls@), rate)
                    }
                },
                Cmd::FullResolution(on) => {
                    &&& step is Nothing
                    &&& *final(self) == (Fake { full_resolution: on, ..*old(self) })
                },
                Cmd::Capture => {
                    &&& *final(self) == *old(self)
                    &&& match old(self).open {
                        Some(r) => step == (Step::Photo {
                            scene: scene_of(r.mode, r.info@),
                            pause: old(self).full_resolution && r.view != r.mode,
                        }),
                        None => step is Nothing,
                    }
                },
                Cmd::Close => step is Nothing && *final(self) == (Fake { open: None, ..*old(self) }),
                _ => step is Nothing && *final(self) == *old(self),
            },
    {
        match cmd {
            Cmd::Open { camera, mode, video } => {
                if self.busy {
                    return Step::Error(String::from_str("cannot acquire camera: Device or resource busy"));
                }
                let all: Vec<Mode> = modes(camera);
                let chosen: Mode = match mode {
                    Some(m) => if has_mode(&all, m) {
                        m
                    } else {
                        all[0]
                    },
                    None => all[0],
                };
                let view: Mode = if video { chosen } else { viewfinder_mode(all.as_slice(), chosen) };
                let found: CameraInfo = self::camera(camera);
                let info = CameraInfo {
                    id: found.id,
                    model: found.model,
                    facing: found.facing,
                    rotation: if camera == 0 { 270 } else { 90 },
                };
                let session = Session {
                    camera,
                    info: info.copy(),
                    modes: all,
                    mode: chosen,
                    view,
                    fourcc: crate::camera::fourcc([0x58, 0x42, 0x32, 0x34]),
                    controls: copied_controls(controls),
                    raw: true,
                    fps: Some(rate),
                    af_windows: false,
                };
                self.open = Some(Running { mode: chosen, view, info });
                Step::Opened(session)
            },
            Cmd::FullResolution(on) => {
                self.full_resolution = on;
                Step::Nothing
            },
            Cmd::Capture => match &self.open {
                Some(r) => Step::Photo {
                    scene: Scene { width: r.mode.width / 8, height: r.mode.height / 8, front: r.info.facing == Facing::Front },
                    pause: self.full_resolution && r.view != r.mode,
                },
                None => Step::Nothing,
            },
            Cmd::Close => {
                self.open = None;
                Step::Nothing
            },
            _ => Step::Nothing,
        }
    }

    /// The viewfinder's picture, while a camera is open.
    pub fn frame(&self) -> (s: Option<Scene>)
        ensures
            s == match self.open {
                Some(r) => Some(scene_of(r.view, r.info@)),
                None => None,
            },
    {
        match &self.open {
            Some(r) => Some(
                Scene { width: r.view.width / 8, height: r.view.height / 8, front: r.info.facing == Facing::Front },
            ),
            None => None,
        }
    }
}

fn put(m: &mut Metadata, name: &str, value: Number)
    ensures
        final(m)@ == old(m)@.insert(name@, seq![value]),
{
    let mut v: Vec<Number> = Vec::new();
    v.push(value);
    assert(v@ =~= seq![value]);
    m.insert(String::from_str(name), v);
}

/// 1.2 as a number.
pub const ONE_POINT_TWO: u64 = 0x3ff3_3333_3333_3333;

/// 1.8 as a number.
pub const ONE_POINT_EIGHT: u64 = 0x3ffc_cccc_cccc_cccd;

/// 1.5 as a number.
pub const ONE_AND_A_HALF: u64 = 0x3ff8_0000_0000_0000;

/// 2.2 as a number.
pub const TWO_POINT_TWO: u64 = 0x4001_9999_9999_999a;

/// What every fake frame reports.
pub open spec fn fake_metadata() -> Map<Seq<char>, Seq<Number>> {
    Map::<Seq<char>, Seq<Number>>::empty().insert("AnalogueGain"@, seq![Number::of(4)]).insert(
        "ExposureTime"@,
        seq![Number::of(16666)],
    ).insert("ColourTemperature"@, seq![Number::of(4600)]).insert("LensPosition"@, seq![Number { bits: ONE_POINT_TWO }]).insert(
        "AfState"@,
        seq![Number::of(2)],
    ).insert("FrameDuration"@, seq![Number::of(33333)]).insert(
        "ColourGains"@,
        seq![Number { bits: ONE_POINT_EIGHT }, Number { bits: ONE_AND_A_HALF }],
    )
}

pub fn metadata() -> (m: Metadata)
    ensures
        m@ == fake_metadata(),
{
    let mut m: Metadata = Metadata::new();
    put(&mut m, "AnalogueGain", Number::from_i64(4));
    put(&mut m, "ExposureTime", Number::from_i64(16666));
    put(&mut m, "ColourTemperature", Number::from_i64(4600));
    put(&mut m, "LensPosition", Number { bits: ONE_POINT_TWO });
    put(&mut m, "AfState", Number::from_i64(2));
    put(&mut m, "FrameDuration", Number::from_i64(33333));
    let mut gains: Vec<Number> = Vec::new();
    gains.push(Number { bits: ONE_POINT_EIGHT });
    gains.push(Number { bits: ONE_AND_A_HALF });
    assert(gains@ =~= seq![Number { bits: ONE_POINT_EIGHT }, Number { bits: ONE_AND_A_HALF }]);
    m.insert(String::from_str("ColourGains"), gains);
    m
}

/// Labels numbered from 0.
pub open spec fn numbered(names: Seq<&str>) -> Seq<(i32, Seq<char>)> {
    Seq::new(names.len(), |i: int| (i as i32, names[i]@))
}

fn enums(names: &[&str]) -> (v: Vec<(i32, String)>)
    requires
        names@.len() <= 100,
    ensures
        labels(v@) == numbered(names@),
{
    let mut v: Vec<(i32, String)> = Vec::new();
    let mut i: usize = 0;
    assert(labels(v@) =~= numbered(names@).take(0));
    while i < names.len()
        invariant
            i <= names@.len() <= 100,
            labels(v@) == numbered(names@).take(i as int),
        decreases names@.len() - i,
    {
        let ghost before = labels(v@);
        v.push((i as i32, String::from_str(names[i])));
        assert(labels(v@) =~= before.push(numbered(names@)[i as int]));
        assert(numbered(names@).take(i + 1) =~= before.push(numbered(names@)[i as int]));
        i = i + 1;
    }
    assert(labels(v@) =~= numbered(names@));
    v
}

/// A control, with numbers that are integers.
pub open spec fn control(
    id: u32,
    name: Seq<char>,
    kind: Kind,
    min: int,
    max: int,
    def: Seq<Number>,
    names: Seq<&str>,
) -> Control {
    Control {
        id,
        name,
        kind,
        len: def.len() as usize,
        min: Number::of(min),
        max: Number::of(max),
        def,
        enums: numbered(names),
    }
}

fn desc(id: u32, name: &str, kind: Kind, min: i64, max: i64, def: &[Number], names: &[&str]) -> (c: ControlDesc)
    requires
        names@.len() <= 100,
    ensures
        c@ == control(id, name@, kind, min as int, max as int, def@, names@),
{
    ControlDesc {
        id,
        name: String::from_str(name),
        kind,
        len: def.len(),
        min: Number::from_i64(min),
        max: Number::from_i64(max),
        def: vstd::slice::slice_to_vec(def),
        enums: enums(names),
    }
}

pub open spec fn focus_and_exposure() -> Seq<Control> {
    seq![
        control(1, "AeConstraintMode"@, Kind::Int, 0, 3, seq![Number::of(0)], seq!["ConstraintNormal", "ConstraintHighlight", "ConstraintShadows", "ConstraintCustom"]),
        control(2, "AeEnable"@, Kind::Bool, 0, 1, seq![Number::of(1)], Seq::empty()),
        control(3, "AeExposureMode"@, Kind::Int, 0, 3, seq![Number::of(0)], seq!["ExposureNormal", "ExposureShort", "ExposureLong", "ExposureCustom"]),
        control(4, "AfMode"@, Kind::Int, 0, 2, seq![Number::of(2)], seq!["AfModeManual", "AfModeAuto", "AfModeContinuous"]),
        control(5, "AfTrigger"@, Kind::Int, 0, 1, seq![Number::of(0)], seq!["AfTriggerStart", "AfTriggerCancel"]),
    ]
}

fn add_focus_and_exposure(out: &mut Vec<ControlDesc>)
    ensures
        views(final(out)@) == views(old(out)@) + focus_and_exposure(),
{
    let ghost before = views(out@);
    let def: [Number; 1] = [Number::from_i64(0)];
    assert(def@ =~= seq![Number::of(0)]);
    let names: [&str; 4] = ["ConstraintNormal", "ConstraintHighlight", "ConstraintShadows", "ConstraintCustom"];
    assert(names@ =~= seq!["ConstraintNormal", "ConstraintHighlight", "ConstraintShadows", "ConstraintCustom"]);
    out.push(desc(1, "AeConstraintMode", Kind::Int, 0, 3, def.as_slice(), names.as_slice()));
    let def: [Number; 1] = [Number::from_i64(1)];
    assert(def@ =~= seq![Number::of(1)]);
    let names: [&str; 0] = [];
    assert(names@ =~= Seq::empty());
    out.push(desc(2, "AeEnable", Kind::Bool, 0, 1, def.as_slice(), names.as_slice()));
    let def: [Number; 1] = [Number::from_i64(0)];
    assert(def@ =~= seq![Number::of(0)]);
    let names: [&str; 4] = ["ExposureNormal", "ExposureShort", "ExposureLong", "ExposureCustom"];
    assert(names@ =~= seq!["ExposureNormal", "ExposureShort", "ExposureLong", "ExposureCustom"]);
    out.push(desc(3, "AeExposureMode", Kind::Int, 0, 3, def.as_slice(), names.as_slice()));
    let def: [Number; 1] = [Number::from_i64(2)];
    assert(def@ =~= seq![Number::of(2)]);
    let names: [&str; 3] = ["AfModeManual", "AfModeAuto", "AfModeContinuous"];
    assert(names@ =~= seq!["AfModeManual", "AfModeAuto", "AfModeContinuous"]);
    out.push(desc(4, "AfMode", Kind::Int, 0, 2, def.as_slice(), names.as_slice()));
    let def: [Number; 1] = [Number::from_i64(0)];
    assert(def@ =~= seq![Number::of(0)]);
    let names: [&str; 2] = ["AfTriggerStart", "AfTriggerCancel"];
    assert(names@ =~= seq!["AfTriggerStart", "AfTriggerCancel"]);
    out.push(desc(5, "AfTrigger", Kind::Int, 0, 1, def.as_slice(), names.as_slice()));
    assert(views(out@) =~= before + focus_and_exposure());
}

pub open spec fn gain_and_white_balance() -> Seq<Control> {
    seq![
        control(6, "AnalogueGain"@, Kind::Float, 1, 16, seq![Number::of(1)], Seq::empty()),
        control(7, "AnalogueGainMode"@, Kind::Int, 0, 1, seq![Number::of(0)], seq!["AnalogueGainModeAuto", "AnalogueGainModeManual"]),
        control(8, "AwbEnable"@, Kind::Bool, 0, 1, seq![Number::of(1)], Seq::empty()),
        control(9, "AwbMode"@, Kind::Int, 0, 6, seq![Number::of(0)], seq!["AwbAuto", "AwbIncandescent", "AwbTungsten", "AwbFluorescent", "AwbIndoor", "AwbDaylight", "AwbCloudy"]),
        control(10, "Brightness"@, Kind::Float, -1, 1, seq![Number::of(0)], Seq::empty()),
    ]
}

fn add_gain_and_white_balance(out: &mut Vec<ControlDesc>)
    ensures
        views(final(out)@) == views(old(out)@) + gain_and_white_balance(),
{
    let ghost before = views(out@);
    let def: [Number; 1] = [Number::from_i64(1)];
    assert(def@ =~= seq![Number::of(1)]);
    let names: [&str; 0] = [];
    assert(names@ =~= Seq::empty());
    out.push(desc(6, "AnalogueGain", Kind::Float, 1, 16, def.as_slice(), names.as_slice()));
    let def: [Number; 1] = [Number::from_i64(0)];
    assert(def@ =~= seq![Number::of(0)]);
    let names: [&str; 2] = ["AnalogueGainModeAuto", "AnalogueGainModeManual"];
    assert(names@ =~= seq!["AnalogueGainModeAuto", "AnalogueGainModeManual"]);
    out.push(desc(7, "AnalogueGainMode", Kind::Int, 0, 1, def.as_slice(), names.as_slice()));
    let def: [Number; 1] = [Number::from_i64(1)];
    assert(def@ =~= seq![Number::of(1)]);
    let names: [&str; 0] = [];
    assert(names@ =~= Seq::empty());
    out.push(desc(8, "AwbEnable", Kind::Bool, 0, 1, def.as_slice(), names.as_slice()));
    let def: [Number; 1] = [Number::from_i64(0)];
    assert(def@ =~= seq![Number::of(0)]);
    let names: [&str; 7] = ["AwbAuto", "AwbIncandescent", "AwbTungsten", "AwbFluorescent", "AwbIndoor", "AwbDaylight", "AwbCloudy"];
    assert(names@ =~= seq!["AwbAuto", "AwbIncandescent", "AwbTungsten", "AwbFluorescent", "AwbIndoor", "AwbDaylight", "AwbCloudy"]);
    out.push(desc(9, "AwbMode", Kind::Int, 0, 6, def.as_slice(), names.as_slice()));
    let def: [Number; 1] = [Number::from_i64(0)];
    assert(def@ =~= seq![Number::of(0)]);
    let names: [&str; 0] = [];
    assert(names@ =~= Seq::empty());
    out.push(desc(10, "Brightness", Kind::Float, -1, 1, def.as_slice(), names.as_slice()));
    assert(views(out@) =~= before + gain_and_white_balance());
}

pub open spec fn colour_and_time() -> Seq<Control> {
    seq![
        control(11, "ColourGains"@, Kind::Float, 0, 8, seq![Number::of(1), Number::of(1)], Seq::empty()),
        control(12, "Contrast"@, Kind::Float, 0, 2, seq![Number::of(1)], Seq::empty()),
        control(13, "ExposureTime"@, Kind::Int, 100, 200000, seq![Number::of(16666)], Seq::empty()),
        control(14, "ExposureTimeMode"@, Kind::Int, 0, 1, seq![Number::of(0)], seq!["ExposureTimeModeAuto", "ExposureTimeModeManual"]),
        control(15, "ExposureValue"@, Kind::Float, -2, 2, seq![Number::of(0)], Seq::empty()),
    ]
}

fn add_colour_and_time(out: &mut Vec<ControlDesc>)
    ensures
        views(final(out)@) == views(old(out)@) + colour_and_time(),
{
    let ghost before = views(out@);
    let def: [Number; 2] = [Number::from_i64(1), Number::from_i64(1)];
    assert(def@ =~= seq![Number::of(1), Number::of(1)]);
    let names: [&str; 0] = [];
    assert(names@ =~= Seq::empty());
    out.push(desc(11, "ColourGains", Kind::Float, 0, 8, def.as_slice(), names.as_slice()));
    let def: [Number; 1] = [Number::from_i64(1)];
    assert(def@ =~= seq![Number::of(1)]);
    let names: [&str; 0] = [];
    assert(names@ =~= Seq::empty());
    out.push(desc(12, "Contrast", Kind::Float, 0, 2, def.as_slice(), names.as_slice()));
    let def: [Number; 1] = [Number::from_i64(16666)];
    assert(def@ =~= seq![Number::of(16666)]);
    let names: [&str; 0] = [];
    assert(names@ =~= Seq::empty());
    out.push(desc(13, "ExposureTime", Kind::Int, 100, 200000, def.as_slice(), names.as_slice()));
    let def: [Number; 1] = [Number::from_i64(0)];
    assert(def@ =~= seq![Number::of(0)]);
    let names: [&str; 2] = ["ExposureTimeModeAuto", "ExposureTimeModeManual"];
    assert(names@ =~= seq!["ExposureTimeModeAuto", "ExposureTimeModeManual"]);
    out.push(desc(14, "ExposureTimeMode", Kind::Int, 0, 1, def.as_slice(), names.as_slice()));
    let def: [Number; 1] = [Number::from_i64(0)];
    assert(def@ =~= seq![Number::of(0)]);
    let names: [&str; 0] = [];
    assert(names@ =~= Seq::empty());
    out.push(desc(15, "ExposureValue", Kind::Float, -2, 2, def.as_slice(), names.as_slice()));
    assert(views(out@) =~= before + colour_and_time());
}

pub open spec fn rate_and_picture() -> Seq<Control> {
    seq![
        control(16, "FrameDurationLimits"@, Kind::Int, 8333, 200000, seq![Number::of(33333), Number::of(33333)], Seq::empty()),
        control(17, "Gamma"@, Kind::Float, 1, 4, seq![Number { bits: TWO_POINT_TWO }], Seq::empty()),
        control(18, "LensPosition"@, Kind::Float, 0, 7, seq![Number::of(1)], Seq::empty()),
        control(19, "Saturation"@, Kind::Float, 0, 2, seq![Number::of(1)], Seq::empty()),
    ]
}

fn add_rate_and_picture(out: &mut Vec<ControlDesc>)
    ensures
        views(final(out)@) == views(old(out)@) + rate_and_picture(),
{
    let ghost before = views(out@);
    let def: [Number; 2] = [Number::from_i64(33333), Number::from_i64(33333)];
    assert(def@ =~= seq![Number::of(33333), Number::of(33333)]);
    let names: [&str; 0] = [];
    assert(names@ =~= Seq::empty());
    out.push(desc(16, "FrameDurationLimits", Kind::Int, 8333, 200000, def.as_slice(), names.as_slice()));
    let def: [Number; 1] = [Number { bits: TWO_POINT_TWO }];
    assert(def@ =~= seq![Number { bits: TWO_POINT_TWO }]);
    let names: [&str; 0] = [];
    assert(names@ =~= Seq::empty());
    out.push(desc(17, "Gamma", Kind::Float, 1, 4, def.as_slice(), names.as_slice()));
    let def: [Number; 1] = [Number::from_i64(1)];
    assert(def@ =~= seq![Number::of(1)]);
    let names: [&str; 0] = [];
    assert(names@ =~= Seq::empty());
    out.push(desc(18, "LensPosition", Kind::Float, 0, 7, def.as_slice(), names.as_slice()));
    let def: [Number; 1] = [Number::from_i64(1)];
    assert(def@ =~= seq![Number::of(1)]);
    let names: [&str; 0] = [];
    assert(names@ =~= Seq::empty());
    out.push(desc(19, "Saturation", Kind::Float, 0, 2, def.as_slice(), names.as_slice()));
    assert(views(out@) =~= before + rate_and_picture());
}

/// The Pixel 2 XL's controls.
pub open spec fn taimen() -> Seq<Control> {
    focus_and_exposure() + gain_and_white_balance() + colour_and_time() + rate_and_picture()
}

pub fn taimen_controls() -> (v: Vec<ControlDesc>)
    ensures
        views(v@) == taimen(),
{
    let mut v: Vec<ControlDesc> = Vec::new();
    assert(views(v@) =~= Seq::empty());
    add_focus_and_exposure(&mut v);
    add_gain_and_white_balance(&mut v);
    add_colour_and_time(&mut v);
    add_rate_and_picture(&mut v);
    assert(views(v@) =~= taimen());
    v
}

/// The fake back camera is the one on the back, with its full, wide and
/// binned modes; the front one has two of its own.
pub proof fn law_fake_cameras_have_their_modes(camera: usize)
    requires
        camera > 0,
    ensures
        fake_modes(0) == seq![
            Mode { width: 4032, height: 3032 },
            Mode { width: 4032, height: 2272 },
            Mode { width: 2016, height: 1512 },
            Mode { width: 2016, height: 1136 },
        ],
        fake_modes(camera) == seq![Mode { width: 3280, height: 2464 }, Mode { width: 3280, height: 1846 }],
        crate::modes::largest_first(fake_modes(0)) && crate::modes::largest_first(fake_modes(camera)),
        fake_camera(0).facing == Facing::Back && fake_camera(camera).facing == Facing::Front,
        fake_camera(0).id == "back"@ && fake_camera(camera).id == "front"@,
        fake_camera(0).model == "imx362"@ && fake_camera(camera).model == "imx179"@,
        fake_camera(0).rotation == 0 && fake_camera(camera).rotation == 0,
{
    let (b, f) = (fake_modes(0), fake_modes(camera));
    assert(b[0].spec_area() == 12225024 && b[1].spec_area() == 9160704 && b[2].spec_area() == 3048192 && b[3].spec_area() == 2290176);
    assert(f[0].spec_area() == 8081920 && f[1].spec_area() == 6054880);
    assert(b.len() == 4 && f.len() == 2);
}

/// A fake opens at a mode that its camera has, the one asked for where that
/// is one, and is mounted as in the device.
pub proof fn law_fakes_open_at_their_modes(f: Fake, camera: usize, mode: Option<Mode>, video: bool)
    requires
        opens(f, camera, mode, video),
    ensures
        f.open matches Some(r) && {
            &&& fake_modes(camera).contains(r.mode) && fake_modes(camera).contains(r.view)
            &&& mode matches Some(m) ==> (fake_modes(camera).contains(m) ==> r.mode == m)
            &&& mode is None ==> r.mode == fake_modes(camera)[0]
            &&& video ==> r.view == r.mode
            &&& r.view.width <= r.mode.width
            &&& r.info@.id == fake_camera(camera).id && r.info@.facing == fake_camera(camera).facing
            &&& r.info.rotation == if camera == 0 {
                270int
            } else {
                90
            }
        },
{
    let r = f.open->0;
    assert(fake_modes(camera).contains(fake_modes(camera)[0]));
    if !video {
        crate::modes::law_viewfinder_is_a_mode(fake_modes(camera), r.mode, r.view);
    }
}

/// A fake's session is of what it opened, in the format viewfinders like
/// best, with raw and without spots to focus on.
pub proof fn law_fake_sessions_tell_what_opened(
    camera: usize,
    r: Running,
    controls: Seq<Control>,
    rate: (Number, Number),
)
    ensures
        ({
            let s = fake_session(camera, r, controls, rate);
            &&& s.camera == camera && s.info == r.info@ && s.modes == fake_modes(camera)
            &&& s.mode == r.mode && s.view == r.view && s.controls == controls
            &&& s.fourcc == crate::camera::view_formats()[0]
            &&& s.raw && !s.af_windows && s.fps == Some(rate)
        }),
{
}

/// A scene is an eighth of its mode each way, and the front camera's is
/// told apart.
pub proof fn law_scenes_are_an_eighth(m: Mode, info: Camera)
    ensures
        8 * scene_of(m, info).width <= m.width < 8 * scene_of(m, info).width + 8,
        8 * scene_of(m, info).height <= m.height < 8 * scene_of(m, info).height + 8,
        scene_of(m, info).front <==> info.facing == Facing::Front,
{
}

/// Every fake frame reports the same exposure, lens and colours.
pub proof fn law_fake_frames_are_in_focus()
    ensures
        reading(fake_metadata(), "AnalogueGain"@) matches Some(v) && v.rounded() == 4,
        reading(fake_metadata(), "ExposureTime"@) matches Some(v) && v.rounded() == 16666,
        reading(fake_metadata(), "ColourTemperature"@) matches Some(v) && v.rounded() == 4600,
        reading(fake_metadata(), "FrameDuration"@) matches Some(v) && v.rounded() == 33333,
        crate::app::focus_in(fake_metadata()) == Some(crate::app::Focus::Focused),
        fake_metadata()["ColourGains"@].len() == 2,
{
    law_integers_survive(4);
    law_integers_survive(16666);
    law_integers_survive(4600);
    law_integers_survive(33333);
    reveal_strlit("AnalogueGain");
    reveal_strlit("ExposureTime");
    reveal_strlit("ColourTemperature");
    reveal_strlit("LensPosition");
    reveal_strlit("AfState");
    reveal_strlit("FrameDuration");
    reveal_strlit("ColourGains");
    assert("AnalogueGain"@.len() == 12 && "ExposureTime"@.len() == 12 && "LensPosition"@.len() == 12);
    assert("ColourTemperature"@.len() == 17 && "AfState"@.len() == 7 && "FrameDuration"@.len() == 13 && "ColourGains"@.len() == 11);
    assert("AnalogueGain"@[0] != "ExposureTime"@[0] && "AnalogueGain"@[0] != "LensPosition"@[0] && "ExposureTime"@[0]
        != "LensPosition"@[0]);
    lemma_two();
}

/// The controls of focus and exposure, with their ranges and defaults.
pub proof fn law_fake_focus_and_exposure()
    ensures
        focus_and_exposure().len() == 5,
        focus_and_exposure()[0].id == 1 && focus_and_exposure()[0].name == "AeConstraintMode"@ && focus_and_exposure()[0].kind == Kind::Int,
        focus_and_exposure()[0].min.rounded() == 0 && focus_and_exposure()[0].max.rounded() == 3,
        focus_and_exposure()[0].def[0].rounded() == 0,
        focus_and_exposure()[0].enums.len() == 4,
        focus_and_exposure()[0].enums[0] == (0i32, "ConstraintNormal"@),
        focus_and_exposure()[0].enums[1] == (1i32, "ConstraintHighlight"@),
        focus_and_exposure()[0].enums[2] == (2i32, "ConstraintShadows"@),
        focus_and_exposure()[0].enums[3] == (3i32, "ConstraintCustom"@),
        focus_and_exposure()[1].id == 2 && focus_and_exposure()[1].name == "AeEnable"@ && focus_and_exposure()[1].kind == Kind::Bool,
        focus_and_exposure()[1].min.rounded() == 0 && focus_and_exposure()[1].max.rounded() == 1,
        focus_and_exposure()[1].def[0].rounded() == 1,
        focus_and_exposure()[1].enums.len() == 0,
        focus_and_exposure()[2].id == 3 && focus_and_exposure()[2].name == "AeExposureMode"@ && focus_and_exposure()[2].kind == Kind::Int,
        focus_and_exposure()[2].min.rounded() == 0 && focus_and_exposure()[2].max.rounded() == 3,
        focus_and_exposure()[2].def[0].rounded() == 0,
        focus_and_exposure()[2].enums.len() == 4,
        focus_and_exposure()[2].enums[0] == (0i32, "ExposureNormal"@),
        focus_and_exposure()[2].enums[1] == (1i32, "ExposureShort"@),
        focus_and_exposure()[2].enums[2] == (2i32, "ExposureLong"@),
        focus_and_exposure()[2].enums[3] == (3i32, "ExposureCustom"@),
        focus_and_exposure()[3].id == 4 && focus_and_exposure()[3].name == "AfMode"@ && focus_and_exposure()[3].kind == Kind::Int,
        focus_and_exposure()[3].min.rounded() == 0 && focus_and_exposure()[3].max.rounded() == 2,
        focus_and_exposure()[3].def[0].rounded() == 2,
        focus_and_exposure()[3].enums.len() == 3,
        focus_and_exposure()[3].enums[0] == (0i32, "AfModeManual"@),
        focus_and_exposure()[3].enums[1] == (1i32, "AfModeAuto"@),
        focus_and_exposure()[3].enums[2] == (2i32, "AfModeContinuous"@),
        focus_and_exposure()[4].id == 5 && focus_and_exposure()[4].name == "AfTrigger"@ && focus_and_exposure()[4].kind == Kind::Int,
        focus_and_exposure()[4].min.rounded() == 0 && focus_and_exposure()[4].max.rounded() == 1,
        focus_and_exposure()[4].def[0].rounded() == 0,
        focus_and_exposure()[4].enums.len() == 2,
        focus_and_exposure()[4].enums[0] == (0i32, "AfTriggerStart"@),
        focus_and_exposure()[4].enums[1] == (1i32, "AfTriggerCancel"@),
{
    lemma_fake_numbers();
}

/// The controls of gain and white balance, with their ranges and defaults.
pub proof fn law_fake_gain_and_white_balance()
    ensures
        gain_and_white_balance().len() == 5,
        gain_and_white_balance()[0].id == 6 && gain_and_white_balance()[0].name == "AnalogueGain"@ && gain_and_white_balance()[0].kind == Kind::Float,
        gain_and_white_balance()[0].min.rounded() == 1 && gain_and_white_balance()[0].max.rounded() == 16,
        gain_and_white_balance()[0].def[0].rounded() == 1,
        gain_and_white_balance()[0].enums.len() == 0,
        gain_and_white_balance()[1].id == 7 && gain_and_white_balance()[1].name == "AnalogueGainMode"@ && gain_and_white_balance()[1].kind == Kind::Int,
        gain_and_white_balance()[1].min.rounded() == 0 && gain_and_white_balance()[1].max.rounded() == 1,
        gain_and_white_balance()[1].def[0].rounded() == 0,
        gain_and_white_balance()[1].enums.len() == 2,
        gain_and_white_balance()[1].enums[0] == (0i32, "AnalogueGainModeAuto"@),
        gain_and_white_balance()[1].enums[1] == (1i32, "AnalogueGainModeManual"@),
        gain_and_white_balance()[2].id == 8 && gain_and_white_balance()[2].name == "AwbEnable"@ && gain_and_white_balance()[2].kind == Kind::Bool,
        gain_and_white_balance()[2].min.rounded() == 0 && gain_and_white_balance()[2].max.rounded() == 1,
        gain_and_white_balance()[2].def[0].rounded() == 1,
        gain_and_white_balance()[2].enums.len() == 0,
        gain_and_white_balance()[3].id == 9 && gain_and_white_balance()[3].name == "AwbMode"@ && gain_and_white_balance()[3].kind == Kind::Int,
        gain_and_white_balance()[3].min.rounded() == 0 && gain_and_white_balance()[3].max.rounded() == 6,
        gain_and_white_balance()[3].def[0].rounded() == 0,
        gain_and_white_balance()[3].enums.len() == 7,
        gain_and_white_balance()[3].enums[0] == (0i32, "AwbAuto"@),
        gain_and_white_balance()[3].enums[1] == (1i32, "AwbIncandescent"@),
        gain_and_white_balance()[3].enums[2] == (2i32, "AwbTungsten"@),
        gain_and_white_balance()[3].enums[3] == (3i32, "AwbFluorescent"@),
        gain_and_white_balance()[3].enums[4] == (4i32, "AwbIndoor"@),
        gain_and_white_balance()[3].enums[5] == (5i32, "AwbDaylight"@),
        gain_and_white_balance()[3].enums[6] == (6i32, "AwbCloudy"@),
        gain_and_white_balance()[4].id == 10 && gain_and_white_balance()[4].name == "Brightness"@ && gain_and_white_balance()[4].kind == Kind::Float,
        gain_and_white_balance()[4].min.rounded() == -1 && gain_and_white_balance()[4].max.rounded() == 1,
        gain_and_white_balance()[4].def[0].rounded() == 0,
        gain_and_white_balance()[4].enums.len() == 0,
{
    lemma_fake_numbers();
}

/// The controls of colour and exposure time, with their ranges and defaults.
pub proof fn law_fake_colour_and_time()
    ensures
        colour_and_time().len() == 5,
        colour_and_time()[0].id == 11 && colour_and_time()[0].name == "ColourGains"@ && colour_and_time()[0].kind == Kind::Float,
        colour_and_time()[0].min.rounded() == 0 && colour_and_time()[0].max.rounded() == 8,
        colour_and_time()[0].def[0].rounded() == 1,
        colour_and_time()[0].def[1].rounded() == 1,
        colour_and_time()[0].enums.len() == 0,
        colour_and_time()[1].id == 12 && colour_and_time()[1].name == "Contrast"@ && colour_and_time()[1].kind == Kind::Float,
        colour_and_time()[1].min.rounded() == 0 && colour_and_time()[1].max.rounded() == 2,
        colour_and_time()[1].def[0].rounded() == 1,
        colour_and_time()[1].enums.len() == 0,
        colour_and_time()[2].id == 13 && colour_and_time()[2].name == "ExposureTime"@ && colour_and_time()[2].kind == Kind::Int,
        colour_and_time()[2].min.rounded() == 100 && colour_and_time()[2].max.rounded() == 200000,
        colour_and_time()[2].def[0].rounded() == 16666,
        colour_and_time()[2].enums.len() == 0,
        colour_and_time()[3].id == 14 && colour_and_time()[3].name == "ExposureTimeMode"@ && colour_and_time()[3].kind == Kind::Int,
        colour_and_time()[3].min.rounded() == 0 && colour_and_time()[3].max.rounded() == 1,
        colour_and_time()[3].def[0].rounded() == 0,
        colour_and_time()[3].enums.len() == 2,
        colour_and_time()[3].enums[0] == (0i32, "ExposureTimeModeAuto"@),
        colour_and_time()[3].enums[1] == (1i32, "ExposureTimeModeManual"@),
        colour_and_time()[4].id == 15 && colour_and_time()[4].name == "ExposureValue"@ && colour_and_time()[4].kind == Kind::Float,
        colour_and_time()[4].min.rounded() == -2 && colour_and_time()[4].max.rounded() == 2,
        colour_and_time()[4].def[0].rounded() == 0,
        colour_and_time()[4].enums.len() == 0,
{
    lemma_fake_numbers();
}

/// The controls of frame rate and picture, with their ranges and defaults.
pub proof fn law_fake_rate_and_picture()
    ensures
        rate_and_picture().len() == 4,
        rate_and_picture()[0].id == 16 && rate_and_picture()[0].name == "FrameDurationLimits"@ && rate_and_picture()[0].kind == Kind::Int,
        rate_and_picture()[0].min.rounded() == 8333 && rate_and_picture()[0].max.rounded() == 200000,
        rate_and_picture()[0].def[0].rounded() == 33333,
        rate_and_picture()[0].def[1].rounded() == 33333,
        rate_and_picture()[0].enums.len() == 0,
        rate_and_picture()[1].id == 17 && rate_and_picture()[1].name == "Gamma"@ && rate_and_picture()[1].kind == Kind::Float,
        rate_and_picture()[1].min.rounded() == 1 && rate_and_picture()[1].max.rounded() == 4,
        rate_and_picture()[1].def[0].bits == 0x4001_9999_9999_999a,
        rate_and_picture()[1].enums.len() == 0,
        rate_and_picture()[2].id == 18 && rate_and_picture()[2].name == "LensPosition"@ && rate_and_picture()[2].kind == Kind::Float,
        rate_and_picture()[2].min.rounded() == 0 && rate_and_picture()[2].max.rounded() == 7,
        rate_and_picture()[2].def[0].rounded() == 1,
        rate_and_picture()[2].enums.len() == 0,
        rate_and_picture()[3].id == 19 && rate_and_picture()[3].name == "Saturation"@ && rate_and_picture()[3].kind == Kind::Float,
        rate_and_picture()[3].min.rounded() == 0 && rate_and_picture()[3].max.rounded() == 2,
        rate_and_picture()[3].def[0].rounded() == 1,
        rate_and_picture()[3].enums.len() == 0,
{
    lemma_fake_numbers();
}

proof fn lemma_gamma()
    ensures
        (Number { bits: TWO_POINT_TWO }).rounded() == 2,
{
    let n = Number { bits: TWO_POINT_TWO };
    vstd::arithmetic::power2::lemma2_to64_rest();
    assert(vstd::arithmetic::power2::pow2(51) == 0x8_0000_0000_0000);
    assert(n.magnitude() == TWO_POINT_TWO);
    assert(n.exponent() == 1024);
    assert(n.significand() == 0x11_9999_9999_999a);
    assert(n.scale() == -51);
    assert((2 * 0x11_9999_9999_999aint + 0x8_0000_0000_0000int) / (2 * 0x8_0000_0000_0000int) == 2);
    assert(n.rounded_magnitude() == 2);
}

proof fn lemma_two()
    ensures
        Number::of(2).integer() == 2,
{
    let two = Number::of(2);
    vstd::arithmetic::power2::lemma2_to64();
    vstd::arithmetic::power2::lemma2_to64_rest();
    assert(vstd::arithmetic::power2::pow2(51) == 0x8_0000_0000_0000);
    reveal_with_fuel(crate::number::log2, 3);
    assert(crate::number::round_even(2 * crate::number::UNIT, 2) == crate::number::UNIT);
    assert(two.bits == 0x4000_0000_0000_0000);
    assert(two.exponent() == 1024);
    assert(two.significand() == 0x10_0000_0000_0000);
    assert(two.scale() == -51);
    assert(0x10_0000_0000_0000int / 0x8_0000_0000_0000int == 2);
    assert(two.whole_magnitude() == 2);
}

proof fn lemma_fake_numbers()
    ensures
        Number::of(-2).rounded() == -2,
        Number::of(-1).rounded() == -1,
        Number::of(0).rounded() == 0,
        Number::of(1).rounded() == 1,
        Number::of(2).rounded() == 2,
        Number::of(3).rounded() == 3,
        Number::of(4).rounded() == 4,
        Number::of(6).rounded() == 6,
        Number::of(7).rounded() == 7,
        Number::of(8).rounded() == 8,
        Number::of(16).rounded() == 16,
        Number::of(100).rounded() == 100,
        Number::of(8333).rounded() == 8333,
        Number::of(16666).rounded() == 16666,
        Number::of(33333).rounded() == 33333,
        Number::of(200000).rounded() == 200000,
        (Number { bits: TWO_POINT_TWO }).rounded() == 2,
{
    law_integers_survive(-2);
    law_integers_survive(-1);
    law_integers_survive(0);
    law_integers_survive(1);
    law_integers_survive(2);
    law_integers_survive(3);
    law_integers_survive(4);
    law_integers_survive(6);
    law_integers_survive(7);
    law_integers_survive(8);
    law_integers_survive(16);
    law_integers_survive(100);
    law_integers_survive(8333);
    law_integers_survive(16666);
    law_integers_survive(33333);
    law_integers_survive(200000);
    lemma_gamma();
}

/// The fake cameras' controls are numbered from 1, each with a range, a
/// default inside it and, where it has labels, one for each of its values.
pub proof fn law_fake_controls_are_numbered(i: int)
    requires
        0 <= i < 19,
    ensures
        taimen().len() == 19,
        taimen()[i].id == i + 1,
        taimen()[i].len == taimen()[i].def.len(),
        1 <= taimen()[i].len <= 2,
        taimen()[i].kind != Kind::Other,
        taimen()[i].min.rounded() < taimen()[i].max.rounded(),
        taimen()[i].min.rounded() <= taimen()[i].def[0].rounded() <= taimen()[i].max.rounded(),
        taimen()[i].kind == Kind::Bool ==> taimen()[i].min.rounded() == 0 && taimen()[i].max.rounded() == 1,
        taimen()[i].enums.len() > 0 ==> taimen()[i].kind == Kind::Int && taimen()[i].min.rounded() == 0
            && taimen()[i].max.rounded() == taimen()[i].enums.len() - 1,
{
    lemma_fake_numbers();
}

/// A text is parted at the first of its parting characters, and what follows
/// keeps the others.
pub proof fn law_texts_are_parted_once(a: Seq<char>, c: char, b: Seq<char>)
    requires
        forall|i: int| 0 <= i < a.len() ==> #[trigger] a[i] != c,
    ensures
        split_at_first(a + seq![c] + b, c) == Some((a, b)),
        split_at_first(a, c) is None,
{
    let s = a + seq![c] + b;
    lemma_first_of(a, c, b);
    assert(s.take(a.len() as int) =~= a);
    assert(s.skip(a.len() as int + 1) =~= b);
}

proof fn lemma_first_of(a: Seq<char>, c: char, b: Seq<char>)
    requires
        forall|i: int| 0 <= i < a.len() ==> #[trigger] a[i] != c,
    ensures
        text::first_of(a + seq![c] + b, c) == a.len(),
        text::first_of(a, c) == a.len(),
    decreases a.len(),
{
    let s = a + seq![c] + b;
    if a.len() == 0 {
        assert(s[0] == c);
    } else {
        let t = a.drop_first();
        assert forall|i: int| 0 <= i < t.len() implies #[trigger] t[i] != c by {
            assert(t[i] == a[i + 1]);
        }
        lemma_first_of(t, c, b);
        assert(s[0] == a[0]);
        assert(s.drop_first() =~= t + seq![c] + b);
    }
}

} // verus!
