//! Cameras through PipeWire, the way a sandboxed application reaches them: one
//! stream, no per-frame metadata and no raw images. What the camera node
//! offers, what each command and each sample does, and the node's controls.

use crate::camera::{Camera, CameraInfo, Cmd, Delivery, Facing, Frame, FrameSlot, Opened, Session, Still, counted};
use crate::modes::{Mode, by_area, distinct, has_mode, largest_first, law_by_area_keeps_distinct, law_distinct_has_no_duplicates, sort_by_area};
use crate::number::{Number, law_integers_survive};
use crate::settings::{Control, ControlDesc, Kind, Metadata, on, round_i32, to_i32, views};
use crate::text;
use vstd::prelude::*;

verus! {

/// Whether cameras should come through PipeWire: inside a sandbox, or when
/// OBSCURA_BACKEND=pipewire asks for it. `backend` is that variable.
pub fn wanted(backend: Option<&str>, sandboxed: bool) -> (w: bool)
    ensures
        w == (sandboxed || (backend matches Some(b) && b@ == "pipewire"@)),
{
    if sandboxed {
        return true;
    }
    match backend {
        Some(b) => text::same(b, "pipewire"),
        None => false,
    }
}

/// The raw formats a stream can carry.
#[derive(Debug, Clone, Copy, PartialEq, Eq, Structural)]
pub enum VideoFormat {
    Nv12,
    Rgbx,
    Rgba,
    Bgrx,
    Bgra,
    Other,
}

pub open spec fn code_of(format: VideoFormat) -> Option<u32> {
    match format {
        VideoFormat::Nv12 => Some(0x3231_564e),
        VideoFormat::Rgbx => Some(0x3432_4258),
        VideoFormat::Rgba => Some(0x3432_4241),
        VideoFormat::Bgrx => Some(0x3432_5258),
        VideoFormat::Bgra => Some(0x3432_5241),
        VideoFormat::Other => None,
    }
}

/// DRM fourccs for the raw formats the viewfinder, JPEG and recorder take.
pub fn fourcc(format: VideoFormat) -> (code: Option<u32>)
    ensures
        code == code_of(format),
{
    match format {
        VideoFormat::Nv12 => Some(crate::camera::fourcc([0x4e, 0x56, 0x31, 0x32])),
        VideoFormat::Rgbx => Some(crate::camera::fourcc([0x58, 0x42, 0x32, 0x34])),
        VideoFormat::Rgba => Some(crate::camera::fourcc([0x41, 0x42, 0x32, 0x34])),
        VideoFormat::Bgrx => Some(crate::camera::fourcc([0x58, 0x52, 0x32, 0x34])),
        VideoFormat::Bgra => Some(crate::camera::fourcc([0x41, 0x52, 0x32, 0x34])),
        VideoFormat::Other => None,
    }
}

/// The image-orientation tag: degrees to turn the picture clockwise.
pub open spec fn tag_degrees(tag: Seq<char>) -> Option<i32> {
    if tag == "rotate-0"@ {
        Some(0)
    } else if tag == "rotate-90"@ {
        Some(90)
    } else if tag == "rotate-180"@ {
        Some(180)
    } else if tag == "rotate-270"@ {
        Some(270)
    } else {
        None
    }
}

pub fn orientation_degrees(tag: &str) -> (d: Option<i32>)
    ensures
        d == tag_degrees(tag@),
{
    if text::same(tag, "rotate-0") {
        Some(0)
    } else if text::same(tag, "rotate-90") {
        Some(90)
    } else if text::same(tag, "rotate-180") {
        Some(180)
    } else if text::same(tag, "rotate-270") {
        Some(270)
    } else {
        None
    }
}

/// One structure of a device's caps.
#[derive(Debug)]
pub struct Caps {
    pub name: String,
    pub width: Option<i32>,
    pub height: Option<i32>,
}

/// The raw frame size a structure names.
pub open spec fn raw_size(c: Caps) -> Option<Mode> {
    match (c.width, c.height) {
        (Some(w), Some(h)) => if c.name@ == "video/x-raw"@ {
            Some(Mode { width: w as u32, height: h as u32 })
        } else {
            None
        },
        _ => None,
    }
}

pub open spec fn raw_sizes(caps: Seq<Caps>) -> Seq<Mode>
    decreases caps.len(),
{
    if caps.len() == 0 {
        Seq::empty()
    } else {
        match raw_size(caps.last()) {
            Some(m) => raw_sizes(caps.drop_last()).push(m),
            None => raw_sizes(caps.drop_last()),
        }
    }
}

/// Distinct raw frame sizes in a device's caps, largest first.
pub fn modes(caps: &Vec<Caps>) -> (out: Vec<Mode>)
    ensures
        out@ == by_area(distinct(raw_sizes(caps@))),
        largest_first(out@),
        out@.no_duplicates(),
{
    let mut found: Vec<Mode> = Vec::new();
    let mut i: usize = 0;
    assert(caps@.take(0).len() == 0);
    while i < caps.len()
        invariant
            i <= caps@.len(),
            found@ == distinct(raw_sizes(caps@.take(i as int))),
        decreases caps@.len() - i,
    {
        let c: &Caps = &caps[i];
        let ghost seen = raw_sizes(caps@.take(i as int));
        assert(caps@.take(i + 1).drop_last() =~= caps@.take(i as int));
        if let (Some(w), Some(h)) = (c.width, c.height) {
            if text::same(c.name.as_str(), "video/x-raw") {
                let m: Mode = Mode { width: w as u32, height: h as u32 };
                assert(seen.push(m).drop_last() =~= seen);
                if !has_mode(&found, m) {
                    found.push(m);
                }
            }
        }
        i = i + 1;
    }
    proof {
        assert(caps@.take(i as int) =~= caps@);
        law_distinct_has_no_duplicates(raw_sizes(caps@));
        law_by_area_keeps_distinct(found@);
    }
    sort_by_area(&found)
}

/// `m` is the largest of `modes` up to 1920 wide, the last of them where
/// several are as large.
pub open spec fn largest_narrow(modes: Seq<Mode>, m: Mode) -> bool {
    exists|i: int|
        {
            &&& 0 <= i < modes.len()
            &&& #[trigger] modes[i] == m
            &&& m.width <= 1920
            &&& forall|j: int| 0 <= j < modes.len() && (#[trigger] modes[j]).width <= 1920 ==> modes[j].spec_area() <= m.spec_area()
            &&& forall|j: int| i < j < modes.len() && (#[trigger] modes[j]).width <= 1920 ==> modes[j].spec_area() < m.spec_area()
        }
}

/// What a stream starts at: the largest size up to 1080p wide, or the last.
pub open spec fn is_default(modes: Seq<Mode>, m: Option<Mode>) -> bool {
    if exists|i: int| 0 <= i < modes.len() && (#[trigger] modes[i]).width <= 1920 {
        m is Some && largest_narrow(modes, m->0)
    } else if modes.len() > 0 {
        m == Some(modes.last())
    } else {
        m is None
    }
}

pub fn default_mode(modes: &[Mode]) -> (m: Option<Mode>)
    ensures
        is_default(modes@, m),
{
    let mut best: Option<Mode> = None;
    let mut i: usize = 0;
    while i < modes.len()
        invariant
            i <= modes@.len(),
            best is None ==> forall|j: int| 0 <= j < i ==> (#[trigger] modes@[j]).width > 1920,
            best matches Some(b) ==> largest_narrow(modes@.take(i as int), b),
        decreases modes@.len() - i,
    {
        let m: Mode = modes[i];
        let ghost before = modes@.take(i as int);
        let ghost after = modes@.take(i + 1);
        assert(after =~= before.push(m));
        match best {
            None => {
                if m.width <= 1920 {
                    best = Some(m);
                    assert(after[i as int] == m);
                    assert forall|j: int| 0 <= j < after.len() && (#[trigger] after[j]).width <= 1920 implies after[j].spec_area()
                        <= m.spec_area() by {
                        if j < i {
                            assert(after[j] == modes@[j]);
                        }
                    }
                    assert(largest_narrow(after, m));
                }
            },
            Some(b) => {
                let ghost k = choose|k: int|
                    {
                        &&& 0 <= k < before.len()
                        &&& #[trigger] before[k] == b
                        &&& b.width <= 1920
                        &&& forall|j: int| 0 <= j < before.len() && (#[trigger] before[j]).width <= 1920 ==> before[j].spec_area()
                            <= b.spec_area()
                        &&& forall|j: int| k < j < before.len() && (#[trigger] before[j]).width <= 1920 ==> before[j].spec_area()
                            < b.spec_area()
                    };
                assert forall|j: int| 0 <= j < i && (#[trigger] after[j]).width <= 1920 implies after[j].spec_area()
                    <= b.spec_area() by {
                    assert(after[j] == before[j]);
                }
                if m.width <= 1920 && m.area() >= b.area() {
                    best = Some(m);
                    assert(after[i as int] == m);
                    assert(largest_narrow(after, m));
                } else {
                    assert(after[k] == b);
                    assert forall|j: int| k < j < after.len() && (#[trigger] after[j]).width <= 1920 implies after[j].spec_area()
                        < b.spec_area() by {
                        if j < i {
                            assert(after[j] == before[j]);
                        }
                    }
                    assert(largest_narrow(after, b));
                }
            },
        }
        i = i + 1;
    }
    assert(modes@.take(modes@.len() as int) =~= modes@);
    match best {
        Some(b) => {
            assert(exists|i: int| 0 <= i < modes@.len() && (#[trigger] modes@[i]).width <= 1920);
            Some(b)
        },
        None => if modes.len() > 0 {
            Some(modes[modes.len() - 1])
        } else {
            None
        },
    }
}

/// The size to open: the one asked for where the camera has it.
pub fn pick_mode(modes: &Vec<Mode>, mode: Option<Mode>) -> (m: Option<Mode>)
    ensures
        match mode {
            Some(w) if modes@.contains(w) => m == Some(w),
            _ => is_default(modes@, m),
        },
{
    if let Some(w) = mode {
        if has_mode(modes, w) {
            return Some(w);
        }
    }
    default_mode(modes.as_slice())
}

/// A camera node, by its properties.
pub open spec fn node_of(
    serial: Option<Seq<char>>,
    node: Option<Seq<char>>,
    display: Seq<char>,
    location: Option<Seq<char>>,
) -> Camera {
    Camera {
        id: match (serial, node) {
            (Some(s), _) => s,
            (None, Some(n)) => n,
            (None, None) => display,
        },
        model: display,
        facing: if location == Some("front"@) {
            Facing::Front
        } else if location == Some("back"@) {
            Facing::Back
        } else {
            Facing::External
        },
        rotation: 0,
    }
}

pub open spec fn chars_of(s: Option<&str>) -> Option<Seq<char>> {
    match s {
        Some(t) => Some(t@),
        None => None,
    }
}

pub fn node_info(serial: Option<&str>, node: Option<&str>, display: &str, location: Option<&str>) -> (c: CameraInfo)
    ensures
        c@ == node_of(chars_of(serial), chars_of(node), display@, chars_of(location)),
{
    let id: String = match (serial, node) {
        (Some(s), _) => String::from_str(s),
        (None, Some(n)) => String::from_str(n),
        (None, None) => String::from_str(display),
    };
    let facing: Facing = match location {
        Some(l) => if text::same(l, "front") {
            Facing::Front
        } else if text::same(l, "back") {
            Facing::Back
        } else {
            Facing::External
        },
        None => Facing::External,
    };
    CameraInfo { id, model: String::from_str(display), facing, rotation: 0 }
}

/// What a negotiated stream turned out to be.
#[derive(Debug, Clone, Copy)]
pub struct Negotiated {
    pub view: Mode,
    pub format: VideoFormat,
    /// Frames per second, where the caps say.
    pub rate: Option<Number>,
}

/// How long a stream has to start, in milliseconds.
pub const START_LIMIT: u64 = 5000;

/// How long to wait before looking again, in milliseconds.
pub const START_STEP: u64 = 20;

/// What to do about a stream that was told to start.
#[derive(Debug)]
pub enum Wait {
    /// The format is settled.
    Started,
    /// Look again after so many milliseconds.
    Again(u64),
    /// It took too long, and this is the error.
    Failed(String),
}

/// Wait for the format of a stream: `negotiated` tells whether it is settled,
/// `elapsed` how long the stream has had, in milliseconds.
pub fn waiting(negotiated: bool, elapsed: u64) -> (w: Wait)
    ensures
        match w {
            Wait::Started => negotiated,
            Wait::Again(ms) => !negotiated && elapsed <= START_LIMIT && ms == START_STEP,
            Wait::Failed(e) => !negotiated && elapsed > START_LIMIT && e@ == "the PipeWire stream did not start"@,
        },
{
    if negotiated {
        Wait::Started
    } else if elapsed > START_LIMIT {
        Wait::Failed(String::from_str("the PipeWire stream did not start"))
    } else {
        Wait::Again(START_STEP)
    }
}

/// The session of a stream: one fixed rate, no controls, nothing raw.
pub open spec fn session_of(index: usize, info: Camera, modes: Seq<Mode>, mode: Mode, rotation: i32, got: Negotiated) -> Opened {
    Opened {
        camera: index,
        info: Camera { rotation, ..info },
        modes,
        mode,
        view: got.view,
        fourcc: match code_of(got.format) {
            Some(c) => c,
            None => 0,
        },
        controls: Seq::empty(),
        raw: false,
        fps: match got.rate {
            Some(r) if Number::of(0).below(r) => Some((r, r)),
            _ => None,
        },
        af_windows: false,
    }
}

pub fn session(index: usize, info: CameraInfo, modes: Vec<Mode>, mode: Mode, rotation: i32, got: &Negotiated) -> (s: Session)
    ensures
        s@ == session_of(index, info@, modes@, mode, rotation, *got),
{
    let fps: Option<(Number, Number)> = match got.rate {
        Some(r) => if Number::from_i64(0).is_below(r) {
            Some((r, r))
        } else {
            None
        },
        None => None,
    };
    let code: u32 = match fourcc(got.format) {
        Some(c) => c,
        None => 0,
    };
    let controls: Vec<ControlDesc> = Vec::new();
    assert(views(controls@) =~= Seq::empty());
    Session {
        camera: index,
        info: CameraInfo { id: info.id, model: info.model, facing: info.facing, rotation },
        modes,
        mode,
        view: got.view,
        fourcc: code,
        controls,
        raw: false,
        fps,
        af_windows: false,
    }
}

/// One frame of a stream.
#[derive(Debug)]
pub struct Sample<'a> {
    pub width: u32,
    pub height: u32,
    pub stride: u32,
    pub format: VideoFormat,
    pub data: &'a [u8],
}

/// What the streaming thread knows.
#[derive(Debug)]
pub struct Stream {
    /// The camera that streams, once one does.
    pub info: Option<CameraInfo>,
    pub capture: bool,
    pub recording: bool,
    pub rotation: i32,
    pub first: bool,
}

/// What a sample leads to, in this order.
#[derive(Debug)]
pub struct Sampled {
    /// The bytes go to the recorder.
    pub record: bool,
    pub still: Option<Still>,
    pub frame_ready: bool,
    pub stale: Option<Frame>,
}

/// `f` shows a sample: its own copy of the bytes, with no buffer to give back.
pub open spec fn is_frame_of(f: Frame, s: Sample) -> bool {
    &&& f.width == s.width
    &&& f.height == s.height
    &&& f.stride == s.stride
    &&& Some(f.fourcc) == code_of(s.format)
    &&& f.fd == -1
    &&& f.offset == 0
    &&& f.bytes matches Some(b) && b@ == s.data@
    &&& f.ret is None
}

impl Stream {
    pub fn new() -> (s: Stream)
        ensures
            s == (Stream { info: None, capture: false, recording: false, rotation: 0, first: true }),
    {
        Stream { info: None, capture: false, recording: false, rotation: 0, first: true }
    }

    /// The state once a stream of this camera is about to start.
    pub open spec fn begun(self, info: CameraInfo) -> Stream {
        Stream { info: Some(info), rotation: 0, first: true, ..self }
    }

    /// The state once a tag of this name passed.
    pub open spec fn tagged(self, name: Seq<char>) -> Stream {
        Stream {
            rotation: match tag_degrees(name) {
                Some(d) => d,
                None => self.rotation,
            },
            ..self
        }
    }

    /// A stream is about to start.
    pub fn begin(&mut self, info: CameraInfo)
        ensures
            *final(self) == old(self).begun(info),
    {
        self.info = Some(info);
        self.rotation = 0;
        self.first = true;
    }

    /// An image-orientation tag passed: a name that is not a plain turn
    /// changes nothing.
    pub fn tag(&mut self, name: &str)
        ensures
            *final(self) == old(self).tagged(name@),
    {
        if let Some(d) = orientation_degrees(name) {
            self.rotation = d;
        }
    }

    /// `still` is the photo that this sample makes.
    pub open spec fn is_photo_of(self, still: Still, s: Sample) -> bool {
        &&& still.width == s.width
        &&& still.height == s.height
        &&& still.stride == s.stride
        &&& Some(still.fourcc) == code_of(s.format)
        &&& still.rgba@ == s.data@
        &&& still.raw is None
        &&& still.metadata@ == Map::<Seq<char>, Seq<Number>>::empty()
        &&& still.info@ == (Camera { rotation: self.rotation, ..self.info->0@ })
        &&& still.zoom == Number::of(1)
    }

    /// What a frame does to the stream and to the slot, and what it leads to.
    pub open spec fn takes(self, after: Stream, s: Sample, slot: FrameSlot, new_slot: FrameSlot, out: Sampled) -> bool {
        let used = code_of(s.format) is Some;
        &&& after == (Stream { capture: self.capture && !used, first: self.first && !used, ..self })
        &&& out.record == (used && self.recording)
        &&& if used && self.capture && self.info is Some {
            out.still matches Some(p) && self.is_photo_of(p, s)
        } else {
            out.still is None
        }
        &&& if used {
            &&& new_slot.frame matches Some(f) && is_frame_of(f, s)
            &&& out.frame_ready == (slot.frame is None)
            &&& out.stale == slot.frame
            &&& new_slot.replaced == if slot.frame is Some {
                counted(slot.replaced)
            } else {
                slot.replaced
            }
        } else {
            &&& new_slot == slot
            &&& !out.frame_ready
            &&& out.stale is None
        }
    }

    /// A frame arrived. One in a format that nothing takes is passed over.
    pub fn sample(&mut self, s: &Sample, slot: &mut FrameSlot) -> (out: Sampled)
        ensures
            old(self).takes(*final(self), *s, *old(slot), *final(slot), out),
    {
        let mut out: Sampled = Sampled { record: false, still: None, frame_ready: false, stale: None };
        let code: u32 = match fourcc(s.format) {
            Some(c) => c,
            None => return out,
        };
        out.record = self.recording;
        if self.capture {
            self.capture = false;
            if let Some(i) = &self.info {
                let info = CameraInfo { id: i.id.clone(), model: i.model.clone(), facing: i.facing, rotation: self.rotation };
                out.still = Some(
                    Still {
                        width: s.width,
                        height: s.height,
                        stride: s.stride,
                        fourcc: code,
                        rgba: vstd::slice::slice_to_vec(s.data),
                        raw: None,
                        metadata: Metadata::new(),
                        info,
                        zoom: Number::from_i64(1),
                    },
                );
            }
        }
        self.first = false;
        let frame = Frame {
            width: s.width,
            height: s.height,
            stride: s.stride,
            fourcc: code,
            fd: -1,
            offset: 0,
            bytes: Some(vstd::slice::slice_to_vec(s.data)),
            ret: None,
        };
        match slot.deliver(frame) {
            Delivery::Ready => {
                out.frame_ready = true;
            },
            Delivery::Replaced(stale) => {
                out.stale = Some(stale);
            },
        }
        out
    }
}

/// What a command asks of the streaming thread's pipeline.
#[derive(Debug)]
pub enum Step {
    Nothing,
    /// Stop the stream that runs, and open this camera.
    Open { camera: usize, mode: Option<Mode> },
    /// Stop the stream that runs; there is no such camera.
    Missing(String),
    /// Stop the stream that runs.
    Close,
    /// Set a control of the node.
    Control { id: u32, value: Vec<Number> },
}

/// What each command does to the stream, and asks of its pipeline.
pub open spec fn obeys(before: Stream, after: Stream, cmd: Cmd, cameras: usize, step: Step) -> bool {
    match cmd {
        Cmd::Open { camera, mode, video } => {
            &&& after == before
            &&& if camera < cameras {
                step == Step::Open { camera, mode }
            } else {
                step matches Step::Missing(e) && e@ == "no camera "@ + text::decimal(camera as nat)
            }
        },
        Cmd::Capture => step is Nothing && after == (Stream { capture: true, ..before }),
        Cmd::Record(r) => step is Nothing && after == (Stream { recording: r, ..before }),
        Cmd::Close => step is Close && after == before,
        Cmd::SetControl { id, value } => step == (Step::Control { id, value }) && after == before,
        _ => step is Nothing && after == before,
    }
}

impl Stream {
    /// Carry out a command, with so many cameras to choose from.
    pub fn command(&mut self, cmd: Cmd, cameras: usize) -> (step: Step)
        ensures
            obeys(*old(self), *final(self), cmd, cameras, step),
    {
        match cmd {
            Cmd::Open { camera, mode, .. } => {
                if camera < cameras {
                    Step::Open { camera, mode }
                } else {
                    Step::Missing(crate::worker::no_camera(camera))
                }
            },
            Cmd::Capture => {
                self.capture = true;
                Step::Nothing
            },
            Cmd::Record(r) => {
                self.recording = r;
                Step::Nothing
            },
            Cmd::Close => Step::Close,
            Cmd::SetControl { id, value } => Step::Control { id, value },
            _ => Step::Nothing,
        }
    }
}

/// A choice of values.
#[derive(Debug)]
pub enum Choice<T> {
    /// No choice but this.
    Fixed(T),
    Range { default: T, min: T, max: T },
    Enum { default: T, alternatives: Vec<T> },
    /// Steps and flags.
    Other,
}

/// What a param of a node can hold.
#[derive(Debug)]
pub enum Value {
    Id(u32),
    Text(String),
    Int(i32),
    Struct(Vec<Value>),
    Floats(Choice<Number>),
    Ints(Choice<i32>),
    Bools(Choice<bool>),
    Other,
}

/// The properties of a param that describes a control.
#[derive(Debug, Clone, Copy, PartialEq, Eq, Structural)]
pub enum Key {
    Id,
    Description,
    Labels,
    Type,
    Other,
}

/// Where this property first stands, or the length.
pub open spec fn key_at(properties: Seq<(Key, Value)>, key: Key) -> int
    decreases properties.len(),
{
    if properties.len() == 0 || properties[0].0 == key {
        0
    } else {
        1 + key_at(properties.drop_first(), key)
    }
}

proof fn lemma_key_at(properties: Seq<(Key, Value)>, key: Key, n: int)
    requires
        0 <= n <= properties.len(),
        forall|i: int| 0 <= i < n ==> (#[trigger] properties[i]).0 != key,
        n == properties.len() || properties[n].0 == key,
    ensures
        key_at(properties, key) == n,
    decreases properties.len(),
{
    if n > 0 {
        let t = properties.drop_first();
        assert forall|i: int| 0 <= i < n - 1 implies (#[trigger] t[i]).0 != key by {
            assert(t[i] == properties[i + 1]);
        }
        assert(properties[0].0 != key);
        lemma_key_at(t, key, n - 1);
    }
}

pub open spec fn property(properties: Seq<(Key, Value)>, key: Key) -> Option<Value> {
    let i = key_at(properties, key);
    if i < properties.len() {
        Some(properties[i].1)
    } else {
        None
    }
}

fn find_property(properties: &Vec<(Key, Value)>, key: Key) -> (v: Option<&Value>)
    ensures
        match v {
            Some(v) => property(properties@, key) == Some(*v),
            None => property(properties@, key) is None,
        },
{
    let mut i: usize = 0;
    while i < properties.len() && properties[i].0 != key
        invariant
            i <= properties@.len(),
            forall|j: int| 0 <= j < i ==> (#[trigger] properties@[j]).0 != key,
        decreases properties@.len() - i,
    {
        i = i + 1;
    }
    proof {
        lemma_key_at(properties@, key, i as int);
    }
    if i < properties.len() {
        Some(&properties[i].1)
    } else {
        None
    }
}

/// Labels come as pairs of a value and its name; what is not such a pair is
/// passed over.
pub open spec fn labels_in(s: Seq<Value>) -> Seq<(i32, Seq<char>)>
    decreases s.len(),
{
    if s.len() < 2 {
        Seq::empty()
    } else {
        (match (s[0], s[1]) {
            (Value::Int(v), Value::Text(t)) => seq![(v, t@)],
            _ => Seq::empty(),
        }) + labels_in(s.skip(2))
    }
}

fn read_labels(s: &Vec<Value>) -> (out: Vec<(i32, String)>)
    ensures
        crate::settings::labels(out@) == labels_in(s@),
{
    let mut out: Vec<(i32, String)> = Vec::new();
    let mut i: usize = 0;
    assert(s@.skip(0) =~= s@);
    assert(crate::settings::labels(out@) + labels_in(s@.skip(0)) =~= labels_in(s@));
    while s.len() - i >= 2
        invariant
            i <= s@.len(),
            crate::settings::labels(out@) + labels_in(s@.skip(i as int)) == labels_in(s@),
        decreases s@.len() - i,
    {
        let ghost before = crate::settings::labels(out@);
        let ghost rest = s@.skip(i as int);
        assert(rest[0] == s@[i as int] && rest[1] == s@[i + 1]);
        assert(rest.skip(2) =~= s@.skip(i + 2));
        if let (Value::Int(v), Value::Text(t)) = (&s[i], &s[i + 1]) {
            out.push((*v, t.clone()));
            assert(crate::settings::labels(out@) =~= before.push((*v, t@)));
            assert(before.push((*v, t@)) + labels_in(s@.skip(i + 2)) =~= before + labels_in(rest));
        } else {
            assert(before + labels_in(s@.skip(i + 2)) =~= before + labels_in(rest));
        }
        i = i + 2;
    }
    assert(crate::settings::labels(out@) + Seq::<(i32, Seq<char>)>::empty() =~= crate::settings::labels(out@));
    out
}

/// The least of some numbers, or `n` where it is less.
pub open spec fn least(s: Seq<i32>, n: i32) -> i32
    decreases s.len(),
{
    if s.len() == 0 {
        n
    } else if s.last() < least(s.drop_last(), n) {
        s.last()
    } else {
        least(s.drop_last(), n)
    }
}

pub open spec fn greatest(s: Seq<i32>, n: i32) -> i32
    decreases s.len(),
{
    if s.len() == 0 {
        n
    } else if s.last() > greatest(s.drop_last(), n) {
        s.last()
    } else {
        greatest(s.drop_last(), n)
    }
}

/// The range of some alternatives: `default` where there are none.
pub open spec fn span(s: Seq<i32>, default: i32) -> (i32, i32) {
    if s.len() == 0 {
        (default, default)
    } else {
        (least(s, s[0]), greatest(s, s[0]))
    }
}

fn span_of(s: &Vec<i32>, default: i32) -> (r: (i32, i32))
    ensures
        r == span(s@, default),
{
    if s.len() == 0 {
        return (default, default);
    }
    let (mut lo, mut hi): (i32, i32) = (s[0], s[0]);
    let mut i: usize = 0;
    assert(s@.take(0).len() == 0);
    while i < s.len()
        invariant
            i <= s@.len(),
            0 < s@.len(),
            lo == least(s@.take(i as int), s@[0]),
            hi == greatest(s@.take(i as int), s@[0]),
        decreases s@.len() - i,
    {
        assert(s@.take(i + 1).drop_last() =~= s@.take(i as int));
        if s[i] < lo {
            lo = s[i];
        }
        if s[i] > hi {
            hi = s[i];
        }
        i = i + 1;
    }
    assert(s@.take(i as int) =~= s@);
    (lo, hi)
}

/// The kind and range of a control, from its type: the kind, the lowest, the
/// highest and the default value.
pub open spec fn range_of(v: Value) -> Option<(Kind, Number, Number, Number)> {
    match v {
        Value::Floats(Choice::Range { default, min, max }) => Some((Kind::Float, min, max, default)),
        Value::Floats(Choice::Fixed(x)) => Some((Kind::Float, x, x, x)),
        Value::Ints(Choice::Range { default, min, max }) => Some(
            (Kind::Int, Number::of(min as int), Number::of(max as int), Number::of(default as int)),
        ),
        Value::Ints(Choice::Enum { default, alternatives }) => Some(
            (
                Kind::Int,
                Number::of(span(alternatives@, default).0 as int),
                Number::of(span(alternatives@, default).1 as int),
                Number::of(default as int),
            ),
        ),
        Value::Ints(Choice::Fixed(x)) => Some((Kind::Int, Number::of(x as int), Number::of(x as int), Number::of(x as int))),
        Value::Bools(Choice::Enum { default, alternatives }) => Some(
            (Kind::Bool, Number::of(0), Number::of(1), crate::settings::truth(default)),
        ),
        Value::Bools(Choice::Fixed(x)) => Some((Kind::Bool, Number::of(0), Number::of(1), crate::settings::truth(x))),
        _ => None,
    }
}

fn read_range(v: &Value) -> (r: Option<(Kind, Number, Number, Number)>)
    ensures
        r == range_of(*v),
{
    match v {
        Value::Floats(Choice::Range { default, min, max }) => Some((Kind::Float, *min, *max, *default)),
        Value::Floats(Choice::Fixed(x)) => Some((Kind::Float, *x, *x, *x)),
        Value::Ints(Choice::Range { default, min, max }) => Some(
            (Kind::Int, Number::from_i64(*min as i64), Number::from_i64(*max as i64), Number::from_i64(*default as i64)),
        ),
        Value::Ints(Choice::Enum { default, alternatives }) => {
            let (lo, hi) = span_of(alternatives, *default);
            Some((Kind::Int, Number::from_i64(lo as i64), Number::from_i64(hi as i64), Number::from_i64(*default as i64)))
        },
        Value::Ints(Choice::Fixed(x)) => {
            let n: Number = Number::from_i64(*x as i64);
            Some((Kind::Int, n, n, n))
        },
        Value::Bools(Choice::Enum { default, alternatives: _ }) => Some(
            (Kind::Bool, Number::from_i64(0), Number::from_i64(1), Number::from_i64(if *default { 1 } else { 0 })),
        ),
        Value::Bools(Choice::Fixed(x)) => Some(
            (Kind::Bool, Number::from_i64(0), Number::from_i64(1), Number::from_i64(if *x { 1 } else { 0 })),
        ),
        _ => None,
    }
}

/// A param that describes a control, as the panel can show it.
pub open spec fn described(properties: Seq<(Key, Value)>) -> Option<Control> {
    match (property(properties, Key::Id), property(properties, Key::Description), property(properties, Key::Type)) {
        (Some(Value::Id(id)), Some(Value::Text(name)), Some(ty)) => match range_of(ty) {
            Some((kind, min, max, def)) => Some(
                Control {
                    id,
                    name: name@,
                    kind,
                    len: 1,
                    min,
                    max,
                    def: seq![def],
                    enums: match property(properties, Key::Labels) {
                        Some(Value::Struct(s)) => labels_in(s@),
                        _ => Seq::empty(),
                    },
                },
            ),
            None => None,
        },
        _ => None,
    }
}

pub fn describe(properties: &Vec<(Key, Value)>) -> (c: Option<ControlDesc>)
    ensures
        match c {
            Some(c) => described(properties@) == Some(c@),
            None => described(properties@) is None,
        },
{
    let id: u32 = match find_property(properties, Key::Id) {
        Some(Value::Id(id)) => *id,
        _ => return None,
    };
    let name: String = match find_property(properties, Key::Description) {
        Some(Value::Text(name)) => name.clone(),
        _ => return None,
    };
    let enums: Vec<(i32, String)> = match find_property(properties, Key::Labels) {
        Some(Value::Struct(s)) => read_labels(s),
        _ => Vec::new(),
    };
    let (kind, min, max, def) = match find_property(properties, Key::Type) {
        Some(v) => match read_range(v) {
            Some(r) => r,
            None => return None,
        },
        None => return None,
    };
    let mut defs: Vec<Number> = Vec::new();
    defs.push(def);
    assert(defs@ =~= seq![def]);
    assert(crate::settings::labels(Seq::<(i32, String)>::empty()) =~= Seq::empty());
    Some(ControlDesc { id, name, kind, len: 1, min, max, def: defs, enums })
}

/// A value for one control of a node.
#[derive(Debug, Clone, Copy, PartialEq, Eq, Structural)]
pub enum Prop {
    Bool(bool),
    Int(i32),
    Float(Number),
}

/// A param that sets one control: its first value, typed.
pub open spec fn prop_of(kind: Kind, value: Seq<Number>) -> Option<Prop> {
    if value.len() == 0 {
        None
    } else {
        match kind {
            Kind::Bool => Some(Prop::Bool(on(value[0]))),
            Kind::Int => Some(Prop::Int(to_i32(value[0]))),
            Kind::Float => Some(Prop::Float(value[0])),
            Kind::Other => None,
        }
    }
}

pub fn props(kind: Kind, value: &[Number]) -> (p: Option<Prop>)
    ensures
        p == prop_of(kind, value@),
{
    if value.len() == 0 {
        return None;
    }
    let v: Number = value[0];
    match kind {
        Kind::Bool => Some(Prop::Bool(!v.is_zero())),
        Kind::Int => Some(Prop::Int(round_i32(v))),
        Kind::Float => Some(Prop::Float(v)),
        Kind::Other => None,
    }
}

/// Where the control of this id stands, or the length.
pub open spec fn control_at(s: Seq<Control>, id: u32) -> int
    decreases s.len(),
{
    if s.len() == 0 || s[0].id == id {
        0
    } else {
        1 + control_at(s.drop_first(), id)
    }
}

/// The controls of a node once `c` is known: in place of what was known of
/// the same control.
pub open spec fn learned(s: Seq<Control>, c: Control) -> Seq<Control> {
    let i = control_at(s, c.id);
    if i < s.len() {
        s.update(i, c)
    } else {
        s.push(c)
    }
}

proof fn lemma_control_at(s: Seq<Control>, id: u32, n: int)
    requires
        0 <= n <= s.len(),
        forall|i: int| 0 <= i < n ==> (#[trigger] s[i]).id != id,
        n == s.len() || s[n].id == id,
    ensures
        control_at(s, id) == n,
    decreases s.len(),
{
    if n > 0 {
        let t = s.drop_first();
        assert forall|i: int| 0 <= i < n - 1 implies (#[trigger] t[i]).id != id by {
            assert(t[i] == s[i + 1]);
        }
        assert(s[0].id != id);
        lemma_control_at(t, id, n - 1);
    }
}

/// No control is described twice.
pub open spec fn each_once(s: Seq<Control>) -> bool {
    forall|i: int, j: int| 0 <= i < j < s.len() ==> (#[trigger] s[i]).id != (#[trigger] s[j]).id
}

proof fn lemma_control_found(s: Seq<Control>, id: u32)
    ensures
        0 <= control_at(s, id) <= s.len(),
        control_at(s, id) < s.len() ==> s[control_at(s, id)].id == id,
        forall|i: int| 0 <= i < control_at(s, id) ==> (#[trigger] s[i]).id != id,
    decreases s.len(),
{
    if s.len() > 0 && s[0].id != id {
        let t = s.drop_first();
        lemma_control_found(t, id);
        assert forall|i: int| 0 <= i < control_at(s, id) implies (#[trigger] s[i]).id != id by {
            if i > 0 {
                assert(t[i - 1] == s[i]);
            }
        }
    }
}

/// Of each control only the newest description is known, and what is known of
/// the others stays.
pub proof fn law_newest_description_counts(s: Seq<Control>, c: Control)
    requires
        each_once(s),
    ensures
        each_once(learned(s, c)),
        learned(s, c).contains(c),
        forall|o: Control| o.id != c.id ==> (learned(s, c).contains(o) <==> s.contains(o)),
{
    let t = learned(s, c);
    let n = control_at(s, c.id);
    lemma_control_found(s, c.id);
    assert(t[n] == c);
    assert forall|i: int, j: int| 0 <= i < j < t.len() implies (#[trigger] t[i]).id != (#[trigger] t[j]).id by {
        if n == s.len() {
            if j < n {
                assert(s[i].id != s[j].id);
            } else {
                assert(s[i].id != c.id);
            }
        } else {
            assert(s[i].id != s[j].id);
        }
    }
    assert forall|o: Control| o.id != c.id implies (t.contains(o) <==> s.contains(o)) by {
        if t.contains(o) {
            let i = choose|i: int| 0 <= i < t.len() && t[i] == o;
            assert(s[i] == o);
        }
        if s.contains(o) {
            let i = choose|i: int| 0 <= i < s.len() && s[i] == o;
            assert(t[i] == o);
        }
    }
}

fn find_control(v: &Vec<ControlDesc>, id: u32) -> (at: usize)
    ensures
        at == control_at(views(v@), id),
        at <= v@.len(),
{
    let ghost s = views(v@);
    let mut i: usize = 0;
    while i < v.len() && v[i].id != id
        invariant
            i <= v@.len(),
            s == views(v@),
            forall|j: int| 0 <= j < i ==> (#[trigger] s[j]).id != id,
        decreases v@.len() - i,
    {
        assert(s[i as int] == v@[i as int]@);
        i = i + 1;
    }
    proof {
        if i < v@.len() {
            assert(s[i as int] == v@[i as int]@);
        }
        lemma_control_at(s, id, i as int);
    }
    i
}

fn learn_control(v: &mut Vec<ControlDesc>, c: ControlDesc)
    ensures
        views(final(v)@) == learned(views(old(v)@), c@),
{
    let ghost before = views(v@);
    let ghost what = c@;
    let at: usize = find_control(v, c.id);
    if at < v.len() {
        v.set(at, c);
        assert(views(v@) =~= before.update(at as int, what));
    } else {
        v.push(c);
        assert(views(v@) =~= before.push(what));
    }
}

/// A camera node and the controls known of it.
#[derive(Debug)]
pub struct Node {
    /// Its object.serial.
    pub serial: String,
    pub controls: Vec<ControlDesc>,
}

/// Every camera node, bound as it appears, so that its controls are known by
/// the time a stream picks it.
#[derive(Debug)]
pub struct Nodes {
    /// The node the stream uses.
    pub wanted: Option<String>,
    pub nodes: Vec<Node>,
}

/// Where the node of this serial stands, or the length.
pub open spec fn node_at(nodes: Seq<Node>, serial: Seq<char>) -> int
    decreases nodes.len(),
{
    if nodes.len() == 0 || nodes[0].serial@ == serial {
        0
    } else {
        1 + node_at(nodes.drop_first(), serial)
    }
}

proof fn lemma_node_at(nodes: Seq<Node>, serial: Seq<char>, n: int)
    requires
        0 <= n <= nodes.len(),
        forall|i: int| 0 <= i < n ==> (#[trigger] nodes[i]).serial@ != serial,
        n == nodes.len() || nodes[n].serial@ == serial,
    ensures
        node_at(nodes, serial) == n,
    decreases nodes.len(),
{
    if n > 0 {
        let t = nodes.drop_first();
        assert forall|i: int| 0 <= i < n - 1 implies (#[trigger] t[i]).serial@ != serial by {
            assert(t[i] == nodes[i + 1]);
        }
        assert(nodes[0].serial@ != serial);
        lemma_node_at(t, serial, n - 1);
    }
}

/// The nodes as their serials and controls.
pub open spec fn nodes_view(nodes: Seq<Node>) -> Seq<(Seq<char>, Seq<Control>)> {
    nodes.map_values(|n: Node| (n.serial@, views(n.controls@)))
}

/// No node is listed twice, and no control of any.
pub open spec fn nodes_apart(nodes: Seq<(Seq<char>, Seq<Control>)>) -> bool {
    &&& forall|i: int, j: int| 0 <= i < j < nodes.len() ==> (#[trigger] nodes[i]).0 != (#[trigger] nodes[j]).0
    &&& forall|i: int| 0 <= i < nodes.len() ==> each_once((#[trigger] nodes[i]).1)
}

proof fn lemma_node_found(nodes: Seq<Node>, serial: Seq<char>)
    ensures
        0 <= node_at(nodes, serial) <= nodes.len(),
        node_at(nodes, serial) < nodes.len() ==> nodes[node_at(nodes, serial)].serial@ == serial,
        forall|i: int| 0 <= i < node_at(nodes, serial) ==> (#[trigger] nodes[i]).serial@ != serial,
    decreases nodes.len(),
{
    if nodes.len() > 0 && nodes[0].serial@ != serial {
        let t = nodes.drop_first();
        lemma_node_found(t, serial);
        assert forall|i: int| 0 <= i < node_at(nodes, serial) implies (#[trigger] nodes[i]).serial@ != serial by {
            if i > 0 {
                assert(t[i - 1] == nodes[i]);
            }
        }
    }
}

/// A node in the place of one of its serial, or after all others, stays apart
/// from them.
proof fn lemma_nodes_stay_apart(nodes: Seq<Node>, serial: Seq<char>, controls: Seq<Control>)
    requires
        nodes_apart(nodes_view(nodes)),
        each_once(controls),
    ensures
        ({
            let (v, i) = (nodes_view(nodes), node_at(nodes, serial));
            nodes_apart(
                if i < v.len() {
                    v.update(i, (serial, controls))
                } else {
                    v.push((serial, controls))
                },
            )
        }),
{
    let (v, n) = (nodes_view(nodes), node_at(nodes, serial));
    lemma_node_found(nodes, serial);
    let w = if n < v.len() {
        v.update(n, (serial, controls))
    } else {
        v.push((serial, controls))
    };
    assert forall|i: int, j: int| 0 <= i < j < w.len() implies (#[trigger] w[i]).0 != (#[trigger] w[j]).0 by {
        if n < v.len() {
            assert(v[n].0 == serial);
            assert(v[i].0 != v[j].0);
        } else if j < n {
            assert(v[i].0 != v[j].0);
        } else {
            assert(v[i].0 == nodes[i].serial@);
        }
    }
    assert forall|i: int| 0 <= i < w.len() implies each_once((#[trigger] w[i]).1) by {
        if i != n {
            assert(each_once(v[i].1));
        }
    }
}

impl Nodes {
    /// No node is listed twice, and no control of any.
    pub open spec fn well_formed(self) -> bool {
        nodes_apart(nodes_view(self.nodes@))
    }

    pub fn new() -> (n: Nodes)
        ensures
            n.wanted is None,
            n.nodes@.len() == 0,
            n.well_formed(),
    {
        Nodes { wanted: None, nodes: Vec::new() }
    }

    fn find(&self, serial: &str) -> (at: usize)
        ensures
            at == node_at(self.nodes@, serial@),
            at <= self.nodes@.len(),
    {
        let mut i: usize = 0;
        while i < self.nodes.len() && !text::same(self.nodes[i].serial.as_str(), serial)
            invariant
                i <= self.nodes@.len(),
                forall|j: int| 0 <= j < i ==> (#[trigger] self.nodes@[j]).serial@ != serial@,
            decreases self.nodes@.len() - i,
        {
            i = i + 1;
        }
        proof {
            lemma_node_at(self.nodes@, serial@, i as int);
        }
        i
    }

    /// What is known of the node the stream uses.
    pub open spec fn watched(self) -> Option<Seq<Control>> {
        match self.wanted {
            Some(w) => {
                let i = node_at(self.nodes@, w@);
                if i < self.nodes@.len() {
                    Some(views(self.nodes@[i].controls@))
                } else {
                    None
                }
            },
            None => None,
        }
    }

    /// The controls to show of the node the stream uses, ordered by name.
    pub fn announce(&self) -> (list: Option<Vec<ControlDesc>>)
        ensures
            match list {
                Some(l) => self.watched() is Some && views(l@) == crate::settings::by_name(self.watched()->0),
                None => self.watched() is None,
            },
    {
        match &self.wanted {
            Some(w) => {
                let i: usize = self.find(w.as_str());
                if i < self.nodes.len() {
                    Some(crate::settings::sorted_controls(&self.nodes[i].controls))
                } else {
                    None
                }
            },
            None => None,
        }
    }

    /// A node appeared: nothing is known of its controls yet.
    pub fn appear(&mut self, serial: String)
        ensures
            final(self).wanted == old(self).wanted,
            ({
                let i = node_at(old(self).nodes@, serial@);
                let before = nodes_view(old(self).nodes@);
                let fresh = (serial@, Seq::<Control>::empty());
                nodes_view(final(self).nodes@) == if i < before.len() {
                    before.update(i, fresh)
                } else {
                    before.push(fresh)
                }
            }),
            old(self).well_formed() ==> final(self).well_formed(),
    {
        proof {
            if self.well_formed() {
                lemma_nodes_stay_apart(self.nodes@, serial@, Seq::empty());
            }
        }
        let ghost before = nodes_view(self.nodes@);
        let ghost fresh = (serial@, Seq::<Control>::empty());
        let i: usize = self.find(serial.as_str());
        let node = Node { serial, controls: Vec::new() };
        assert(views(node.controls@) =~= Seq::empty());
        if i < self.nodes.len() {
            self.nodes.set(i, node);
            assert(nodes_view(self.nodes@) =~= before.update(i as int, fresh));
        } else {
            self.nodes.push(node);
            assert(nodes_view(self.nodes@) =~= before.push(fresh));
        }
    }

    /// A control of a node became known. Returns the list to show, where the
    /// stream uses that node: every new control announces it.
    pub fn learn(&mut self, serial: &str, c: ControlDesc) -> (list: Option<Vec<ControlDesc>>)
        ensures
            final(self).wanted == old(self).wanted,
            ({
                let i = node_at(old(self).nodes@, serial@);
                let before = nodes_view(old(self).nodes@);
                nodes_view(final(self).nodes@) == if i < before.len() {
                    before.update(i, (before[i].0, learned(before[i].1, c@)))
                } else {
                    before
                }
            }),
            old(self).well_formed() ==> final(self).well_formed(),
            match list {
                Some(l) => {
                    &&& final(self).wanted matches Some(w) && w@ == serial@
                    &&& final(self).watched() is Some
                    &&& views(l@) == crate::settings::by_name(final(self).watched()->0)
                },
                None => !(final(self).wanted matches Some(w) && w@ == serial@) || final(self).watched() is None,
            },
    {
        let ghost before = nodes_view(self.nodes@);
        let i: usize = self.find(serial);
        if i < self.nodes.len() {
            proof {
                lemma_node_found(self.nodes@, serial@);
                if self.well_formed() {
                    assert(each_once(before[i as int].1));
                    law_newest_description_counts(before[i as int].1, c@);
                    lemma_nodes_stay_apart(self.nodes@, serial@, learned(before[i as int].1, c@));
                }
            }
            let mut node: Node = self.nodes.remove(i);
            learn_control(&mut node.controls, c);
            self.nodes.insert(i, node);
            assert(nodes_view(self.nodes@) =~= before.update(
                i as int,
                (before[i as int].0, learned(before[i as int].1, c@)),
            ));
        }
        let ours: bool = match &self.wanted {
            Some(w) => text::same(w.as_str(), serial),
            None => false,
        };
        if ours {
            self.announce()
        } else {
            None
        }
    }

    /// The stream uses this node from now on. Returns the list to show.
    pub fn watch(&mut self, serial: String) -> (list: Option<Vec<ControlDesc>>)
        ensures
            final(self).wanted == Some(serial),
            final(self).nodes == old(self).nodes,
            old(self).well_formed() ==> final(self).well_formed(),
            match list {
                Some(l) => final(self).watched() is Some && views(l@) == crate::settings::by_name(
                    final(self).watched()->0,
                ),
                None => final(self).watched() is None,
            },
    {
        self.wanted = Some(serial);
        self.announce()
    }

    /// The value that sets a control of the node the stream uses; None where
    /// the node does not have it.
    pub fn setting(&self, id: u32, value: &Vec<Number>) -> (p: Option<Prop>)
        ensures
            p == match self.watched() {
                Some(s) => if control_at(s, id) < s.len() {
                    prop_of(s[control_at(s, id)].kind, value@)
                } else {
                    None
                },
                None => None,
            },
    {
        match &self.wanted {
            Some(w) => {
                let i: usize = self.find(w.as_str());
                if i < self.nodes.len() {
                    let at: usize = find_control(&self.nodes[i].controls, id);
                    if at < self.nodes[i].controls.len() {
                        assert(views(self.nodes@[i as int].controls@)[at as int].kind == self.nodes@[i as int].controls@[at as int].kind);
                        props(self.nodes[i].controls[at].kind, value.as_slice())
                    } else {
                        None
                    }
                } else {
                    None
                }
            },
            None => None,
        }
    }
}

/// A described control's default, sent back to the node as it is, is the
/// node's own default: on or off, the same integer, or the same number.
pub proof fn law_defaults_type_back(v: Value)
    ensures
        v matches Value::Bools(Choice::Enum { default, alternatives }) ==> {
            &&& range_of(v) matches Some((kind, min, max, def))
            &&& prop_of(kind, seq![def]) == Some(Prop::Bool(default))
        },
        v matches Value::Bools(Choice::Fixed(x)) ==> {
            &&& range_of(v) matches Some((kind, min, max, def))
            &&& prop_of(kind, seq![def]) == Some(Prop::Bool(x))
        },
        v matches Value::Ints(Choice::Range { default, min, max }) ==> {
            &&& range_of(v) matches Some((kind, lo, hi, def))
            &&& prop_of(kind, seq![def]) == Some(Prop::Int(default))
            &&& prop_of(kind, seq![lo]) == Some(Prop::Int(min))
            &&& prop_of(kind, seq![hi]) == Some(Prop::Int(max))
        },
        v matches Value::Ints(Choice::Enum { default, alternatives }) ==> {
            &&& range_of(v) matches Some((kind, lo, hi, def))
            &&& prop_of(kind, seq![def]) == Some(Prop::Int(default))
            &&& prop_of(kind, seq![lo]) == Some(Prop::Int(span(alternatives@, default).0))
            &&& prop_of(kind, seq![hi]) == Some(Prop::Int(span(alternatives@, default).1))
        },
        v matches Value::Ints(Choice::Fixed(x)) ==> {
            &&& range_of(v) matches Some((kind, lo, hi, def))
            &&& prop_of(kind, seq![def]) == Some(Prop::Int(x))
            &&& lo == def && hi == def
        },
        v matches Value::Floats(Choice::Range { default, min, max }) ==> {
            &&& range_of(v) matches Some((kind, lo, hi, def))
            &&& prop_of(kind, seq![def]) == Some(Prop::Float(default))
            &&& prop_of(kind, seq![lo]) == Some(Prop::Float(min))
            &&& prop_of(kind, seq![hi]) == Some(Prop::Float(max))
        },
        v matches Value::Floats(Choice::Fixed(x)) ==> {
            &&& range_of(v) matches Some((kind, lo, hi, def))
            &&& prop_of(kind, seq![def]) == Some(Prop::Float(x))
            &&& lo == x && hi == x
        },
{
    crate::settings::lemma_truth(true);
    crate::settings::lemma_truth(false);
    match v {
        Value::Ints(Choice::Range { default, min, max }) => {
            law_integers_survive(default as int);
            law_integers_survive(min as int);
            law_integers_survive(max as int);
        },
        Value::Ints(Choice::Enum { default, alternatives }) => {
            law_integers_survive(default as int);
            law_integers_survive(span(alternatives@, default).0 as int);
            law_integers_survive(span(alternatives@, default).1 as int);
        },
        Value::Ints(Choice::Fixed(x)) => {
            law_integers_survive(x as int);
        },
        _ => {},
    }
}

/// A switch's range is from off to on.
pub proof fn law_switches_have_two_ends(v: Value)
    ensures
        (v matches Value::Bools(Choice::Enum { default, alternatives })) || (v matches Value::Bools(Choice::Fixed(x))) ==> {
            &&& range_of(v) matches Some((kind, min, max, def))
            &&& prop_of(kind, seq![min]) == Some(Prop::Bool(false))
            &&& prop_of(kind, seq![max]) == Some(Prop::Bool(true))
        },
{
    crate::settings::lemma_truth(true);
    crate::settings::lemma_truth(false);
}

proof fn lemma_extremes(s: Seq<i32>, n: i32, i: int)
    ensures
        least(s, n) <= n <= greatest(s, n),
        0 <= i < s.len() ==> least(s, n) <= s[i] <= greatest(s, n),
        least(s, n) == n || s.contains(least(s, n)),
        greatest(s, n) == n || s.contains(greatest(s, n)),
    decreases s.len(),
{
    if s.len() > 0 {
        let t = s.drop_last();
        lemma_extremes(t, n, i);
        assert(s[s.len() - 1] == s.last());
        if t.contains(least(t, n)) {
            let k = choose|k: int| 0 <= k < t.len() && t[k] == least(t, n);
            assert(s[k] == least(t, n));
        }
        if t.contains(greatest(t, n)) {
            let k = choose|k: int| 0 <= k < t.len() && t[k] == greatest(t, n);
            assert(s[k] == greatest(t, n));
        }
    }
}

/// The range of alternatives holds each of them, and ends with one both
/// ways.
pub proof fn law_range_spans_the_alternatives(s: Seq<i32>, default: i32, i: int)
    ensures
        s.len() == 0 ==> span(s, default) == (default, default),
        0 <= i < s.len() ==> {
            let (lo, hi) = span(s, default);
            &&& lo <= s[i] <= hi
            &&& s.contains(lo) && s.contains(hi)
        },
{
    if s.len() > 0 {
        lemma_extremes(s, s[0], i);
        assert(s.contains(s[0]));
    }
}

/// A pair of a value and its name is a label, and the labels after it stay;
/// another pair is passed over, and so is what is left alone at the end.
pub proof fn law_labels_come_in_pairs(a: Value, b: Value, rest: Seq<Value>)
    ensures
        a matches Value::Int(v) ==> b matches Value::Text(t) ==> labels_in(seq![a, b] + rest) == seq![(v, t@)] + labels_in(rest),
        !(a is Int && b is Text) ==> labels_in(seq![a, b] + rest) == labels_in(rest),
        labels_in(seq![a]) == Seq::<(i32, Seq<char>)>::empty(),
        labels_in(Seq::empty()) == Seq::<(i32, Seq<char>)>::empty(),
{
    let s = seq![a, b] + rest;
    assert(s.skip(2) =~= rest);
    assert(s[0] == a && s[1] == b);
    assert(Seq::<(i32, Seq<char>)>::empty() + labels_in(rest) =~= labels_in(rest));
    if let (Value::Int(v), Value::Text(t)) = (a, b) {
        assert(labels_in(s) == seq![(v, t@)] + labels_in(s.skip(2)));
    }
}

/// Of properties with the same key the first counts, and others do not hide
/// it.
pub proof fn law_first_property_counts(key: Key, other: Key, v: Value, rest: Seq<(Key, Value)>)
    ensures
        property(seq![(key, v)] + rest, key) == Some(v),
        other != key ==> property(seq![(other, v)] + rest, key) == property(rest, key),
        property(Seq::empty(), key) is None,
{
    let (s, t) = (seq![(key, v)] + rest, seq![(other, v)] + rest);
    assert(s[0] == (key, v));
    assert(t[0] == (other, v));
    assert(t.drop_first() =~= rest);
    if other != key {
        assert(key_at(t, key) == 1 + key_at(rest, key));
        lemma_key_found(rest, key);
        if key_at(rest, key) < rest.len() {
            assert(t[1 + key_at(rest, key)] == rest[key_at(rest, key)]);
        }
    }
}

proof fn lemma_key_found(properties: Seq<(Key, Value)>, key: Key)
    ensures
        0 <= key_at(properties, key) <= properties.len(),
    decreases properties.len(),
{
    if properties.len() > 0 && properties[0].0 != key {
        lemma_key_found(properties.drop_first(), key);
    }
}

/// A description is of one value, and takes its id, name, type and labels
/// from the properties of those keys; without any of the first three there
/// is none.
pub proof fn law_description_takes_the_properties(properties: Seq<(Key, Value)>)
    ensures
        described(properties) matches Some(c) ==> {
            &&& property(properties, Key::Id) == Some(Value::Id(c.id))
            &&& property(properties, Key::Description) matches Some(Value::Text(name)) && name@ == c.name
            &&& property(properties, Key::Type) matches Some(ty) && range_of(ty) == Some((c.kind, c.min, c.max, c.def[0]))
            &&& c.def.len() == 1 && c.len == 1
            &&& property(properties, Key::Labels) matches Some(Value::Struct(l)) ==> c.enums == labels_in(l@)
            &&& property(properties, Key::Labels) is None ==> c.enums.len() == 0
        },
        property(properties, Key::Id) is None || property(properties, Key::Description) is None || property(
            properties,
            Key::Type,
        ) is None ==> described(properties) is None,
{
}

/// A structure of raw video that names both sides adds its size, and no
/// other structure adds any.
pub proof fn law_raw_structures_name_sizes(caps: Seq<Caps>, c: Caps)
    ensures
        c.name@ == "video/x-raw"@ && c.width is Some && c.height is Some && c.width->0 >= 0 && c.height->0 >= 0 ==> {
            &&& raw_sizes(caps.push(c)).len() == raw_sizes(caps).len() + 1
            &&& raw_sizes(caps.push(c)).last().width == c.width->0
            &&& raw_sizes(caps.push(c)).last().height == c.height->0
            &&& raw_sizes(caps.push(c)).drop_last() == raw_sizes(caps)
        },
        c.name@ != "video/x-raw"@ || c.width is None || c.height is None ==> raw_sizes(caps.push(c)) == raw_sizes(caps),
        raw_sizes(Seq::empty()).len() == 0,
{
    assert(caps.push(c).drop_last() =~= caps);
    if raw_size(c) is Some {
        assert(raw_sizes(caps).push(raw_size(c)->0).drop_last() =~= raw_sizes(caps));
    }
}

/// A stream starts at a size of the camera. Up to 1920 wide no size has more
/// pixels, and it is wider only where every size is.
pub proof fn law_default_is_the_largest_up_to_1080p(modes: Seq<Mode>, m: Mode, i: int)
    requires
        is_default(modes, Some(m)),
        0 <= i < modes.len(),
    ensures
        modes.contains(m),
        modes[i].width <= 1920 ==> m.width <= 1920 && modes[i].width * modes[i].height <= m.width * m.height,
        m.width > 1920 ==> m == modes.last(),
{
    if exists|j: int| 0 <= j < modes.len() && (#[trigger] modes[j]).width <= 1920 {
        assert(largest_narrow(modes, m));
        let k = choose|k: int|
            {
                &&& 0 <= k < modes.len()
                &&& #[trigger] modes[k] == m
                &&& m.width <= 1920
                &&& forall|j: int| 0 <= j < modes.len() && (#[trigger] modes[j]).width <= 1920 ==> modes[j].spec_area() <= m.spec_area()
                &&& forall|j: int| k < j < modes.len() && (#[trigger] modes[j]).width <= 1920 ==> modes[j].spec_area() < m.spec_area()
            };
        assert(modes[k] == m);
    } else {
        assert(modes[modes.len() - 1] == m);
    }
}

/// A node's camera goes by its serial number, else by its node, else by what
/// it is called, which is its model anyway.
pub proof fn law_nodes_are_told_apart(
    serial: Seq<char>,
    node: Option<Seq<char>>,
    display: Seq<char>,
    location: Option<Seq<char>>,
)
    ensures
        node_of(Some(serial), node, display, location).id == serial,
        node matches Some(n) ==> node_of(None, node, display, location).id == n,
        node_of(None, None, display, location).id == display,
        node_of(Some(serial), node, display, location).model == display,
        node_of(Some(serial), node, display, Some("front"@)).facing == Facing::Front,
        node_of(Some(serial), node, display, Some("back"@)).facing == Facing::Back,
        node_of(Some(serial), node, display, None).facing == Facing::External,
        node_of(Some(serial), node, display, location).rotation == 0,
{
    reveal_strlit("front");
    reveal_strlit("back");
    assert("front"@.len() != "back"@.len());
}

/// A stream's session is of the camera and size asked for, turned as its tag
/// says, and shows what was negotiated, at one positive rate or none.
pub proof fn law_session_shows_what_was_negotiated(
    index: usize,
    info: Camera,
    modes: Seq<Mode>,
    mode: Mode,
    rotation: i32,
    got: Negotiated,
)
    ensures
        ({
            let s = session_of(index, info, modes, mode, rotation, got);
            &&& s.camera == index
            &&& s.info.id == info.id && s.info.model == info.model && s.info.facing == info.facing
            &&& s.info.rotation == rotation
            &&& s.modes == modes && s.mode == mode && s.view == got.view
            &&& code_of(got.format) matches Some(c) ==> s.fourcc == c
            &&& code_of(got.format) is None ==> s.fourcc == 0
            &&& s.controls.len() == 0 && !s.raw && !s.af_windows
            &&& s.fps matches Some((lo, hi)) ==> lo == hi && got.rate == Some(lo) && lo.rank() > 0
            &&& s.fps is None ==> !(got.rate matches Some(r) && !r.not_a_number() && r.rank() > 0)
        }),
{
    assert(Number::of(0).bits == 0);
}

/// A photo of a sample is the same picture, in the same format, of the camera
/// that streams, turned as the stream is; so is the frame that is shown.
pub proof fn law_samples_are_kept_whole(stream: Stream, still: Still, f: Frame, s: Sample)
    ensures
        stream.is_photo_of(still, s) ==> {
            &&& (still.width, still.height, still.stride) == (s.width, s.height, s.stride)
            &&& still.rgba@ == s.data@
            &&& code_of(s.format) == Some(still.fourcc)
            &&& still.raw is None && still.metadata@.dom().is_empty()
            &&& still.info.rotation == stream.rotation
            &&& still.info.id@ == stream.info->0.id@ && still.info.model@ == stream.info->0.model@
            &&& still.info.facing == stream.info->0.facing
            &&& still.zoom.rounded() == 1
        },
        is_frame_of(f, s) ==> {
            &&& (f.width, f.height, f.stride) == (s.width, s.height, s.stride)
            &&& f.bytes matches Some(b) && b@ == s.data@
            &&& code_of(s.format) == Some(f.fourcc)
            &&& f.fd == -1 && f.offset == 0 && f.ret is None
        },
{
    law_integers_survive(1);
    if stream.is_photo_of(still, s) {
        assert(still.info@.id == stream.info->0@.id);
        assert(still.metadata@.dom() =~= Set::empty());
    }
}

/// The formats of a stream have a code each, which recordings know by the
/// format's own name.
pub proof fn law_stream_formats_are_told_apart()
    ensures
        crate::video::format_name(code_of(VideoFormat::Nv12)->0) == Some("NV12"@),
        crate::video::format_name(code_of(VideoFormat::Rgbx)->0) == Some("RGBx"@),
        crate::video::format_name(code_of(VideoFormat::Rgba)->0) == Some("RGBA"@),
        crate::video::format_name(code_of(VideoFormat::Bgrx)->0) == Some("BGRx"@),
        crate::video::format_name(code_of(VideoFormat::Bgra)->0) == Some("BGRA"@),
        code_of(VideoFormat::Other) is None,
{
}

/// A stream's tag is read as recordings write theirs: the degrees that the
/// picture is turned clockwise.
pub proof fn law_orientation_tags_read_back(turns: int)
    ensures
        tag_degrees(crate::video::rotation_name(360 * turns)) == Some(0i32),
        tag_degrees(crate::video::rotation_name(360 * turns + 90)) == Some(90i32),
        tag_degrees(crate::video::rotation_name(360 * turns + 180)) == Some(180i32),
        tag_degrees(crate::video::rotation_name(360 * turns + 270)) == Some(270i32),
{
    reveal_strlit("rotate-0");
    reveal_strlit("rotate-90");
    reveal_strlit("rotate-180");
    reveal_strlit("rotate-270");
    assert("rotate-0"@.len() == 8 && "rotate-90"@.len() == 9 && "rotate-180"@.len() == 10 && "rotate-270"@.len() == 10);
    assert("rotate-180"@[7] != "rotate-270"@[7]);
}

/// What is shown are the controls of the node the stream uses, whatever other
/// nodes there are; without one, or before it appears, nothing.
pub proof fn law_only_the_wanted_node_is_watched(n: Nodes, i: int)
    requires
        0 <= i < n.nodes@.len(),
        n.well_formed(),
    ensures
        n.wanted is None ==> n.watched() is None,
        n.wanted matches Some(w) ==> (n.nodes@[i].serial@ == w@ ==> n.watched() == Some(views(n.nodes@[i].controls@))),
        n.watched() is Some ==> exists|j: int|
            0 <= j < n.nodes@.len() && n.wanted == Some(n.wanted->0) && (#[trigger] n.nodes@[j]).serial@ == n.wanted->0@,
{
    if let Some(w) = n.wanted {
        lemma_node_found(n.nodes@, w@);
        let k = node_at(n.nodes@, w@);
        let v = nodes_view(n.nodes@);
        if n.nodes@[i].serial@ == w@ && k != i {
            assert(v[i].0 == w@ && v[k].0 == w@);
            if k < i {
                assert(v[k].0 != v[i].0);
            } else {
                assert(n.nodes@[i].serial@ != w@);
            }
        }
    }
}

/// A stream starts upright, with its first frame to come, and keeps what was
/// asked for; tags turn it, those that are no plain turn do not.
pub proof fn law_streams_start_upright(s: Stream, info: CameraInfo, name: Seq<char>)
    ensures
        s.begun(info).info == Some(info) && s.begun(info).rotation == 0 && s.begun(info).first,
        s.begun(info).capture == s.capture && s.begun(info).recording == s.recording,
        tag_degrees(name) matches Some(d) ==> s.tagged(name).rotation == d,
        tag_degrees(name) is None ==> s.tagged(name) == s,
        s.tagged(name).info == s.info && s.tagged(name).capture == s.capture && s.tagged(name).recording == s.recording,
{
}

/// A frame in a format with a code is shown, recorded while a recording runs,
/// and is the photo that was asked for, of the camera that streams; any other
/// frame changes nothing.
pub proof fn law_frames_with_a_code_are_taken(
    before: Stream,
    after: Stream,
    s: Sample,
    slot: FrameSlot,
    new_slot: FrameSlot,
    out: Sampled,
)
    requires
        before.takes(after, s, slot, new_slot, out),
    ensures
        s.format == VideoFormat::Other ==> {
            &&& after == before && new_slot == slot
            &&& !out.record && !out.frame_ready && out.still is None && out.stale is None
        },
        s.format != VideoFormat::Other ==> {
            &&& !after.capture && !after.first
            &&& out.record == before.recording
            &&& out.still is Some <==> before.capture && before.info is Some
            &&& out.still matches Some(p) ==> before.is_photo_of(p, s)
            &&& new_slot.frame matches Some(f) && is_frame_of(f, s)
            &&& out.stale == slot.frame
            &&& out.frame_ready <==> slot.frame is None
            &&& slot.frame is None ==> new_slot.replaced == slot.replaced
            &&& slot.frame is Some ==> new_slot.replaced == counted(slot.replaced)
        },
        after.recording == before.recording && after.rotation == before.rotation && after.info == before.info,
{
}

/// A stream's commands: a camera that is there opens at the size asked for,
/// photos and recordings are noted, controls are passed on as they are, and
/// all else is left to others.
pub proof fn law_streams_carry_commands_out(before: Stream, after: Stream, cmd: Cmd, cameras: usize, step: Step)
    requires
        obeys(before, after, cmd, cameras, step),
    ensures
        cmd matches Cmd::Open { camera, mode, video } ==> {
            &&& after == before
            &&& camera < cameras ==> step == (Step::Open { camera, mode })
            &&& camera >= cameras ==> step is Missing
        },
        cmd is Capture ==> after.capture && after.recording == before.recording && step is Nothing,
        cmd matches Cmd::Record(on) ==> after.recording == on && after.capture == before.capture && step is Nothing,
        cmd matches Cmd::SetControl { id, value } ==> after == before && step == (Step::Control { id, value }),
        cmd is Close <==> step is Close,
        step is Control <==> cmd is SetControl,
        after.info == before.info && after.rotation == before.rotation && after.first == before.first,
{
}

} // verus!
