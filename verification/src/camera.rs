//! What the interface and a capture backend pass each other: cameras,
//! sessions, frames and photos, and the choices made while a camera is set
//! up.

use crate::modes::Mode;
use crate::number::Number;
use crate::settings::{Control, ControlDesc, Metadata, views};
use crate::text;
use vstd::prelude::*;

verus! {

#[derive(Debug, Clone, Copy, PartialEq, Eq, Structural)]
pub enum Facing {
    Front,
    Back,
    External,
}

/// One camera of the system.
#[derive(Debug)]
pub struct CameraInfo {
    pub id: String,
    pub model: String,
    pub facing: Facing,
    /// Degrees the buffers must be turned clockwise to be upright. Known once
    /// the camera is configured; 0 before.
    pub rotation: i32,
}

/// A [`CameraInfo`] as plain sequences.
#[verifier::ext_equal]
pub struct Camera {
    pub id: Seq<char>,
    pub model: Seq<char>,
    pub facing: Facing,
    pub rotation: i32,
}

impl View for CameraInfo {
    type V = Camera;

    open spec fn view(&self) -> Camera {
        Camera { id: self.id@, model: self.model@, facing: self.facing, rotation: self.rotation }
    }
}

/// `gettextrs::gettext` looks a message up in the catalogue of the user's
/// language. What comes back depends on the catalogues installed, so nothing
/// is claimed of it. A message with a NUL in it is refused by a panic, as is
/// a catalogue that is not UTF-8, which no argument tells.
#[verifier::external_body]
pub(crate) fn translated(message: &str) -> (local: String)
    requires
        !message@.contains('\0'),
{
    gettextrs::gettext(message)
}

impl CameraInfo {
    /// The same camera.
    pub fn copy(&self) -> (c: CameraInfo)
        ensures
            c@ == self@,
    {
        CameraInfo { id: self.id.clone(), model: self.model.clone(), facing: self.facing, rotation: self.rotation }
    }

    /// What the interface calls the camera before translation; a camera
    /// that is not built in goes by its model.
    pub open spec fn spec_caption(self) -> Option<Seq<char>> {
        match self.facing {
            Facing::Back => Some("Back Camera"@),
            Facing::Front => Some("Front Camera"@),
            Facing::External => None,
        }
    }

    pub fn caption(&self) -> (caption: Option<&'static str>)
        ensures
            match caption {
                Some(c) => self.spec_caption() == Some(c@),
                None => self.spec_caption() is None,
            },
            caption matches Some(c) ==> !c@.contains('\0'),
    {
        proof {
            reveal_strlit("Back Camera");
            reveal_strlit("Front Camera");
        }
        match self.facing {
            Facing::Back => Some("Back Camera"),
            Facing::Front => Some("Front Camera"),
            Facing::External => None,
        }
    }

    /// The name, given the caption in the user's language.
    pub fn named(&self, local: Option<String>) -> (name: String)
        ensures
            name@ == match local {
                Some(l) => l@,
                None => self.model@,
            },
    {
        match local {
            Some(l) => l,
            None => self.model.clone(),
        }
    }

    /// What to call the camera in the interface: the translated caption, or
    /// the model.
    pub fn name(&self) -> (name: String)
        ensures
            self.spec_caption() is None ==> name@ == self.model@,
    {
        let local: Option<String> = match self.caption() {
            Some(c) => Some(translated(c)),
            None => None,
        };
        self.named(local)
    }
}

/// Where a camera says it is mounted.
#[derive(Debug, Clone, Copy, PartialEq, Eq, Structural)]
pub enum Location {
    CameraFront,
    CameraBack,
    CameraExternal,
}

pub open spec fn facing_of(location: Option<Location>) -> Facing {
    match location {
        Some(Location::CameraFront) => Facing::Front,
        Some(Location::CameraBack) => Facing::Back,
        _ => Facing::External,
    }
}

/// A control character.
pub open spec fn is_control(c: char) -> bool {
    c <= '\u{1f}' || '\u{7f}' <= c <= '\u{9f}'
}

/// White space that is no control character.
pub open spec fn is_blank(c: char) -> bool {
    c == ' ' || c == '\u{a0}' || c == '\u{1680}' || '\u{2000}' <= c <= '\u{200a}' || c == '\u{2028}' || c == '\u{2029}'
        || c == '\u{202f}' || c == '\u{205f}' || c == '\u{3000}'
}

/// `s` without its control characters.
pub open spec fn printable(s: Seq<char>) -> Seq<char>
    decreases s.len(),
{
    if s.len() == 0 {
        s
    } else if is_control(s.last()) {
        printable(s.drop_last())
    } else {
        printable(s.drop_last()).push(s.last())
    }
}

pub open spec fn all_blank(s: Seq<char>) -> bool {
    forall|i: int| 0 <= i < s.len() ==> is_blank(#[trigger] s[i])
}

/// The model to show: what is printable of it, or the id where that is
/// nothing.
pub open spec fn model_of(id: Seq<char>, model: Option<Seq<char>>) -> Seq<char> {
    match model {
        Some(m) => if all_blank(printable(m)) {
            id
        } else {
            printable(m)
        },
        None => id,
    }
}

fn printed(s: &str) -> (out: String)
    ensures
        out@ == printable(s@),
{
    let v: Vec<char> = text::chars(s);
    let mut out: String = String::new();
    let mut i: usize = 0;
    assert(v@.take(0).len() == 0);
    while i < v.len()
        invariant
            i <= v@.len(),
            out@ == printable(v@.take(i as int)),
        decreases v@.len() - i,
    {
        let c: char = v[i];
        assert(v@.take(i + 1).drop_last() =~= v@.take(i as int));
        if !(c <= '\u{1f}' || ('\u{7f}' <= c && c <= '\u{9f}')) {
            out.push(c);
        }
        i = i + 1;
    }
    assert(v@.take(v@.len() as int) =~= v@);
    out
}

fn is_all_blank(s: &str) -> (blank: bool)
    ensures
        blank == all_blank(s@),
{
    let v: Vec<char> = text::chars(s);
    let mut i: usize = 0;
    while i < v.len()
        invariant
            i <= v@.len(),
            v@ == s@,
            forall|j: int| 0 <= j < i ==> is_blank(#[trigger] s@[j]),
        decreases v@.len() - i,
    {
        let c: char = v[i];
        let blank: bool = c == ' ' || c == '\u{a0}' || c == '\u{1680}' || ('\u{2000}' <= c && c <= '\u{200a}') || c
            == '\u{2028}' || c == '\u{2029}' || c == '\u{202f}' || c == '\u{205f}' || c == '\u{3000}';
        if !blank {
            assert(!is_blank(s@[i as int]));
            return false;
        }
        i = i + 1;
    }
    true
}

/// A camera as found, before it is configured.
pub fn found(id: &str, model: Option<&str>, location: Option<Location>) -> (info: CameraInfo)
    ensures
        info@ == (Camera {
            id: id@,
            model: model_of(
                id@,
                match model {
                    Some(m) => Some(m@),
                    None => None,
                },
            ),
            facing: facing_of(location),
            rotation: 0,
        }),
{
    let shown: String = match model {
        Some(m) => {
            let p: String = printed(m);
            if is_all_blank(p.as_str()) {
                String::from_str(id)
            } else {
                p
            }
        },
        None => String::from_str(id),
    };
    let facing: Facing = match location {
        Some(Location::CameraFront) => Facing::Front,
        Some(Location::CameraBack) => Facing::Back,
        _ => Facing::External,
    };
    CameraInfo { id: String::from_str(id), model: shown, facing, rotation: 0 }
}

/// How a buffer's picture is turned, as the camera stack names it.
#[derive(Debug, Clone, Copy, PartialEq, Eq, Structural)]
pub enum Orientation {
    Rotate0,
    Rotate0Mirror,
    Rotate180,
    Rotate180Mirror,
    Rotate90Mirror,
    Rotate270,
    Rotate270Mirror,
    Rotate90,
}

/// The clockwise turn that produced the buffer from an upright image. The
/// mirror bit is dropped: mirrored orientations only come back when an
/// application asks for one.
pub open spec fn turn(o: Orientation) -> int {
    match o {
        Orientation::Rotate0 | Orientation::Rotate0Mirror => 0,
        Orientation::Rotate90 | Orientation::Rotate90Mirror => 90,
        Orientation::Rotate180 | Orientation::Rotate180Mirror => 180,
        Orientation::Rotate270 | Orientation::Rotate270Mirror => 270,
    }
}

/// Degrees clockwise that make the buffer upright: the opposite turn.
pub fn upright_rotation(o: Orientation) -> (degrees: i32)
    ensures
        0 <= degrees < 360,
        (turn(o) + degrees) % 360 == 0,
{
    match o {
        Orientation::Rotate0 | Orientation::Rotate0Mirror => 0,
        Orientation::Rotate90 | Orientation::Rotate90Mirror => 270,
        Orientation::Rotate180 | Orientation::Rotate180Mirror => 180,
        Orientation::Rotate270 | Orientation::Rotate270Mirror => 90,
    }
}

/// A pixel format's four characters, the first in the low byte.
pub fn fourcc(code: [u8; 4]) -> (n: u32)
    ensures
        n == code@[0] + 0x100 * code@[1] + 0x1_0000 * code@[2] + 0x100_0000 * code@[3],
{
    code[0] as u32 + 0x100 * code[1] as u32 + 0x1_0000 * code[2] as u32 + 0x100_0000 * code[3] as u32
}

/// The formats of a viewfinder, best first: "XB24", "AB24", "XR24", "AR24",
/// "NV12" and "YUYV".
pub open spec fn view_formats() -> Seq<u32> {
    seq![0x3432_4258u32, 0x3432_4241u32, 0x3432_5258u32, 0x3432_5241u32, 0x3231_564eu32, 0x5659_5559u32]
}

/// Where `(code, 0)` first stands in `offered`, or its length.
pub open spec fn offered_at(offered: Seq<(u32, u64)>, code: u32) -> int
    decreases offered.len(),
{
    if offered.len() == 0 || offered[0] == (code, 0u64) {
        0
    } else {
        1 + offered_at(offered.drop_first(), code)
    }
}

proof fn lemma_offered_at(offered: Seq<(u32, u64)>, code: u32, n: int)
    requires
        0 <= n <= offered.len(),
        forall|i: int| 0 <= i < n ==> offered[i] != (code, 0u64),
        n < offered.len() ==> offered[n] == (code, 0u64),
    ensures
        offered_at(offered, code) == n,
    decreases offered.len(),
{
    if n > 0 {
        lemma_offered_at(offered.drop_first(), code, n - 1);
    }
}

/// The place in `offered` of the best format from `wanted`.
pub open spec fn picked(wanted: Seq<u32>, offered: Seq<(u32, u64)>) -> Option<int>
    decreases wanted.len(),
{
    if wanted.len() == 0 {
        None
    } else if offered_at(offered, wanted[0]) < offered.len() {
        Some(offered_at(offered, wanted[0]))
    } else {
        picked(wanted.drop_first(), offered)
    }
}

fn find_offered(offered: &Vec<(u32, u64)>, code: u32) -> (at: usize)
    ensures
        at == offered_at(offered@, code),
        at <= offered@.len(),
{
    let mut i: usize = 0;
    while i < offered.len() && !(offered[i].0 == code && offered[i].1 == 0)
        invariant
            i <= offered@.len(),
            forall|j: int| 0 <= j < i ==> offered@[j] != (code, 0u64),
        decreases offered@.len() - i,
    {
        i = i + 1;
    }
    proof {
        lemma_offered_at(offered@, code, i as int);
    }
    i
}

/// Which of the offered formats (code and modifier) the viewfinder takes:
/// the best plain one; none where the camera's own choice must stay.
pub fn pick_format(offered: &Vec<(u32, u64)>) -> (at: Option<usize>)
    ensures
        match at {
            Some(i) => picked(view_formats(), offered@) == Some(i as int) && i < offered@.len(),
            None => picked(view_formats(), offered@) is None,
        },
{
    let wanted: [u32; 6] = [
        fourcc([0x58, 0x42, 0x32, 0x34]),
        fourcc([0x41, 0x42, 0x32, 0x34]),
        fourcc([0x58, 0x52, 0x32, 0x34]),
        fourcc([0x41, 0x52, 0x32, 0x34]),
        fourcc([0x4e, 0x56, 0x31, 0x32]),
        fourcc([0x59, 0x55, 0x59, 0x56]),
    ];
    let mut i: usize = 0;
    assert(wanted@ =~= view_formats());
    assert(view_formats().skip(0) =~= view_formats());
    while i < 6
        invariant
            i <= 6,
            wanted@ == view_formats(),
            picked(view_formats(), offered@) == picked(view_formats().skip(i as int), offered@),
        decreases 6 - i,
    {
        let at: usize = find_offered(offered, wanted[i]);
        assert(view_formats().skip(i as int).drop_first() =~= view_formats().skip(i + 1));
        assert(view_formats().skip(i as int)[0] == wanted@[i as int]);
        if at < offered.len() {
            return Some(at);
        }
        i = i + 1;
    }
    None
}

/// A stream set to `mode` came out of validation unchanged, with this size.
pub open spec fn came_out(valid: bool, got: Option<Mode>, mode: Mode) -> bool {
    valid && got == Some(mode)
}

/// A validated configuration can be used.
pub open spec fn usable(valid: bool, raw: bool, raw_size: Option<Mode>, mode: Mode) -> bool {
    valid && (raw ==> raw_size == Some(mode))
}

/// Whether a stream set to `mode` came out of validation unchanged. `got` is
/// its size then.
pub fn configures_as(valid: bool, got: Option<Mode>, mode: Mode) -> (as_asked: bool)
    ensures
        as_asked == came_out(valid, got, mode),
{
    match got {
        Some(g) => valid && g == mode,
        None => false,
    }
}

/// Whether a validated configuration can be used: with a raw stream, only
/// where that kept the size asked for.
pub fn acceptable(valid: bool, raw: bool, raw_size: Option<Mode>, mode: Mode) -> (can: bool)
    ensures
        can == usable(valid, raw, raw_size, mode),
{
    valid && (!raw || configures_as(valid, raw_size, mode))
}

/// The fastest and the slowest frame duration, in microseconds, from the
/// lowest and the highest limits the camera reports; both positive.
pub open spec fn durations(min: Seq<Number>, max: Seq<Number>) -> Option<(Number, Number)> {
    if min.len() > 0 && max.len() > 0 && Number::of(0).below(min[0]) && Number::of(0).below(max.last()) {
        Some((min[0], max.last()))
    } else {
        None
    }
}

pub fn frame_duration_range(min: &Vec<Number>, max: &Vec<Number>) -> (r: Option<(Number, Number)>)
    ensures
        r == durations(min@, max@),
{
    if min.len() == 0 || max.len() == 0 {
        return None;
    }
    let zero: Number = Number::from_i64(0);
    let (fastest, slowest) = (min[0], max[max.len() - 1]);
    if zero.is_below(fastest) && zero.is_below(slowest) {
        Some((fastest, slowest))
    } else {
        None
    }
}

/// A camera that is open, as the interface knows it.
#[derive(Debug)]
pub struct Session {
    pub camera: usize,
    pub info: CameraInfo,
    pub modes: Vec<Mode>,
    pub mode: Mode,
    pub view: Mode,
    /// DRM fourcc of the viewfinder stream.
    pub fourcc: u32,
    pub controls: Vec<ControlDesc>,
    pub raw: bool,
    /// Frame rate range the configured mode allows, if the camera reports it.
    pub fps: Option<(Number, Number)>,
    /// Autofocus can be pointed at a spot (AfWindows).
    pub af_windows: bool,
}

/// A [`Session`] as plain sequences.
#[verifier::ext_equal]
pub struct Opened {
    pub camera: usize,
    pub info: Camera,
    pub modes: Seq<Mode>,
    pub mode: Mode,
    pub view: Mode,
    pub fourcc: u32,
    pub controls: Seq<Control>,
    pub raw: bool,
    pub fps: Option<(Number, Number)>,
    pub af_windows: bool,
}

impl View for Session {
    type V = Opened;

    open spec fn view(&self) -> Opened {
        Opened {
            camera: self.camera,
            info: self.info@,
            modes: self.modes@,
            mode: self.mode,
            view: self.view,
            fourcc: self.fourcc,
            controls: views(self.controls@),
            raw: self.raw,
            fps: self.fps,
            af_windows: self.af_windows,
        }
    }
}

/// A viewfinder frame. The dmabuf stays valid, and the request stays out of
/// the camera's queue, until its release.
#[derive(Debug)]
pub struct Frame {
    pub width: u32,
    pub height: u32,
    pub stride: u32,
    pub fourcc: u32,
    pub fd: i32,
    pub offset: u32,
    /// CPU copy, only when the backend was told the dmabuf path failed.
    pub bytes: Option<Vec<u8>>,
    /// The request to give back, and the session it came from.
    pub ret: Option<(u64, u64)>,
}

/// One raw sensor image.
#[derive(Debug)]
pub struct RawImage {
    pub width: u32,
    pub height: u32,
    pub stride: u32,
    /// The camera stack's format name, e.g. "SRGGB10_CSI2P".
    pub format: String,
    pub data: Vec<u8>,
}

/// A photo.
#[derive(Debug)]
pub struct Still {
    pub width: u32,
    pub height: u32,
    pub stride: u32,
    pub fourcc: u32,
    pub rgba: Vec<u8>,
    pub raw: Option<RawImage>,
    pub metadata: Metadata,
    pub info: CameraInfo,
    /// Digital zoom to crop to when saving.
    pub zoom: Number,
}

/// What the interface asks of a backend.
#[derive(Debug)]
pub enum Cmd {
    /// `mode` is the photo (or video) size; for photos the viewfinder may
    /// run a smaller, faster mode of the same shape.
    Open { camera: usize, mode: Option<Mode>, video: bool },
    /// Photos from the full sensor mode (a quick reconfiguration per shot)
    /// rather than from the viewfinder.
    FullResolution(bool),
    SetControl { id: u32, value: Vec<Number> },
    /// Meter autofocus around a point, in 0..1 sensor coordinates.
    FocusAt(Number, Number),
    Capture,
    /// Start or stop feeding the recorder.
    Record(bool),
    CopyFrames(bool),
    Close,
}

/// What a backend tells the interface.
#[derive(Debug)]
pub enum Event {
    Cameras(Vec<CameraInfo>),
    Opened(Session),
    /// A new viewfinder frame is waiting in the backend's slot.
    FrameReady,
    Metadata(Metadata),
    Still(Box<Still>),
    Error(String),
}

/// The newest viewfinder frame, and nothing older: a frame the interface has
/// not taken by the time the next one completes goes straight back to the
/// camera, so a busy main thread costs a skipped frame, never latency or
/// buffers stuck in a queue.
#[derive(Debug)]
pub struct FrameSlot {
    pub frame: Option<Frame>,
    /// Frames replaced before the interface took them.
    pub replaced: u32,
}

/// What delivering a frame did.
#[derive(Debug)]
pub enum Delivery {
    /// The slot was empty: the interface is told of the frame.
    Ready,
    /// An older frame had to go; its request, if it holds one, goes back.
    Replaced(Frame),
}

/// A counter one further, that starts over at its end.
pub open spec fn counted(n: u32) -> u32 {
    if n == u32::MAX {
        0
    } else {
        (n + 1) as u32
    }
}

impl FrameSlot {
    pub fn new() -> (slot: FrameSlot)
        ensures
            slot == (FrameSlot { frame: None, replaced: 0 }),
    {
        FrameSlot { frame: None, replaced: 0 }
    }

    /// Put the newest frame in the slot.
    pub fn deliver(&mut self, frame: Frame) -> (d: Delivery)
        ensures
            final(self).frame == Some(frame),
            match old(self).frame {
                None => d == Delivery::Ready && final(self).replaced == old(self).replaced,
                Some(stale) => d == Delivery::Replaced(stale) && final(self).replaced == counted(old(self).replaced),
            },
    {
        match self.frame.take() {
            None => {
                self.frame = Some(frame);
                Delivery::Ready
            },
            Some(stale) => {
                self.frame = Some(frame);
                self.replaced = self.replaced.wrapping_add(1);
                Delivery::Replaced(stale)
            },
        }
    }

    pub fn take_frame(&mut self) -> (frame: Option<Frame>)
        ensures
            frame == old(self).frame,
            final(self).frame is None,
            final(self).replaced == old(self).replaced,
    {
        self.frame.take()
    }

    /// Frames skipped since the last call.
    pub fn take_replaced(&mut self) -> (n: u32)
        ensures
            n == old(self).replaced,
            *final(self) == (FrameSlot { frame: old(self).frame, replaced: 0 }),
    {
        let n: u32 = self.replaced;
        self.replaced = 0;
        n
    }
}

/// A buffer's turn is a quarter turn further for each orientation the camera
/// stack counts on, and mirroring it changes no turn.
pub proof fn law_orientations_name_their_turn()
    ensures
        turn(Orientation::Rotate0) == 0 && turn(Orientation::Rotate90) == 90,
        turn(Orientation::Rotate180) == 180 && turn(Orientation::Rotate270) == 270,
        turn(Orientation::Rotate0Mirror) == turn(Orientation::Rotate0),
        turn(Orientation::Rotate90Mirror) == turn(Orientation::Rotate90),
        turn(Orientation::Rotate180Mirror) == turn(Orientation::Rotate180),
        turn(Orientation::Rotate270Mirror) == turn(Orientation::Rotate270),
{
}

/// A model is shown character by character: control characters, by their
/// codes, go, all others stay in order.
pub proof fn law_models_lose_control_characters(s: Seq<char>, t: Seq<char>, c: char)
    ensures
        printable(s + t) == printable(s) + printable(t),
        printable(seq![c]) == if (c as int) < 32 || 127 <= (c as int) < 160 {
            Seq::empty()
        } else {
            seq![c]
        },
        printable(printable(s)) == printable(s),
    decreases t.len(),
{
    assert(seq![c].drop_last() =~= Seq::empty());
    assert(printable(seq![c].drop_last()) =~= Seq::empty());
    assert(seq![c].last() == c);
    assert(Seq::<char>::empty().push(c) =~= seq![c]);
    lemma_printable_stays(s);
    if t.len() == 0 {
        assert(s + t =~= s);
        assert(printable(s) + printable(t) =~= printable(s));
    } else {
        law_models_lose_control_characters(s, t.drop_last(), c);
        assert((s + t).drop_last() =~= s + t.drop_last());
        assert((s + t).last() == t.last());
        if !is_control(t.last()) {
            assert(printable(s + t) =~= printable(s) + printable(t));
        }
    }
}

proof fn lemma_printable_stays(s: Seq<char>)
    ensures
        printable(printable(s)) == printable(s),
    decreases s.len(),
{
    if s.len() > 0 {
        lemma_printable_stays(s.drop_last());
        if !is_control(s.last()) {
            assert(printable(s).drop_last() =~= printable(s.drop_last()));
            assert(printable(s).last() == s.last());
        }
    }
}

/// A camera goes by its model where a character of that can be seen, and by
/// its id where it has none.
pub proof fn law_blank_models_give_way_to_the_id(id: Seq<char>, model: Seq<char>, i: int)
    ensures
        model_of(id, None) == id,
        model_of(id, Some(Seq::empty())) == id,
        model_of(id, Some(model)) == id || model_of(id, Some(model)) == printable(model),
        0 <= i < printable(model).len() && {
            let c = printable(model)[i] as int;
            c != 0x20 && c != 0xa0 && c != 0x1680 && !(0x2000 <= c <= 0x200a) && c != 0x2028 && c != 0x2029 && c != 0x202f && c
                != 0x205f && c != 0x3000
        } ==> model_of(id, Some(model)) == printable(model),
        (forall|j: int|
            0 <= j < model.len() ==> {
                let c = #[trigger] model[j] as int;
                c < 32 || c == 0x20 || c == 0xa0 || 0x2000 <= c <= 0x200a || c == 0x3000
            }) ==> model_of(id, Some(model)) == id,
{
    if forall|j: int|
        0 <= j < model.len() ==> {
            let c = #[trigger] model[j] as int;
            c < 32 || c == 0x20 || c == 0xa0 || 0x2000 <= c <= 0x200a || c == 0x3000
        } {
        lemma_printable_from(model);
        assert(all_blank(printable(model))) by {
            assert forall|k: int| 0 <= k < printable(model).len() implies is_blank(#[trigger] printable(model)[k]) by {
                assert(model.contains(printable(model)[k]) && !is_control(printable(model)[k]));
            }
        }
    }
    if 0 <= i < printable(model).len() {
        if all_blank(printable(model)) {
            assert(is_blank(printable(model)[i]));
        }
    }
}

proof fn lemma_printable_from(s: Seq<char>)
    ensures
        forall|k: int| 0 <= k < printable(s).len() ==> s.contains(#[trigger] printable(s)[k]) && !is_control(printable(s)[k]),
    decreases s.len(),
{
    if s.len() > 0 {
        let t = s.drop_last();
        lemma_printable_from(t);
        assert forall|k: int| 0 <= k < printable(s).len() implies s.contains(#[trigger] printable(s)[k]) && !is_control(
            printable(s)[k],
        ) by {
            if k < printable(t).len() {
                let c = printable(t)[k];
                assert(t.contains(c));
                let j = choose|j: int| 0 <= j < t.len() && t[j] == c;
                assert(s[j] == c);
                assert(printable(s)[k] == c);
            } else {
                assert(s[s.len() - 1] == printable(s)[k]);
            }
        }
    }
}

/// The number of a pixel format's four characters.
pub open spec fn code_named(s: Seq<char>) -> int {
    s[0] as int + 256 * (s[1] as int + 256 * (s[2] as int + 256 * s[3] as int))
}

/// The viewfinder's formats go by their names, opaque before transparent, red
/// in the low byte before blue, and packed colours before any other.
pub proof fn law_formats_go_by_name()
    ensures
        view_formats().len() == 6,
        view_formats()[0] == code_named("XB24"@),
        view_formats()[1] == code_named("AB24"@),
        view_formats()[2] == code_named("XR24"@),
        view_formats()[3] == code_named("AR24"@),
        view_formats()[4] == code_named("NV12"@),
        view_formats()[5] == code_named("YUYV"@),
{
    reveal_strlit("XB24");
    reveal_strlit("AB24");
    reveal_strlit("XR24");
    reveal_strlit("AR24");
    reveal_strlit("NV12");
    reveal_strlit("YUYV");
}

proof fn lemma_offered_found(offered: Seq<(u32, u64)>, code: u32)
    ensures
        0 <= offered_at(offered, code) <= offered.len(),
        offered_at(offered, code) < offered.len() ==> offered[offered_at(offered, code)] == (code, 0u64),
        forall|i: int| 0 <= i < offered_at(offered, code) ==> offered[i] != (code, 0u64),
    decreases offered.len(),
{
    if offered.len() > 0 && offered[0] != (code, 0u64) {
        let t = offered.drop_first();
        lemma_offered_found(t, code);
        assert forall|i: int| 0 <= i < offered_at(offered, code) implies offered[i] != (code, 0u64) by {
            if i > 0 {
                assert(t[i - 1] != (code, 0u64));
            }
        }
    }
}

/// What is picked is plain and wanted, and nothing plain that was offered is
/// wanted more, nor the same and offered before. Only where nothing wanted is
/// offered plain is nothing picked.
pub proof fn law_best_format_is_picked(wanted: Seq<u32>, offered: Seq<(u32, u64)>, i: int, r: int)
    requires
        0 <= i < offered.len(),
        0 <= r < wanted.len(),
        offered[i] == (wanted[r], 0u64),
    ensures
        picked(wanted, offered) matches Some(at) && {
            &&& 0 <= at < offered.len()
            &&& offered[at].1 == 0
            &&& exists|k: int| 0 <= k <= r && #[trigger] wanted[k] == offered[at].0
            &&& offered[at].0 == wanted[r] ==> at <= i
        },
    decreases wanted.len(),
{
    lemma_offered_found(offered, wanted[0]);
    let at = offered_at(offered, wanted[0]);
    if at < offered.len() {
        assert(wanted[0] == offered[at].0);
        if wanted[0] == wanted[r] && at > i {
            assert(offered[i] != (wanted[0], 0u64));
        }
    } else {
        if r == 0 {
            assert(offered[i] != (wanted[0], 0u64));
        }
        let t = wanted.drop_first();
        law_best_format_is_picked(t, offered, i, r - 1);
        let at = picked(wanted, offered)->0;
        let k = choose|k: int| 0 <= k <= r - 1 && #[trigger] t[k] == offered[at].0;
        assert(wanted[k + 1] == offered[at].0);
    }
}

/// The fastest frame comes from the first lower limit and the slowest from
/// the last upper one, whatever stands between, and both are positive.
pub proof fn law_durations_are_the_outer_limits(a: Number, low: Seq<Number>, high: Seq<Number>, b: Number)
    ensures
        a.rank() > 0 && b.rank() > 0 && !a.not_a_number() && !b.not_a_number() ==> durations(seq![a] + low, high.push(b)) == Some(
            (a, b),
        ),
        a.rank() <= 0 || b.rank() <= 0 || a.not_a_number() || b.not_a_number() ==> durations(seq![a] + low, high.push(b)) is None,
        durations(Seq::empty(), high) is None,
        durations(low, Seq::empty()) is None,
{
    assert(Number::of(0).bits == 0);
    assert((seq![a] + low)[0] == a);
    assert(high.push(b).last() == b);
}

/// A counter goes up by one, around its end.
pub proof fn law_counters_go_up(n: u32)
    ensures
        counted(n) as int == (n + 1) % 0x1_0000_0000,
{
}

/// A camera's caption and side say where it is mounted.
pub proof fn law_cameras_face_where_they_are_mounted(c: CameraInfo)
    ensures
        c.facing == facing_of(Some(Location::CameraFront)) <==> c.spec_caption() == Some("Front Camera"@),
        c.facing == facing_of(Some(Location::CameraBack)) <==> c.spec_caption() == Some("Back Camera"@),
        c.facing == facing_of(Some(Location::CameraExternal)) <==> c.spec_caption() is None,
        facing_of(None) == facing_of(Some(Location::CameraExternal)),
        facing_of(Some(Location::CameraFront)) == Facing::Front,
        facing_of(Some(Location::CameraBack)) == Facing::Back,
{
    reveal_strlit("Front Camera");
    reveal_strlit("Back Camera");
    assert("Front Camera"@.len() != "Back Camera"@.len());
}

/// A configuration that is not valid is never used; a raw stream must have
/// kept the size asked for, width and height.
pub proof fn law_configurations_keep_the_size(raw: bool, size: Mode, mode: Mode)
    ensures
        !usable(false, raw, Some(size), mode) && !usable(false, raw, None, mode),
        usable(true, false, Some(size), mode) && usable(true, false, None, mode),
        usable(true, true, Some(size), mode) <==> size.width == mode.width && size.height == mode.height,
        !usable(true, true, None, mode),
        !came_out(false, Some(size), mode) && !came_out(true, None, mode),
        came_out(true, Some(size), mode) <==> size.width == mode.width && size.height == mode.height,
{
}

} // verus!
