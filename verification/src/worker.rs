//! The capture worker: what each command and each completed request does to
//! the open session, and what has to be asked of the camera next.

use crate::camera::{Camera, CameraInfo, Cmd, Delivery, Frame, FrameSlot, Opened, Orientation, RawImage, Session, Still, counted, turn, upright_rotation};
use crate::modes::{Mode, has_mode, law_viewfinder_is_a_mode, serves, viewfinder_mode};
use crate::number::{Number, law_integers_survive};
use crate::settings::{
    ControlDesc, ControlList, ControlValue, Kind, Metadata, Rectangle, Typed, applied, append_settings, choose_setting, chosen,
    control_type, control_value, copied_controls, find_ending, find_id, find_named, first_ending, first_of_name, has_id, index_id,
    index_named, is_settled, lemma_first, lemma_index_id, reading, seed, seeded, settings, settled, tag_of, typed, value_ending,
    views,
};
use crate::text;
use std::collections::VecDeque;
use vstd::prelude::*;

verus! {

/// What a session is for.
#[derive(Debug, Clone, Copy, PartialEq, Eq, Structural)]
pub enum Purpose {
    /// A viewfinder for photos: the fastest mode of the photo's shape.
    Preview,
    /// One photo at the full photo mode, then back to the preview.
    Still,
    /// Viewfinder and recording at the chosen mode.
    Video,
}

/// The sizes a session asks the camera for.
#[derive(Debug, Clone, Copy, PartialEq, Eq, Structural)]
pub struct Plan {
    /// Photos (or video) of this size.
    pub photo: Option<Mode>,
    /// The viewfinder's mode.
    pub view: Option<Mode>,
    /// A raw stream beside the viewfinder.
    pub want_raw: bool,
}

/// The size asked for where the camera has it, else its first.
pub open spec fn photo_mode(modes: Seq<Mode>, mode: Option<Mode>) -> Option<Mode> {
    if mode is Some && modes.contains(mode->0) {
        mode
    } else if modes.len() > 0 {
        Some(modes[0])
    } else {
        None
    }
}

/// `p` is the plan of a session: a photo's size, the viewfinder's, which is
/// another in previews only, and whether a raw stream can be of use.
pub open spec fn plans(p: Plan, modes: Seq<Mode>, mode: Option<Mode>, purpose: Purpose) -> bool {
    &&& p.photo == photo_mode(modes, mode)
    &&& match p.photo {
        Some(photo) if purpose == Purpose::Preview => p.view matches Some(v) && serves(modes, photo, v),
        _ => p.view == p.photo,
    }
    &&& p.want_raw == (purpose != Purpose::Preview || p.view == p.photo)
}

/// Plan a session. A photo can come from any session but a preview whose
/// viewfinder runs another mode, and only where one can is a raw stream of
/// use.
pub fn plan(modes: &Vec<Mode>, mode: Option<Mode>, purpose: Purpose) -> (p: Plan)
    ensures
        plans(p, modes@, mode, purpose),
{
    let first: Option<Mode> = if modes.len() > 0 { Some(modes[0]) } else { None };
    let photo: Option<Mode> = match mode {
        Some(m) => if has_mode(modes, m) { Some(m) } else { first },
        None => first,
    };
    match photo {
        Some(p) => {
            let v: Mode = if purpose == Purpose::Preview { viewfinder_mode(modes.as_slice(), p) } else { p };
            Plan { photo, view: Some(v), want_raw: purpose != Purpose::Preview || v == p }
        },
        None => Plan { photo, view: None, want_raw: true },
    }
}

impl Plan {
    /// The size to try with a raw stream first.
    pub fn with_raw(&self) -> (m: Option<Mode>)
        ensures
            m == if self.want_raw {
                self.view
            } else {
                None
            },
    {
        if self.want_raw { self.view } else { None }
    }

    /// The size to try without a raw stream.
    pub fn without_raw(&self) -> (m: Mode)
        ensures
            m == match self.view {
                Some(v) => v,
                None => (Mode { width: 1280, height: 720 }),
            },
    {
        match self.view {
            Some(v) => v,
            None => Mode { width: 1280, height: 720 },
        }
    }
}

/// What came of configuring and starting the camera.
#[derive(Debug)]
pub struct Configured {
    pub orientation: Orientation,
    pub view_size: Mode,
    /// DRM fourcc of the viewfinder stream, 0 where it has none.
    pub fourcc: u32,
    /// There is a raw stream.
    pub raw: bool,
    pub raw_size: Option<Mode>,
    /// The camera has a raw role at all.
    pub raw_role: bool,
    /// The frame that focus windows are expressed in.
    pub crop_max: Option<Rectangle>,
    pub fps: Option<(Number, Number)>,
    /// The camera stack's type tags of the controls.
    pub types: Vec<(u32, u32)>,
    /// Requests queued.
    pub requests: usize,
}

impl Configured {
    /// What the sensor runs at.
    pub open spec fn running(self) -> Mode {
        match self.raw_size {
            Some(m) => m,
            None => self.view_size,
        }
    }
}

/// The session the interface is told of.
pub open spec fn session_of(
    index: usize,
    info: Camera,
    modes: Seq<Mode>,
    plan: Plan,
    controls: Seq<ControlDesc>,
    set: Configured,
) -> Opened {
    Opened {
        camera: index,
        info: Camera { rotation: ((360 - turn(set.orientation)) % 360) as i32, ..info },
        modes,
        mode: match plan.photo {
            Some(p) if !plan.want_raw => p,
            _ => set.running(),
        },
        view: set.view_size,
        fourcc: set.fourcc,
        controls: views(controls),
        raw: set.raw || (!plan.want_raw && set.raw_role),
        fps: set.fps,
        af_windows: set.crop_max is Some && index_named(controls, "AfWindows"@) < controls.len() && index_named(
            controls,
            "AfMetering"@,
        ) < controls.len(),
    }
}

/// A session that runs.
#[derive(Debug)]
pub struct Live {
    pub info: Session,
    /// There is a raw stream.
    pub raw: bool,
    pub types: Vec<(u32, u32)>,
    /// Values that go out with the next request.
    pub pending: ControlList,
    pub capture_next: bool,
    pub recording: bool,
    pub generation: u64,
    /// Nothing delivered yet in this session.
    pub first_frame: bool,
    /// When metadata was last sent, in nanoseconds.
    pub last_meta: u64,
    pub outstanding: usize,
    pub crop_max: Option<Rectangle>,
    pub purpose: Purpose,
    /// What the viewfinder stream runs at; `info.mode` is the photo size.
    pub view_mode: Mode,
    /// Every control the user set, in order, to carry across
    /// reconfigurations.
    pub user: Vec<(u32, Vec<Number>)>,
    /// The newest metadata sent to the interface.
    pub meta: Metadata,
    /// A still session waits for these exposure and gain before shooting.
    pub expect: (Option<Number>, Option<Number>),
    pub frames_seen: u32,
}

impl Live {
    /// Nothing has happened in this session yet.
    pub open spec fn untouched(self) -> bool {
        &&& self.pending@ == Map::<u32, Typed>::empty()
        &&& !self.capture_next
        &&& !self.recording
        &&& self.first_frame
        &&& self.meta@ == Map::<Seq<char>, Seq<Number>>::empty()
        &&& self.expect == (None::<Number>, None::<Number>)
        &&& self.frames_seen == 0
    }

    /// This is a session of this number and purpose, started now on a camera
    /// configured so, with these settings.
    pub open spec fn starts(
        self,
        purpose: Purpose,
        initial: Seq<(u32, Vec<Number>)>,
        set: Configured,
        generation: u64,
        now: u64,
    ) -> bool {
        &&& self.untouched()
        &&& self.raw == set.raw
        &&& self.types == set.types
        &&& self.generation == generation
        &&& self.last_meta == now
        &&& self.outstanding == set.requests
        &&& self.crop_max == set.crop_max
        &&& self.purpose == purpose
        &&& self.view_mode == set.running()
        &&& self.user@ == initial
    }

    /// A session on a camera that was configured by `plan` and started with
    /// the settings `initial`.
    pub fn open(
        index: usize,
        info: CameraInfo,
        modes: Vec<Mode>,
        plan: Plan,
        purpose: Purpose,
        initial: Vec<(u32, Vec<Number>)>,
        controls: Vec<ControlDesc>,
        set: Configured,
        generation: u64,
        now: u64,
    ) -> (live: Live)
        ensures
            live.starts(purpose, initial@, set, generation, now),
            live.info@ == session_of(index, info@, modes@, plan, controls@, set),
            live.info.controls == controls,
            live.user == initial,
    {
        let running: Mode = match set.raw_size {
            Some(m) => m,
            None => set.view_size,
        };
        let mode: Mode = match plan.photo {
            Some(p) => if !plan.want_raw { p } else { running },
            None => running,
        };
        let af_windows: bool = set.crop_max.is_some() && find_named(&controls, "AfWindows").is_some() && find_named(
            &controls,
            "AfMetering",
        ).is_some();
        let rotation: i32 = upright_rotation(set.orientation);
        let session = Session {
            camera: index,
            info: CameraInfo { id: info.id, model: info.model, facing: info.facing, rotation },
            modes,
            mode,
            view: set.view_size,
            fourcc: set.fourcc,
            controls,
            raw: set.raw || (!plan.want_raw && set.raw_role),
            fps: set.fps,
            af_windows,
        };
        Live {
            info: session,
            raw: set.raw,
            types: set.types,
            pending: ControlList::new(),
            capture_next: false,
            recording: false,
            generation,
            first_frame: true,
            last_meta: now,
            outstanding: set.requests,
            crop_max: set.crop_max,
            purpose,
            view_mode: running,
            user: initial,
            meta: Metadata::new(),
            expect: (None, None),
            frames_seen: 0,
        }
    }

    /// The session as the interface is told of it.
    pub fn announce(&self) -> (session: Session)
        ensures
            session@ == self.info@,
    {
        let modes: Vec<Mode> = vstd::slice::slice_to_vec(self.info.modes.as_slice());
        Session {
            camera: self.info.camera,
            info: self.info.info.copy(),
            modes,
            mode: self.info.mode,
            view: self.info.view,
            fourcc: self.info.fourcc,
            controls: copied_controls(&self.info.controls),
            raw: self.info.raw,
            fps: self.info.fps,
            af_windows: self.info.af_windows,
        }
    }

    /// What setting a control amounts to, where the camera has it and its
    /// values can be typed.
    pub open spec fn typed_for(self, id: u32, value: Seq<Number>) -> Option<Typed> {
        applied(self.info.controls@, self.types@, id, value)
    }

    /// `after` is this session once a control is set. Triggers are one-shot;
    /// everything else is a setting to carry over. A control the camera does
    /// not have, or whose values cannot be typed, changes nothing.
    pub open spec fn with_control(self, after: Live, id: u32, value: Seq<Number>) -> bool {
        match self.typed_for(id, value) {
            Some(v) => {
                &&& after == (Live { pending: after.pending, user: after.user, ..self })
                &&& after.pending@ == self.pending@.insert(id, v)
                &&& settings(after.user@) == if self.info.controls@[index_id(self.info.controls@, id)].name@
                    == "AfTrigger"@ {
                    settings(self.user@)
                } else {
                    chosen(settings(self.user@), id, value)
                }
            },
            None => after == self,
        }
    }

    /// Set a control.
    pub fn set_control(&mut self, id: u32, value: Vec<Number>)
        ensures
            old(self).with_control(*final(self), id, value@),
    {
        let at: usize = match find_id(&self.info.controls, id) {
            Some(at) => at,
            None => return,
        };
        let typed: ControlValue = match control_value(self.info.controls[at].kind, control_type(&self.types, id), &value) {
            Some(v) => v,
            None => return,
        };
        if !text::same(self.info.controls[at].name.as_str(), "AfTrigger") {
            choose_setting(&mut self.user, id, value);
        }
        self.pending.set(id, typed);
    }
}

/// Where a focus window of `size` around `at` starts, kept inside `whole`.
pub open spec fn window_start(at: int, size: int, whole: int) -> int {
    crate::number::clamped(at - size / 2, 0, whole - size)
}

/// The focus window around a point: an eighth of the frame each way, centred
/// on the point, kept inside.
pub open spec fn focus_window(max: Rectangle, x: int, y: int) -> Rectangle {
    let (w, h) = (max.width as int / 8, max.height as int / 8);
    Rectangle {
        x: (max.x + window_start(x, w, max.width as int)) as i32,
        y: (max.y + window_start(y, h, max.height as int)) as i32,
        width: w as u32,
        height: h as u32,
    }
}

/// A frame whose far corner has coordinates that fit.
pub open spec fn corner_fits(max: Rectangle) -> bool {
    &&& max.width - max.width as int / 8 <= i32::MAX
    &&& max.height - max.height as int / 8 <= i32::MAX
    &&& max.x + (max.width - max.width as int / 8) <= i32::MAX
    &&& max.y + (max.height - max.height as int / 8) <= i32::MAX
}

/// A focus window lies in the frame and covers the point it was asked for,
/// as far as the frame goes.
pub proof fn law_focus_window_covers_the_point(max: Rectangle, x: int, y: int)
    requires
        corner_fits(max),
        0 <= x <= max.width,
        0 <= y <= max.height,
    ensures
        max.x <= focus_window(max, x, y).x,
        focus_window(max, x, y).x + focus_window(max, x, y).width <= max.x + max.width,
        max.y <= focus_window(max, x, y).y,
        focus_window(max, x, y).y + focus_window(max, x, y).height <= max.y + max.height,
        focus_window(max, x, y).x <= max.x + x <= focus_window(max, x, y).x + focus_window(max, x, y).width + 1,
        focus_window(max, x, y).y <= max.y + y <= focus_window(max, x, y).y + focus_window(max, x, y).height + 1,
{
}

fn start_of(at: i64, size: u32, whole: u32) -> (start: i64)
    requires
        0 <= at <= whole,
        size <= whole,
    ensures
        start == window_start(at as int, size as int, whole as int),
{
    let wanted: i64 = at - size as i64 / 2;
    if wanted < 0 {
        0
    } else if wanted > (whole - size) as i64 {
        (whole - size) as i64
    } else {
        wanted
    }
}

impl Live {
    /// The controls and the mode that metering on a spot takes: the window
    /// control, the metering control and its value for windows.
    pub open spec fn metering(self) -> Option<(u32, u32, i32)> {
        let c = self.info.controls@;
        let (w, m) = (index_named(c, "AfWindows"@), index_named(c, "AfMetering"@));
        if self.crop_max is Some && w < c.len() && m < c.len() {
            match value_ending(c[m].enums@, "Windows"@) {
                Some(v) => Some((c[w].id, c[m].id, v)),
                None => None,
            }
        } else {
            None
        }
    }

    /// Meter autofocus around a point of the frame, in its pixels.
    pub fn focus_at(&mut self, x: i64, y: i64)
        requires
            old(self).crop_max matches Some(max) ==> {
                &&& corner_fits(max)
                &&& 0 <= x <= max.width
                &&& 0 <= y <= max.height
            },
        ensures
            *final(self) == (Live { pending: final(self).pending, ..*old(self) }),
            match old(self).metering() {
                Some((windows, metering, mode)) => final(self).pending@ == old(self).pending@.insert(
                    metering,
                    Typed::Int32(seq![mode]),
                ).insert(windows, Typed::Rectangle(seq![focus_window(old(self).crop_max->0, x as int, y as int)])),
                None => *final(self) == *old(self),
            },
    {
        let max: Rectangle = match self.crop_max {
            Some(max) => max,
            None => return,
        };
        let (windows, metering) = match (find_named(&self.info.controls, "AfWindows"), find_named(&self.info.controls, "AfMetering")) {
            (Some(w), Some(m)) => (w, m),
            _ => return,
        };
        let mode: i32 = match find_ending(&self.info.controls[metering].enums, "Windows") {
            Some(v) => v,
            None => return,
        };
        let (w, h) = (max.width / 8, max.height / 8);
        let rect = Rectangle {
            x: max.x + start_of(x, w, max.width) as i32,
            y: max.y + start_of(y, h, max.height) as i32,
            width: w,
            height: h,
        };
        let mut modes: Vec<i32> = Vec::new();
        modes.push(mode);
        let mut rects: Vec<Rectangle> = Vec::new();
        rects.push(rect);
        assert(modes@ =~= seq![mode]);
        assert(rects@ =~= seq![rect]);
        let (windows_id, metering_id) = (self.info.controls[windows].id, self.info.controls[metering].id);
        self.pending.set(metering_id, ControlValue::Int32(modes));
        self.pending.set(windows_id, ControlValue::Rectangle(rects));
    }

    /// Send a request back to the camera: what it carries is what was
    /// pending.
    pub fn requeue(&mut self) -> (carries: ControlList)
        ensures
            carries == old(self).pending,
            *final(self) == (Live { pending: final(self).pending, ..*old(self) }),
            final(self).pending@ == Map::<u32, Typed>::empty(),
    {
        let mut carries: ControlList = ControlList::new();
        core::mem::swap(&mut carries, &mut self.pending);
        carries
    }

    /// A request is gone for good.
    pub fn lost(&mut self)
        requires
            old(self).outstanding > 0,
        ensures
            *final(self) == (Live { outstanding: (old(self).outstanding - 1) as usize, ..*old(self) }),
    {
        self.outstanding = self.outstanding - 1;
    }
}

/// A raw plane of a completed request.
#[derive(Debug)]
pub struct RawBuffer<'a> {
    pub width: u32,
    pub height: u32,
    pub stride: u32,
    pub format: &'a str,
    /// Bytes the camera wrote, 0 where it does not say.
    pub used: usize,
    pub data: &'a [u8],
}

/// How much of a plane holds the image.
pub open spec fn used_length(used: usize, len: nat) -> int {
    if 0 < used < len {
        used as int
    } else {
        len as int
    }
}

/// `image` is what the plane holds.
pub open spec fn is_image_of(image: RawImage, b: RawBuffer) -> bool {
    &&& image.width == b.width
    &&& image.height == b.height
    &&& image.stride == b.stride
    &&& image.format@ == b.format@
    &&& image.data@ == b.data@.take(used_length(b.used, b.data@.len()))
}

fn raw_image(b: &RawBuffer) -> (image: RawImage)
    ensures
        is_image_of(image, *b),
{
    let len: usize = if b.used > 0 && b.used < b.data.len() { b.used } else { b.data.len() };
    RawImage {
        width: b.width,
        height: b.height,
        stride: b.stride,
        format: String::from_str(b.format),
        data: vstd::slice::slice_to_vec(vstd::slice::slice_subrange(b.data, 0, len)),
    }
}

/// The buffers of a completed request.
#[derive(Debug)]
pub struct Buffers<'a> {
    pub width: u32,
    pub height: u32,
    pub stride: u32,
    pub fourcc: u32,
    pub fd: i32,
    pub offset: u32,
    pub view: &'a [u8],
    /// The raw plane, where the request has one.
    pub raw: Option<RawBuffer<'a>>,
}

/// A request the camera is done with.
#[derive(Debug)]
pub struct Completed<'a> {
    pub request: u64,
    /// Not cancelled.
    pub complete: bool,
    pub metadata: Metadata,
    /// None where the stream or its buffer is not there any more.
    pub buffers: Option<Buffers<'a>>,
}

/// What becomes of a completed request.
#[derive(Debug)]
pub enum Fate {
    /// It goes back to the camera with these values.
    Requeue(ControlList),
    /// The interface holds it with the frame.
    Shown,
    /// It was cancelled and is dropped.
    Dropped,
}

/// What a completed request leads to, in this order: metadata, a photo, the
/// word that a frame waits.
#[derive(Debug)]
pub struct Outcome {
    pub metadata: Option<Metadata>,
    /// The viewfinder's bytes go to the recorder.
    pub record: bool,
    pub still: Option<Still>,
    pub frame_ready: bool,
    /// A frame that was replaced before the interface took it.
    pub stale: Option<Frame>,
    pub fate: Fate,
}

/// How often metadata is sent, in nanoseconds.
pub const META_PERIOD: u64 = 200_000_000;

impl Live {
    /// Metadata is due.
    pub open spec fn meta_due(self, now: u64) -> bool {
        now - self.last_meta > META_PERIOD
    }

    /// The frame of this request can be used: a still session waits for the
    /// exposure it holds.
    pub open spec fn usable(self, meta: Map<Seq<char>, Seq<Number>>) -> bool {
        self.purpose == Purpose::Still ==> is_settled(
            self.expect,
            reading(meta, "ExposureTime"@),
            reading(meta, "AnalogueGain"@),
            (self.frames_seen + 1) as u32,
        )
    }

    /// `still` is the photo of these buffers.
    pub open spec fn is_photo_of(self, still: Still, b: Buffers, meta: Map<Seq<char>, Seq<Number>>) -> bool {
        &&& still.width == b.width
        &&& still.height == b.height
        &&& still.stride == b.stride
        &&& still.fourcc == b.fourcc
        &&& still.rgba@ == b.view@
        &&& match (self.raw, b.raw) {
            (true, Some(r)) => still.raw matches Some(i) && is_image_of(i, r),
            _ => still.raw is None,
        }
        &&& still.metadata@ == meta
        &&& still.info@ == self.info.info@
        &&& still.zoom == Number::of(1)
    }

    /// `frame` shows these buffers.
    pub open spec fn is_frame_of(self, frame: Frame, b: Buffers, request: u64, copy: bool) -> bool {
        &&& frame.width == b.width
        &&& frame.height == b.height
        &&& frame.stride == b.stride
        &&& frame.fourcc == b.fourcc
        &&& frame.fd == b.fd
        &&& frame.offset == b.offset
        &&& if copy {
            &&& frame.bytes matches Some(v) && v@ == b.view@
            &&& frame.ret is None
        } else {
            &&& frame.bytes is None
            &&& frame.ret == Some((request, self.generation))
        }
    }

    fn photo(&self, b: &Buffers, meta: &Metadata) -> (still: Still)
        ensures
            self.is_photo_of(still, *b, meta@),
    {
        let raw: Option<RawImage> = match (&b.raw, self.raw) {
            (Some(r), true) => Some(raw_image(r)),
            _ => None,
        };
        Still {
            width: b.width,
            height: b.height,
            stride: b.stride,
            fourcc: b.fourcc,
            rgba: vstd::slice::slice_to_vec(b.view),
            raw,
            metadata: meta.copy(),
            info: self.info.info.copy(),
            zoom: Number::from_i64(1),
        }
    }

    /// What a completed request does to the session and to the slot, and what
    /// it leads to.
    pub open spec fn completes(
        self,
        after: Live,
        done: Completed,
        copy: bool,
        now: u64,
        slot: FrameSlot,
        new_slot: FrameSlot,
        out: Outcome,
    ) -> bool {
        let still = self.purpose == Purpose::Still;
        let due = done.complete && !still && self.meta_due(now);
        let used = done.complete && done.buffers is Some && self.usable(done.metadata@);
        let shown = used && !still;
        &&& after == (Live {
            pending: after.pending,
            meta: after.meta,
            outstanding: if done.complete {
                self.outstanding
            } else {
                (self.outstanding - 1) as usize
            },
            frames_seen: if done.complete && still {
                (self.frames_seen + 1) as u32
            } else {
                self.frames_seen
            },
            last_meta: if due {
                now
            } else {
                self.last_meta
            },
            capture_next: self.capture_next && !used,
            first_frame: self.first_frame && !used,
            ..self
        })
        &&& if due {
            &&& after.meta@ == done.metadata@
            &&& out.metadata matches Some(m) && m@ == done.metadata@
        } else {
            &&& after.meta == self.meta
            &&& out.metadata is None
        }
        &&& out.record == (used && self.recording)
        &&& if used && self.capture_next {
            out.still matches Some(s) && self.is_photo_of(s, done.buffers->0, done.metadata@)
        } else {
            out.still is None
        }
        &&& if shown {
            &&& new_slot.frame matches Some(f) && self.is_frame_of(f, done.buffers->0, done.request, copy)
            &&& out.frame_ready == (slot.frame is None)
            &&& out.stale == slot.frame
            &&& new_slot.replaced == if slot.frame is Some {
                counted(slot.replaced)
            } else {
                slot.replaced
            }
        } else {
            &&& new_slot == slot
            &&& !out.frame_ready
            &&& out.stale is None
        }
        &&& if !done.complete {
            &&& out.fate is Dropped
            &&& after.pending == self.pending
        } else if shown && !copy {
            &&& out.fate is Shown
            &&& after.pending == self.pending
        } else {
            &&& out.fate == Fate::Requeue(self.pending)
            &&& after.pending@ == Map::<u32, Typed>::empty()
        }
    }

    /// A request completed. `copy` asks for frames in memory of their own.
    pub fn completed(&mut self, done: Completed, copy: bool, now: u64, slot: &mut FrameSlot) -> (out: Outcome)
        requires
            old(self).outstanding > 0,
            old(self).frames_seen < u32::MAX,
        ensures
            old(self).completes(*final(self), done, copy, now, *old(slot), *final(slot), out),
    {
        let mut out: Outcome = Outcome {
            metadata: None,
            record: false,
            still: None,
            frame_ready: false,
            stale: None,
            fate: Fate::Dropped,
        };
        if !done.complete {
            self.lost();
            return out;
        }
        if self.purpose == Purpose::Still {
            self.frames_seen = self.frames_seen + 1;
            let (exposure, gain) = (done.metadata.get("ExposureTime"), done.metadata.get("AnalogueGain"));
            if !settled(self.expect, exposure, gain, self.frames_seen) {
                out.fate = Fate::Requeue(self.requeue());
                return out;
            }
        } else if now > self.last_meta && now - self.last_meta > META_PERIOD {
            self.last_meta = now;
            self.meta = done.metadata.copy();
            out.metadata = Some(self.meta.copy());
        }
        let b: Buffers = match done.buffers {
            Some(b) => b,
            None => {
                out.fate = Fate::Requeue(self.requeue());
                return out;
            },
        };
        out.record = self.recording;
        if self.capture_next {
            self.capture_next = false;
            out.still = Some(self.photo(&b, &done.metadata));
        }
        self.first_frame = false;
        if self.purpose == Purpose::Still {
            out.fate = Fate::Requeue(self.requeue());
            return out;
        }
        let frame: Frame = Frame {
            width: b.width,
            height: b.height,
            stride: b.stride,
            fourcc: b.fourcc,
            fd: b.fd,
            offset: b.offset,
            bytes: if copy { Some(vstd::slice::slice_to_vec(b.view)) } else { None },
            ret: if copy { None } else { Some((done.request, self.generation)) },
        };
        match slot.deliver(frame) {
            Delivery::Ready => {
                out.frame_ready = true;
            },
            Delivery::Replaced(stale) => {
                out.stale = Some(stale);
            },
        }
        out.fate = if copy { Fate::Requeue(self.requeue()) } else { Fate::Shown };
        out
    }
}

/// A message to the worker.
#[derive(Debug)]
pub enum Internal {
    Cmd(Cmd),
    /// The camera is done with a request.
    Done(u64),
    /// A request whose frame the interface let go of, tagged with the session
    /// it came from: one that outlives its session must not be requeued into
    /// the next one.
    Returned(u64, u64),
}

/// A session on its way out: the camera has stopped, and the requests still
/// held elsewhere are waited for, so that no buffer is freed under a texture.
#[derive(Debug)]
pub struct Closing {
    pub outstanding: usize,
    /// The commands that arrived meanwhile.
    pub deferred: VecDeque<Cmd>,
}

/// How long a closing session waits for its requests, in milliseconds.
pub const CLOSE_LIMIT: u64 = 800;

/// What a closing session does next.
#[derive(Debug, Clone, Copy, PartialEq, Eq, Structural)]
pub enum Wait {
    /// Every request is back.
    Over,
    /// Listen for a message, for so many milliseconds.
    Listen(u64),
    /// Some requests do not come back in time.
    GiveUp,
}

/// The wait for requests: until all are back, or until nothing arrives any
/// more once the limit is reached.
pub open spec fn close_step(outstanding: int, elapsed: int, silent: bool) -> Wait {
    if outstanding == 0 {
        Wait::Over
    } else if silent {
        Wait::GiveUp
    } else if elapsed < CLOSE_LIMIT {
        Wait::Listen((CLOSE_LIMIT - elapsed) as u64)
    } else {
        Wait::Listen(0)
    }
}

/// A closing session that still waits does so up to the limit and not beyond
/// it, and silence until then ends the wait. With every request back it is
/// over at any time.
pub proof fn law_close_waits_up_to_the_limit(outstanding: int, elapsed: int)
    requires
        0 <= outstanding,
        0 <= elapsed,
    ensures
        outstanding == 0 ==> forall|silent: bool| close_step(outstanding, elapsed, silent) == Wait::Over,
        outstanding > 0 ==> {
            &&& close_step(outstanding, elapsed, false) matches Wait::Listen(ms)
            &&& elapsed <= CLOSE_LIMIT ==> elapsed + ms == CLOSE_LIMIT
            &&& elapsed >= CLOSE_LIMIT ==> ms == 0
            &&& close_step(outstanding, elapsed + ms, true) == Wait::GiveUp
        },
{
}

/// A closing session after these messages.
pub open spec fn after_messages(outstanding: int, deferred: Seq<Cmd>, messages: Seq<Internal>) -> (int, Seq<Cmd>)
    decreases messages.len(),
{
    if messages.len() == 0 {
        (outstanding, deferred)
    } else {
        let (n, kept) = after_messages(outstanding, deferred, messages.drop_last());
        match messages.last() {
            Internal::Cmd(cmd) => (n, kept.push(cmd)),
            _ => (n - 1, kept),
        }
    }
}

/// The commands among messages, in their order.
pub open spec fn commands(messages: Seq<Internal>) -> Seq<Cmd>
    decreases messages.len(),
{
    if messages.len() == 0 {
        Seq::empty()
    } else {
        match messages.last() {
            Internal::Cmd(cmd) => commands(messages.drop_last()).push(cmd),
            _ => commands(messages.drop_last()),
        }
    }
}

/// Every command that arrives while a session closes is kept, in the order
/// they arrived in, and every other message brings one request back.
pub proof fn law_closing_keeps_commands(outstanding: int, messages: Seq<Internal>)
    ensures
        after_messages(outstanding, Seq::empty(), messages).1 == commands(messages),
        after_messages(outstanding, Seq::empty(), messages).0 == outstanding - (messages.len() - commands(messages).len()),
    decreases messages.len(),
{
    if messages.len() > 0 {
        law_closing_keeps_commands(outstanding, messages.drop_last());
    }
}

impl Closing {
    /// Begin to close. A frame waiting in the slot is one of the session's,
    /// and is let go of.
    pub fn new(live: &Live, slot: &mut FrameSlot) -> (r: (Closing, Option<Frame>))
        ensures
            r.0.outstanding == live.outstanding,
            r.0.deferred@ == Seq::<Cmd>::empty(),
            r.1 == old(slot).frame,
            *final(slot) == (FrameSlot { frame: None, replaced: old(slot).replaced }),
    {
        let waiting: Option<Frame> = slot.take_frame();
        (Closing { outstanding: live.outstanding, deferred: VecDeque::new() }, waiting)
    }

    /// What to do about the requests that are still out, after so many
    /// milliseconds. `silent` tells that nothing arrived the last time
    /// something was listened for.
    pub fn wait(&self, elapsed: u64, silent: bool) -> (w: Wait)
        ensures
            w == close_step(self.outstanding as int, elapsed as int, silent),
    {
        if self.outstanding == 0 {
            Wait::Over
        } else if silent {
            Wait::GiveUp
        } else if elapsed < CLOSE_LIMIT {
            Wait::Listen(CLOSE_LIMIT - elapsed)
        } else {
            Wait::Listen(0)
        }
    }

    /// A message arrived: a request comes home, a command is put off.
    pub fn receive(&mut self, message: Internal)
        requires
            old(self).outstanding > 0,
        ensures
            match message {
                Internal::Cmd(cmd) => {
                    &&& final(self).outstanding == old(self).outstanding
                    &&& final(self).deferred@ == old(self).deferred@.push(cmd)
                },
                _ => {
                    &&& final(self).outstanding == old(self).outstanding - 1
                    &&& final(self).deferred == old(self).deferred
                },
            },
            (final(self).outstanding as int, final(self).deferred@) == after_messages(
                old(self).outstanding as int,
                old(self).deferred@,
                seq![message],
            ),
    {
        proof {
            reveal_with_fuel(after_messages, 2);
            assert(seq![message].drop_last() =~= Seq::empty());
        }
        match message {
            Internal::Cmd(cmd) => {
                self.deferred.push_back(cmd);
            },
            _ => {
                self.outstanding = self.outstanding - 1;
            },
        }
    }
}

/// Why a session is opened, and so what follows once it runs or failed to.
#[derive(Debug)]
pub enum After {
    /// The interface asked for it and is told.
    Show,
    /// To take one photo, once the exposure shows; with these settings of the
    /// user's to go back to, at this size.
    Shoot { expect: (Option<Number>, Option<Number>), user: Vec<(u32, Vec<Number>)>, mode: Mode, info: CameraInfo },
    /// The photo is taken: the viewfinder again.
    Restore,
    /// The photo mode would not open: the viewfinder again.
    Recover,
}

/// A session to open.
#[derive(Debug)]
pub struct Reopen {
    /// The session to close first.
    pub closing: Option<Live>,
    /// The camera stays acquired: a new mode is a reconfigure.
    pub keep: bool,
    pub camera: usize,
    /// None where there is no such camera.
    pub info: Option<CameraInfo>,
    pub mode: Option<Mode>,
    pub purpose: Purpose,
    pub initial: Vec<(u32, Vec<Number>)>,
    pub after: After,
}

/// What the interface is told once a session was tried, and what to try next.
#[derive(Debug)]
pub struct Tried {
    pub opened: Option<Session>,
    pub error: Option<String>,
    pub next: Option<Reopen>,
}

/// The worker's state between messages.
#[derive(Debug)]
pub struct Worker {
    pub cameras: Vec<CameraInfo>,
    pub session: Option<Live>,
    pub copy_frames: bool,
    pub full_resolution: bool,
    /// Commands that arrived while a session was closing.
    pub backlog: VecDeque<Cmd>,
    /// The number of the next session.
    pub next_generation: u64,
}

/// The text of an error about a camera that is not there.
pub fn no_camera(index: usize) -> (e: String)
    ensures
        e@ == "no camera "@ + text::decimal(index as nat),
{
    let mut e: String = String::from_str("no camera ");
    text::push_decimal(&mut e, index as u64);
    e
}

/// A photo needs a session of its own: the viewfinder runs a smaller mode.
pub open spec fn needs_still(live: Live, full_resolution: bool) -> bool {
    full_resolution && live.purpose == Purpose::Preview && live.view_mode != live.info.mode
}

/// `r` closes the session `live` and takes one photo at its photo mode, with
/// the viewfinder's exposure, white balance and focus held manually on top of
/// the user's settings.
pub open spec fn shoots(r: Reopen, live: Live) -> bool {
    &&& r.closing == Some(live)
    &&& r.keep
    &&& r.camera == live.info.camera
    &&& r.info matches Some(i) && i@ == live.info.info@
    &&& r.mode == Some(live.info.mode)
    &&& r.purpose == Purpose::Still
    &&& settings(r.initial@) == settings(live.user@) + seeded(live.info.controls@, live.meta@)
    &&& r.after matches After::Shoot { expect, user, mode, info } && {
        &&& expect == (reading(live.meta@, "ExposureTime"@), reading(live.meta@, "AnalogueGain"@))
        &&& settings(user@) == settings(live.user@)
        &&& mode == live.info.mode
        &&& info@ == live.info.info@
    }
}

/// `r` goes back to the viewfinder after the photo, with the user's own
/// settings.
pub open spec fn restores(r: Reopen, live: Live) -> bool {
    &&& r.closing == Some(live)
    &&& r.keep
    &&& r.camera == live.info.camera
    &&& r.info matches Some(i) && i@ == live.info.info@
    &&& r.mode == Some(live.info.mode)
    &&& r.purpose == Purpose::Preview
    &&& settings(r.initial@) == settings(live.user@)
    &&& r.after is Restore
}

/// `r` opens the viewfinder again on the camera acquired anew, once the photo
/// mode would not open.
pub open spec fn falls_back(r: Reopen, camera: usize, user: Seq<(u32, Vec<Number>)>, mode: Mode, info: CameraInfo) -> bool {
    &&& r.closing is None
    &&& !r.keep
    &&& r.camera == camera
    &&& r.info == Some(info)
    &&& r.mode == Some(mode)
    &&& r.purpose == Purpose::Preview
    &&& r.initial@ == user
    &&& r.after is Recover
}

/// `live` is the session `opened` once it is put to the use `after` says.
pub open spec fn put_to_use(live: Live, opened: Live, after: After) -> bool {
    match after {
        After::Shoot { expect, user, .. } => live == (Live { capture_next: true, expect, user, ..opened }),
        _ => live == opened,
    }
}

/// What comes of a session that was tried: it runs and is put to use, and the
/// interface is told where it asked; or the error is told, and where the photo
/// mode would not open, the viewfinder is next.
pub open spec fn tries(
    before: Worker,
    now: Worker,
    camera: usize,
    after: After,
    result: Result<Live, String>,
    t: Tried,
) -> bool {
    match result {
        Ok(live) => {
            &&& now.session matches Some(s) && put_to_use(s, live, after)
            &&& now == (Worker { session: now.session, ..before })
            &&& t.error is None
            &&& t.next is None
            &&& if after is Show {
                t.opened matches Some(o) && o@ == live.info@
            } else {
                t.opened is None
            }
        },
        Err(e) => {
            &&& now == (Worker { session: None, ..before })
            &&& t.opened is None
            &&& t.error == if after is Recover {
                None
            } else {
                Some(e)
            }
            &&& match after {
                After::Shoot { expect, user, mode, info } => t.next matches Some(r) && falls_back(r, camera, user@, mode, info)
                    && r.initial == user,
                _ => t.next is None,
            }
        },
    }
}

/// What a request does that comes back from the interface: in the session it
/// came from it goes out again with what was pending, and in no other.
pub open spec fn takes_back(before: Worker, now: Worker, generation: u64, carries: Option<ControlList>) -> bool {
    match before.session {
        Some(live) if live.generation == generation => {
            &&& carries == Some(live.pending)
            &&& now.session matches Some(after) && after == (Live { pending: after.pending, ..live }) && after.pending@
                == Map::<u32, Typed>::empty()
            &&& now == (Worker { session: now.session, ..before })
        },
        _ => carries is None && now == before,
    }
}

/// `r` opens a camera in place of the session that runs; where that is on the
/// same camera, it stays acquired.
pub open spec fn opens(r: Reopen, w: Worker, camera: usize, mode: Option<Mode>, video: bool) -> bool {
    &&& r.closing == w.session
    &&& r.keep == (w.session matches Some(live) && live.info.camera == camera)
    &&& r.camera == camera
    &&& match r.info {
        Some(i) => camera < w.cameras@.len() && i@ == w.cameras@[camera as int]@,
        None => camera >= w.cameras@.len(),
    }
    &&& r.mode == mode
    &&& r.purpose == if video {
        Purpose::Video
    } else {
        Purpose::Preview
    }
    &&& r.initial@.len() == 0
    &&& r.after is Show
}

/// What asking for a photo does: the next frame is one, or, where the
/// viewfinder runs a smaller mode, a session of its own takes it.
pub open spec fn captures(before: Worker, after: Worker, r: Option<Reopen>) -> bool {
    match before.session {
        Some(live) if needs_still(live, before.full_resolution) => {
            &&& r matches Some(s) && shoots(s, live)
            &&& after == (Worker { session: None, ..before })
        },
        Some(live) => {
            &&& r is None
            &&& after == (Worker { session: Some(Live { capture_next: true, ..live }), ..before })
        },
        None => r is None && after == before,
    }
}

/// What a command leads to.
#[derive(Debug)]
pub enum Step {
    Nothing,
    Reopen(Reopen),
    /// Close this session.
    Close(Live),
    /// Work out the point in the pixels of this frame, and meter there.
    Focus(Rectangle, Number, Number),
}

/// What each command does to the worker, and asks for next.
pub open spec fn obeys(before: Worker, after: Worker, cmd: Cmd, step: Step) -> bool {
    match cmd {
        Cmd::Open { camera, mode, video } => {
            &&& step matches Step::Reopen(r) && opens(r, before, camera, mode, video)
            &&& after == (Worker { session: None, ..before })
        },
        Cmd::FullResolution(on) => step is Nothing && after == (Worker { full_resolution: on, ..before }),
        Cmd::CopyFrames(on) => step is Nothing && after == (Worker { copy_frames: on, ..before }),
        Cmd::SetControl { id, value } => {
            &&& step is Nothing
            &&& after == (Worker { session: after.session, ..before })
            &&& match before.session {
                Some(live) => after.session matches Some(l) && live.with_control(l, id, value@),
                None => after.session is None,
            }
        },
        Cmd::FocusAt(x, y) => {
            &&& after == before
            &&& match before.session {
                Some(live) if live.crop_max is Some => step == Step::Focus(live.crop_max->0, x, y),
                _ => step is Nothing,
            }
        },
        Cmd::Capture => match step {
            Step::Nothing => captures(before, after, None),
            Step::Reopen(r) => captures(before, after, Some(r)),
            _ => false,
        },
        Cmd::Record(on) => {
            &&& step is Nothing
            &&& after == match before.session {
                Some(live) => (Worker { session: Some(Live { recording: on, ..live }), ..before }),
                None => before,
            }
        },
        Cmd::Close => {
            &&& after == (Worker { session: None, ..before })
            &&& match before.session {
                Some(live) => step == Step::Close(live),
                None => step is Nothing,
            }
        },
    }
}

/// The number of the session after one of this number.
pub open spec fn next_number(n: u64) -> u64 {
    if n == u64::MAX {
        0
    } else {
        (n + 1) as u64
    }
}

/// The number of the session that is the `k`th after one of this number.
pub open spec fn number_after(n: u64, k: nat) -> u64
    decreases k,
{
    if k == 0 {
        n
    } else {
        next_number(number_after(n, (k - 1) as nat))
    }
}

impl Worker {
    pub fn new(cameras: Vec<CameraInfo>) -> (w: Worker)
        ensures
            w.cameras == cameras,
            w.session is None,
            !w.copy_frames,
            w.full_resolution,
            w.backlog@ == Seq::<Cmd>::empty(),
            w.next_generation == 1,
    {
        Worker {
            cameras,
            session: None,
            copy_frames: false,
            full_resolution: true,
            backlog: VecDeque::new(),
            next_generation: 1,
        }
    }

    /// The number of a session about to be opened.
    pub fn number(&mut self) -> (generation: u64)
        ensures
            generation == old(self).next_generation,
            *final(self) == (Worker { next_generation: next_number(generation), ..*old(self) }),
    {
        let n: u64 = self.next_generation;
        self.next_generation = n.wrapping_add(1);
        n
    }

    /// The oldest command that was put off; these come before new messages.
    pub fn next_deferred(&mut self) -> (cmd: Option<Cmd>)
        ensures
            *final(self) == (Worker { backlog: final(self).backlog, ..*old(self) }),
            match cmd {
                Some(c) => old(self).backlog@ == seq![c] + final(self).backlog@,
                None => old(self).backlog@.len() == 0 && final(self).backlog@ == old(self).backlog@,
            },
    {
        let cmd: Option<Cmd> = self.backlog.pop_front();
        proof {
            if cmd is Some {
                assert(old(self).backlog@ =~= seq![cmd->0] + self.backlog@);
            }
        }
        cmd
    }

    /// A session has closed: the commands it put off are next.
    pub fn closed(&mut self, closing: Closing)
        ensures
            *final(self) == (Worker { backlog: final(self).backlog, ..*old(self) }),
            final(self).backlog@ == old(self).backlog@ + closing.deferred@,
    {
        let mut deferred: VecDeque<Cmd> = closing.deferred;
        self.backlog.append(&mut deferred);
    }

    /// Open a camera, in place of the session that runs.
    pub fn open(&mut self, camera: usize, mode: Option<Mode>, video: bool) -> (r: Reopen)
        ensures
            *final(self) == (Worker { session: None, ..*old(self) }),
            opens(r, *old(self), camera, mode, video),
    {
        let closing: Option<Live> = self.session.take();
        let keep: bool = match &closing {
            Some(live) => live.info.camera == camera,
            None => false,
        };
        let info: Option<CameraInfo> = if camera < self.cameras.len() { Some(self.cameras[camera].copy()) } else { None };
        Reopen {
            closing,
            keep,
            camera,
            info,
            mode,
            purpose: if video { Purpose::Video } else { Purpose::Preview },
            initial: Vec::new(),
            after: After::Show,
        }
    }

    /// Take a photo: with the next frame, or, where the viewfinder runs a
    /// smaller mode, in a session of its own.
    pub fn capture(&mut self) -> (r: Option<Reopen>)
        ensures
            captures(*old(self), *final(self), r),
    {
        match self.session.take() {
            Some(live) => {
                if self.full_resolution && live.purpose == Purpose::Preview && live.view_mode != live.info.mode {
                    let mut user: Vec<(u32, Vec<Number>)> = Vec::new();
                    append_settings(&mut user, &live.user);
                    let mut initial: Vec<(u32, Vec<Number>)> = Vec::new();
                    append_settings(&mut initial, &live.user);
                    let held: Vec<(u32, Vec<Number>)> = seed(&live.info.controls, &live.meta);
                    append_settings(&mut initial, &held);
                    let expect: (Option<Number>, Option<Number>) = (
                        live.meta.get("ExposureTime"),
                        live.meta.get("AnalogueGain"),
                    );
                    let (camera, mode) = (live.info.camera, live.info.mode);
                    let (info, again) = (live.info.info.copy(), live.info.info.copy());
                    assert(settings(Seq::<(u32, Vec<Number>)>::empty()) =~= Seq::empty());
                    assert(settings(user@) =~= settings(live.user@));
                    assert(settings(initial@) =~= settings(live.user@) + seeded(live.info.controls@, live.meta@));
                    Some(
                        Reopen {
                            closing: Some(live),
                            keep: true,
                            camera,
                            info: Some(info),
                            mode: Some(mode),
                            purpose: Purpose::Still,
                            initial,
                            after: After::Shoot { expect, user, mode, info: again },
                        },
                    )
                } else {
                    let mut live = live;
                    live.capture_next = true;
                    self.session = Some(live);
                    None
                }
            },
            None => None,
        }
    }

    /// Once its photo is taken, a still session gives way to the viewfinder.
    pub fn after_photo(&mut self) -> (r: Option<Reopen>)
        ensures
            match old(self).session {
                Some(live) if live.purpose == Purpose::Still && !live.capture_next => {
                    &&& r matches Some(s) && restores(s, live)
                    &&& *final(self) == (Worker { session: None, ..*old(self) })
                },
                _ => r is None && *final(self) == *old(self),
            },
    {
        match self.session.take() {
            Some(live) => {
                if live.purpose == Purpose::Still && !live.capture_next {
                    let mut initial: Vec<(u32, Vec<Number>)> = Vec::new();
                    append_settings(&mut initial, &live.user);
                    assert(settings(Seq::<(u32, Vec<Number>)>::empty()) =~= Seq::empty());
                    assert(settings(initial@) =~= settings(live.user@));
                    let (camera, mode, info) = (live.info.camera, live.info.mode, live.info.info.copy());
                    Some(
                        Reopen {
                            closing: Some(live),
                            keep: true,
                            camera,
                            info: Some(info),
                            mode: Some(mode),
                            purpose: Purpose::Preview,
                            initial,
                            after: After::Restore,
                        },
                    )
                } else {
                    self.session = Some(live);
                    None
                }
            },
            None => None,
        }
    }

    /// A session was tried. Where the photo mode would not open, the
    /// viewfinder is tried again on the camera acquired anew.
    pub fn tried(&mut self, camera: usize, after: After, result: Result<Live, String>) -> (t: Tried)
        ensures
            tries(*old(self), *final(self), camera, after, result, t),
    {
        match result {
            Ok(live) => {
                let opened: Option<Session> = match &after {
                    After::Show => Some(live.announce()),
                    _ => None,
                };
                let mut live = live;
                match after {
                    After::Shoot { expect, user, .. } => {
                        live.capture_next = true;
                        live.expect = expect;
                        live.user = user;
                    },
                    _ => {},
                }
                self.session = Some(live);
                Tried { opened, error: None, next: None }
            },
            Err(e) => {
                self.session = None;
                match after {
                    After::Recover => Tried { opened: None, error: None, next: None },
                    After::Shoot { expect, user, mode, info } => Tried {
                        opened: None,
                        error: Some(e),
                        next: Some(
                            Reopen {
                                closing: None,
                                keep: false,
                                camera,
                                info: Some(info),
                                mode: Some(mode),
                                purpose: Purpose::Preview,
                                initial: user,
                                after: After::Recover,
                            },
                        ),
                    },
                    _ => Tried { opened: None, error: Some(e), next: None },
                }
            },
        }
    }

    /// Close the session that runs.
    pub fn close(&mut self) -> (live: Option<Live>)
        ensures
            live == old(self).session,
            *final(self) == (Worker { session: None, ..*old(self) }),
    {
        self.session.take()
    }

    /// Carry out a command.
    pub fn command(&mut self, cmd: Cmd) -> (step: Step)
        ensures
            obeys(*old(self), *final(self), cmd, step),
    {
        match cmd {
            Cmd::Open { camera, mode, video } => Step::Reopen(self.open(camera, mode, video)),
            Cmd::FullResolution(on) => {
                self.full_resolution = on;
                Step::Nothing
            },
            Cmd::CopyFrames(on) => {
                self.copy_frames = on;
                Step::Nothing
            },
            Cmd::SetControl { id, value } => {
                if let Some(live) = self.session.take() {
                    let mut live = live;
                    live.set_control(id, value);
                    self.session = Some(live);
                }
                Step::Nothing
            },
            Cmd::FocusAt(x, y) => match &self.session {
                Some(live) => match live.crop_max {
                    Some(max) => Step::Focus(max, x, y),
                    None => Step::Nothing,
                },
                None => Step::Nothing,
            },
            Cmd::Capture => match self.capture() {
                Some(r) => Step::Reopen(r),
                None => Step::Nothing,
            },
            Cmd::Record(on) => {
                if let Some(live) = self.session.take() {
                    let mut live = live;
                    live.recording = on;
                    self.session = Some(live);
                }
                Step::Nothing
            },
            Cmd::Close => match self.close() {
                Some(live) => Step::Close(live),
                None => Step::Nothing,
            },
        }
    }

    /// A request came back from the interface. Only the session it came from
    /// takes it.
    pub fn returned(&mut self, generation: u64) -> (carries: Option<ControlList>)
        ensures
            takes_back(*old(self), *final(self), generation, carries),
    {
        match self.session.take() {
            Some(live) => {
                let mut live = live;
                let mut carries: Option<ControlList> = None;
                if live.generation == generation {
                    carries = Some(live.requeue());
                }
                self.session = Some(live);
                carries
            },
            None => None,
        }
    }
}

impl Worker {
    /// A request completed; None where no session is open, and the request is
    /// dropped.
    pub fn done(&mut self, done: Completed, now: u64, slot: &mut FrameSlot) -> (out: Option<Outcome>)
        requires
            old(self).session matches Some(live) ==> live.outstanding > 0 && live.frames_seen < u32::MAX,
        ensures
            *final(self) == (Worker { session: final(self).session, ..*old(self) }),
            match old(self).session {
                None => out is None && final(self).session is None && *final(slot) == *old(slot),
                Some(live) => {
                    &&& out is Some
                    &&& final(self).session is Some
                    &&& live.completes(final(self).session->0, done, old(self).copy_frames, now, *old(slot), *final(slot), out->0)
                },
            },
    {
        match self.session.take() {
            None => None,
            Some(live) => {
                let mut live = live;
                let out: Outcome = live.completed(done, self.copy_frames, now, slot);
                self.session = Some(live);
                Some(out)
            },
        }
    }
}

/// A request that outlives its session finds no later session of the same
/// number to enter, as long as numbers do not come round.
pub proof fn law_numbers_stay_apart(n: u64, k: nat)
    requires
        0 < k <= u64::MAX,
    ensures
        number_after(n, k) != n,
        number_after(n, k) == if n + k <= u64::MAX {
            n + k
        } else {
            n + k - 0x1_0000_0000_0000_0000
        },
    decreases k,
{
    if k > 1 {
        law_numbers_stay_apart(n, (k - 1) as nat);
    } else {
        assert(number_after(n, 0) == n);
    }
}

/// A still session takes its photo with the eighth frame at the latest.
pub proof fn law_photo_within_patience(live: Live, meta: Map<Seq<char>, Seq<Number>>)
    requires
        live.frames_seen + 1 >= crate::settings::PATIENCE,
        live.frames_seen < u32::MAX,
    ensures
        live.usable(meta),
{
}

/// Completed requests leave the session what it is: its settings, its number
/// and what it was opened as.
pub proof fn law_requests_keep_the_session(
    before: Live,
    after: Live,
    done: Completed,
    copy: bool,
    now: u64,
    slot: FrameSlot,
    new_slot: FrameSlot,
    out: Outcome,
)
    requires
        before.completes(after, done, copy, now, slot, new_slot, out),
    ensures
        after.user == before.user,
        after.info == before.info,
        after.purpose == before.purpose,
        after.generation == before.generation,
        after.expect == before.expect,
{
}

/// Every request is accounted for: it is lost exactly where one less is out,
/// the interface gets it exactly where a frame carries it, and else it goes
/// back to the camera, with everything that was pending.
pub proof fn law_requests_are_accounted_for(
    before: Live,
    after: Live,
    done: Completed,
    copy: bool,
    now: u64,
    slot: FrameSlot,
    new_slot: FrameSlot,
    out: Outcome,
)
    requires
        before.outstanding > 0,
        before.completes(after, done, copy, now, slot, new_slot, out),
    ensures
        out.fate is Dropped <==> after.outstanding == before.outstanding - 1,
        out.fate is Shown ==> (new_slot.frame matches Some(f) && f.ret == Some((done.request, before.generation))),
        out.fate matches Fate::Requeue(c) ==> c == before.pending,
        out.fate !is Requeue ==> after.pending == before.pending,
{
}

/// The frames of a still session are never shown: the interface holds the
/// last viewfinder picture meanwhile.
pub proof fn law_still_sessions_show_nothing(
    before: Live,
    after: Live,
    done: Completed,
    copy: bool,
    now: u64,
    slot: FrameSlot,
    new_slot: FrameSlot,
    out: Outcome,
)
    requires
        before.purpose == Purpose::Still,
        before.completes(after, done, copy, now, slot, new_slot, out),
    ensures
        new_slot == slot,
        !out.frame_ready,
        out.metadata is None,
        out.fate !is Shown,
{
}

/// A photo in a session of its own leaves the user with what there was: the
/// viewfinder opens on the same camera with the user's settings, and not with
/// those that held the exposure.
///
/// `before` is the session the photo was asked of, `r` what closes it;
/// `still` the session that opened for it, `shot` that session in use, and
/// `taken` the same session when the photo is there; `back` is what leads to
/// the viewfinder.
pub proof fn law_photo_keeps_settings(before: Live, r: Reopen, still: Live, shot: Live, taken: Live, back: Reopen)
    requires
        shoots(r, before),
        still.info.camera == r.camera,
        put_to_use(shot, still, r.after),
        taken.user == shot.user,
        taken.info == shot.info,
        restores(back, taken),
    ensures
        back.camera == before.info.camera,
        back.mode == Some(still.info.mode),
        settings(back.initial@) == settings(before.user@),
        shot.capture_next,
        shot.expect == (reading(before.meta@, "ExposureTime"@), reading(before.meta@, "AnalogueGain"@)),
{
}

/// A session is planned for the size asked for, where the camera has it, or
/// its first; only a preview may run another for the viewfinder, and a raw
/// stream is asked for exactly where the viewfinder runs the photo's own.
pub proof fn law_plans_keep_the_size_asked_for(p: Plan, modes: Seq<Mode>, mode: Option<Mode>, purpose: Purpose)
    requires
        plans(p, modes, mode, purpose),
    ensures
        mode matches Some(m) ==> modes.contains(m) ==> p.photo == Some(m),
        modes.len() > 0 && !(mode is Some && modes.contains(mode->0)) ==> p.photo == Some(modes[0]),
        modes.len() == 0 ==> p.photo is None && p.view is None && p.want_raw,
        purpose == Purpose::Still || purpose == Purpose::Video ==> p.view == p.photo && p.want_raw,
        purpose == Purpose::Preview ==> (p.want_raw <==> p.view == p.photo),
        modes.len() > 0 ==> p.view is Some && p.photo is Some && modes.contains(p.photo->0) && modes.contains(p.view->0)
            && p.view->0.width <= p.photo->0.width,
{
    if modes.len() > 0 {
        assert(modes.contains(modes[0]));
        if purpose == Purpose::Preview {
            law_viewfinder_is_a_mode(modes, p.photo->0, p.view->0);
        }
    }
}

/// The interface is told of the camera it asked for, turned to undo the
/// buffers' turn; of the planned photo size where the viewfinder runs
/// another, else of what the sensor runs at; and that focus can be pointed
/// where the camera has a frame for it and both controls.
pub proof fn law_sessions_tell_what_runs(
    index: usize,
    info: Camera,
    modes: Seq<Mode>,
    plan: Plan,
    controls: Seq<ControlDesc>,
    set: Configured,
)
    ensures
        ({
            let s = session_of(index, info, modes, plan, controls, set);
            &&& s.camera == index && s.modes == modes && s.controls == views(controls) && s.fps == set.fps
            &&& s.info.id == info.id && s.info.model == info.model && s.info.facing == info.facing
            &&& 0 <= s.info.rotation < 360 && (s.info.rotation + turn(set.orientation)) % 360 == 0
            &&& s.view == set.view_size && s.fourcc == set.fourcc
            &&& plan.photo is Some && !plan.want_raw ==> Some(s.mode) == plan.photo
            &&& (plan.photo is None || plan.want_raw) && set.raw_size is Some ==> Some(s.mode) == set.raw_size
            &&& (plan.photo is None || plan.want_raw) && set.raw_size is None ==> s.mode == set.view_size
            &&& plan.want_raw ==> s.raw == set.raw
            &&& !plan.want_raw ==> s.raw == (set.raw || set.raw_role)
            &&& s.af_windows <==> {
                &&& set.crop_max is Some
                &&& has_name(controls, "AfWindows"@)
                &&& has_name(controls, "AfMetering"@)
            }
        }),
{
    lemma_has_name(controls, "AfWindows"@);
    lemma_has_name(controls, "AfMetering"@);
}

pub open spec fn has_name(controls: Seq<ControlDesc>, name: Seq<char>) -> bool {
    exists|j: int| 0 <= j < controls.len() && (#[trigger] controls[j]).name@ == name
}

proof fn lemma_has_name(controls: Seq<ControlDesc>, name: Seq<char>)
    ensures
        0 <= index_named(controls, name) <= controls.len(),
        index_named(controls, name) < controls.len() <==> has_name(controls, name),
    decreases controls.len(),
{
    if controls.len() > 0 {
        let t = controls.drop_first();
        lemma_has_name(t, name);
        if controls[0].name@ == name {
            assert(has_name(controls, name));
        } else if has_name(t, name) {
            let j = choose|j: int| 0 <= j < t.len() && (#[trigger] t[j]).name@ == name;
            assert(controls[j + 1].name@ == name);
        } else if has_name(controls, name) {
            let j = choose|j: int| 0 <= j < controls.len() && (#[trigger] controls[j]).name@ == name;
            assert(t[j - 1].name@ == name);
        }
    }
}

/// A session starts as it was configured, with the user's settings, and with
/// nothing pending, seen, recorded or asked for.
pub proof fn law_sessions_start_afresh(live: Live, purpose: Purpose, initial: Seq<(u32, Vec<Number>)>, set: Configured, generation: u64, now: u64)
    requires
        live.starts(purpose, initial, set, generation, now),
    ensures
        live.raw == set.raw && live.types == set.types && live.crop_max == set.crop_max,
        live.outstanding == set.requests && live.generation == generation && live.last_meta == now,
        live.purpose == purpose && live.user@ == initial,
        set.raw_size matches Some(m) ==> live.view_mode == m,
        set.raw_size is None ==> live.view_mode == set.view_size,
        live.pending@.dom().is_empty() && live.meta@.dom().is_empty(),
        !live.capture_next && !live.recording && live.first_frame && live.frames_seen == 0,
        live.expect.0 is None && live.expect.1 is None,
{
    assert(live.pending@.dom() =~= Set::empty());
    assert(live.meta@.dom() =~= Set::empty());
}

/// Setting a control puts its typed value among those that go out next and
/// leaves the others there; it is remembered last, unless it is a trigger;
/// and one the camera does not have changes nothing.
pub proof fn law_set_controls_go_out_next(before: Live, after: Live, k: int, value: Seq<Number>, other: u32)
    requires
        0 <= k < before.info.controls@.len(),
        forall|j: int| 0 <= j < k ==> (#[trigger] before.info.controls@[j]).id != before.info.controls@[k].id,
        before.info.controls@[k].kind != Kind::Other,
        before.with_control(after, before.info.controls@[k].id, value),
    ensures
        ({
            let c = before.info.controls@[k];
            &&& after.pending@.dom().contains(c.id)
            &&& typed(c.kind, tag_of(before.types@, c.id), value) == Some(after.pending@[c.id])
            &&& other != c.id ==> after.pending@.dom().contains(other) == before.pending@.dom().contains(other)
            &&& c.name@ == "AfTrigger"@ ==> settings(after.user@) == settings(before.user@)
            &&& c.name@ != "AfTrigger"@ ==> settings(after.user@).last() == (c.id, value)
            &&& after.info == before.info && after.capture_next == before.capture_next && after.generation == before.generation
        }),
{
    lemma_index_id(before.info.controls@, before.info.controls@[k].id, k);
}

/// A control the camera does not have, or that has no numbers, is not set.
pub proof fn law_unknown_controls_are_not_set(before: Live, after: Live, id: u32, value: Seq<Number>)
    requires
        before.with_control(after, id, value),
        !has_id(before.info.controls@, id),
    ensures
        after == before,
{
    lemma_index_id(before.info.controls@, id, before.info.controls@.len() as int);
}

/// A focus window is an eighth of the frame each way, and centred on its
/// point where it fits there.
pub proof fn law_focus_window_is_centred(max: Rectangle, x: int, y: int)
    requires
        corner_fits(max),
        0 <= x <= max.width,
        0 <= y <= max.height,
    ensures
        ({
            let r = focus_window(max, x, y);
            let (left, top) = (max.x + x - r.x, max.y + y - r.y);
            &&& 8 * r.width <= max.width < 8 * r.width + 8
            &&& 8 * r.height <= max.height < 8 * r.height + 8
            &&& max.x < r.x && r.x + r.width < max.x + max.width ==> 2 * left <= r.width <= 2 * left + 1
            &&& max.y < r.y && r.y + r.height < max.y + max.height ==> 2 * top <= r.height <= 2 * top + 1
        }),
{
}

/// Metering on a spot takes the window control, the metering control and that
/// one's label for windows.
pub proof fn law_metering_takes_both_controls(live: Live, w: int, m: int, l: int)
    requires
        live.crop_max is Some,
        first_of_name(live.info.controls@, w),
        first_of_name(live.info.controls@, m),
        live.info.controls@[w].name@ == "AfWindows"@,
        live.info.controls@[m].name@ == "AfMetering"@,
        first_ending(live.info.controls@[m].enums@, l, "Windows"@),
    ensures
        live.metering() == Some(
            (live.info.controls@[w].id, live.info.controls@[m].id, live.info.controls@[m].enums@[l].0),
        ),
{
    lemma_first(live.info.controls@, w, l, "AfWindows"@, "Windows"@, Seq::empty());
    lemma_first(live.info.controls@, m, l, "AfMetering"@, "Windows"@, Seq::empty());
}

/// A raw image is the plane's, as far as the camera wrote it, or all of it
/// where the camera does not say.
pub proof fn law_raw_images_end_where_written(image: RawImage, b: RawBuffer)
    requires
        is_image_of(image, b),
    ensures
        (image.width, image.height, image.stride) == (b.width, b.height, b.stride),
        image.format@ == b.format@,
        b.used == 0 || b.used >= b.data@.len() ==> image.data@ == b.data@,
        0 < b.used <= b.data@.len() ==> image.data@.len() == b.used && image.data@ == b.data@.take(b.used as int),
{
    assert(b.data@.take(b.data@.len() as int) =~= b.data@);
}

/// A photo is the viewfinder's picture as it stands in the buffer, with the
/// frame's own metadata, of the session's camera, not yet zoomed; and it
/// carries the raw image exactly where the session has a raw stream and the
/// request a raw plane. A frame tells where its picture is, and the request
/// it holds, or has a copy and holds none.
pub proof fn law_photos_and_frames_are_of_the_buffers(
    live: Live,
    still: Still,
    frame: Frame,
    b: Buffers,
    meta: Map<Seq<char>, Seq<Number>>,
    request: u64,
    copy: bool,
)
    ensures
        live.is_photo_of(still, b, meta) ==> {
            &&& (still.width, still.height, still.stride, still.fourcc) == (b.width, b.height, b.stride, b.fourcc)
            &&& still.rgba@ == b.view@
            &&& still.metadata@ == meta
            &&& still.info@ == live.info.info@
            &&& still.zoom.rounded() == 1
            &&& still.raw is Some <==> live.raw && b.raw is Some
            &&& live.raw && b.raw is Some ==> is_image_of(still.raw->0, b.raw->0)
        },
        live.is_frame_of(frame, b, request, copy) ==> {
            &&& (frame.width, frame.height, frame.stride, frame.fourcc) == (b.width, b.height, b.stride, b.fourcc)
            &&& frame.fd == b.fd && frame.offset == b.offset
            &&& copy ==> frame.ret is None && (frame.bytes matches Some(v) && v@ == b.view@)
            &&& !copy ==> frame.bytes is None && frame.ret == Some((request, live.generation))
        },
{
    law_integers_survive(1);
}

/// A photo that was asked for is taken from the first frame that can be used,
/// and the wish is then gone; a cancelled request, one without buffers, and
/// in a still session a frame of another exposure cannot be.
pub proof fn law_wanted_photos_are_taken(
    before: Live,
    after: Live,
    done: Completed,
    copy: bool,
    now: u64,
    slot: FrameSlot,
    new_slot: FrameSlot,
    out: Outcome,
)
    requires
        before.completes(after, done, copy, now, slot, new_slot, out),
        before.frames_seen < u32::MAX,
    ensures
        ({
            let meta = done.metadata@;
            let settled = is_settled(
                before.expect,
                reading(meta, "ExposureTime"@),
                reading(meta, "AnalogueGain"@),
                (before.frames_seen + 1) as u32,
            );
            let used = done.complete && done.buffers is Some && (settled || before.purpose != Purpose::Still);
            &&& out.still is Some <==> used && before.capture_next
            &&& out.still matches Some(s) ==> before.is_photo_of(s, done.buffers->0, meta)
            &&& after.capture_next <==> before.capture_next && !used
            &&& after.first_frame <==> before.first_frame && !used
            &&& out.record <==> used && before.recording
            &&& after.recording == before.recording
            &&& after.frames_seen == before.frames_seen + if done.complete && before.purpose == Purpose::Still {
                1int
            } else {
                0
            }
            &&& used && before.purpose != Purpose::Still ==> {
                &&& new_slot.frame matches Some(f) && before.is_frame_of(f, done.buffers->0, done.request, copy)
                &&& out.stale == slot.frame
                &&& out.frame_ready <==> slot.frame is None
            }
            &&& !used ==> new_slot == slot && out.fate !is Shown
            &&& out.fate is Shown <==> used && before.purpose != Purpose::Still && !copy
            &&& out.fate is Dropped <==> !done.complete
        }),
{
}

/// Metadata is sent, and remembered, more than a fifth of a second after the
/// last time, and not by still sessions.
pub proof fn law_metadata_is_sent_now_and_then(
    before: Live,
    after: Live,
    done: Completed,
    copy: bool,
    now: u64,
    slot: FrameSlot,
    new_slot: FrameSlot,
    out: Outcome,
)
    requires
        before.completes(after, done, copy, now, slot, new_slot, out),
    ensures
        out.metadata is Some <==> done.complete && before.purpose != Purpose::Still && now > before.last_meta + 200_000_000,
        out.metadata matches Some(m) ==> m@ == done.metadata@ && after.meta@ == done.metadata@ && after.last_meta == now,
        out.metadata is None ==> after.meta == before.meta && after.last_meta == before.last_meta,
{
}

/// A session for one photo closes the viewfinder's, on the camera that stays
/// acquired, at the photo size; it starts with the user's settings and then
/// what holds the exposure, waits for the exposure and gain last read, and
/// knows what to go back to.
pub proof fn law_shooting_holds_and_remembers(r: Reopen, live: Live)
    requires
        shoots(r, live),
    ensures
        r.closing == Some(live) && r.keep,
        r.camera == live.info.camera && r.mode == Some(live.info.mode) && r.purpose == Purpose::Still,
        r.info matches Some(i) && i@ == live.info.info@,
        settings(r.initial@).take(live.user@.len() as int) == settings(live.user@),
        settings(r.initial@).skip(live.user@.len() as int) == seeded(live.info.controls@, live.meta@),
        r.after matches After::Shoot { expect, user, mode, info } && {
            &&& expect.0 == reading(live.meta@, "ExposureTime"@) && expect.1 == reading(live.meta@, "AnalogueGain"@)
            &&& settings(user@) == settings(live.user@)
            &&& mode == live.info.mode && info@ == live.info.info@
        },
{
    let (u, s) = (settings(live.user@), seeded(live.info.controls@, live.meta@));
    assert((u + s).take(u.len() as int) =~= u);
    assert((u + s).skip(u.len() as int) =~= s);
}

/// After the photo the viewfinder opens again: a preview of the same camera
/// and size, with the user's settings and no others.
pub proof fn law_restoring_is_a_preview(r: Reopen, live: Live)
    requires
        restores(r, live),
    ensures
        r.closing == Some(live) && r.keep && r.purpose == Purpose::Preview && r.after is Restore,
        r.camera == live.info.camera && r.mode == Some(live.info.mode),
        r.info matches Some(i) && i@ == live.info.info@,
        settings(r.initial@) == settings(live.user@),
{
}

/// A photo mode that would not open leads to the viewfinder on the camera
/// acquired anew, at the photo's size and with the user's settings.
pub proof fn law_falling_back_is_a_preview(r: Reopen, camera: usize, user: Seq<(u32, Vec<Number>)>, mode: Mode, info: CameraInfo)
    requires
        falls_back(r, camera, user, mode, info),
    ensures
        r.closing is None && !r.keep && r.purpose == Purpose::Preview && r.after is Recover,
        r.camera == camera && r.mode == Some(mode) && r.info == Some(info) && r.initial@ == user,
{
}

/// A camera opens with no settings and in place of the session that runs; it
/// stays acquired exactly where that session was on it.
pub proof fn law_opening_replaces_the_session(r: Reopen, w: Worker, camera: usize, mode: Option<Mode>, video: bool)
    requires
        opens(r, w, camera, mode, video),
    ensures
        r.closing == w.session,
        r.camera == camera && r.mode == mode && r.initial@.len() == 0 && r.after is Show,
        w.session is None ==> !r.keep,
        w.session matches Some(live) ==> (r.keep <==> live.info.camera == camera),
        r.info is Some <==> camera < w.cameras@.len(),
        r.info matches Some(i) ==> i@ == w.cameras@[camera as int]@,
        video <==> r.purpose == Purpose::Video,
        !video <==> r.purpose == Purpose::Preview,
{
}

/// Commands touch what they are about and nothing else of the worker.
pub proof fn law_commands_touch_one_thing(before: Worker, after: Worker, cmd: Cmd, step: Step)
    requires
        obeys(before, after, cmd, step),
    ensures
        after.cameras == before.cameras && after.backlog == before.backlog && after.next_generation == before.next_generation,
        cmd !is FullResolution ==> after.full_resolution == before.full_resolution,
        cmd !is CopyFrames ==> after.copy_frames == before.copy_frames,
        cmd matches Cmd::FullResolution(on) ==> after.full_resolution == on && after.session == before.session,
        cmd matches Cmd::CopyFrames(on) ==> after.copy_frames == on && after.session == before.session,
        cmd matches Cmd::Record(on) ==> (before.session matches Some(a) ==> after.session == Some(Live { recording: on, ..a })),
        cmd is Open || cmd is Close ==> after.session is None,
        cmd is Close ==> (before.session matches Some(a) ==> step == Step::Close(a)),
        cmd matches Cmd::FocusAt(x, y) ==> after == before && (step matches Step::Focus(max, at, down) ==> {
            &&& before.session matches Some(a) && a.crop_max == Some(max)
            &&& at == x && down == y
        }),
        before.session is None && cmd !is Open ==> after.session is None && step is Nothing,
        step is Reopen ==> cmd is Open || cmd is Capture,
{
}

/// A photo is the next frame of the session that runs, except where photos
/// are to be in full resolution and the viewfinder runs another mode: then a
/// session of its own takes it.
pub proof fn law_photos_come_from_the_right_session(before: Worker, after: Worker, r: Option<Reopen>, live: Live)
    requires
        captures(before, after, r),
        before.session == Some(live),
    ensures
        r is Some <==> before.full_resolution && live.purpose == Purpose::Preview && (live.view_mode.width != live.info.mode.width
            || live.view_mode.height != live.info.mode.height),
        r is None ==> after.session == Some(Live { capture_next: true, ..live }),
        r matches Some(s) ==> after.session is None && shoots(s, live),
{
}

/// Closing begins with nothing kept, and a session of no requests is over.
pub proof fn law_nothing_out_is_over(deferred: Seq<Cmd>, elapsed: int)
    ensures
        after_messages(0, deferred, Seq::empty()) == (0int, deferred),
        close_step(0, elapsed, false) == Wait::Over,
        0 <= elapsed <= 800 ==> close_step(1, elapsed, false) == Wait::Listen((800 - elapsed) as u64),
{
}

/// A request goes out again exactly in the session it came from, with what
/// was pending there, which then is not pending any more.
pub proof fn law_requests_return_to_their_session(before: Worker, now: Worker, generation: u64, carries: Option<ControlList>)
    requires
        takes_back(before, now, generation, carries),
    ensures
        before.session is None ==> carries is None && now == before,
        before.session matches Some(live) ==> {
            &&& carries is Some <==> live.generation == generation
            &&& live.generation != generation ==> now == before
            &&& carries matches Some(list) ==> {
                &&& list@ == live.pending@
                &&& now.session matches Some(a) && a.pending@.dom().is_empty() && a.outstanding == live.outstanding && a.user
                    == live.user && a.info == live.info
            }
        },
        now.backlog == before.backlog && now.full_resolution == before.full_resolution,
{
    if let Some(a) = now.session {
        if carries is Some {
            assert(a.pending@.dom() =~= Set::empty());
        }
    }
}

/// Errors of a session are told, but for those of a second try at the
/// viewfinder; only the interface's own sessions are announced; and a photo
/// session shoots, with the exposure to wait for and the user's settings,
/// while any other stays as it opened.
pub proof fn law_tried_sessions_run_or_say_why(
    before: Worker,
    now: Worker,
    camera: usize,
    after: After,
    result: Result<Live, String>,
    t: Tried,
)
    requires
        tries(before, now, camera, after, result, t),
    ensures
        result is Ok <==> now.session is Some,
        result is Ok ==> t.error is None && t.next is None,
        t.opened is Some <==> result is Ok && after is Show,
        t.error is Some <==> result is Err && after !is Recover,
        result matches Err(e) ==> (t.error matches Some(told) ==> told == e),
        t.next is Some <==> result is Err && after is Shoot,
        result matches Ok(live) ==> match after {
            After::Shoot { expect, user, mode, info } => {
                &&& now.session->0.capture_next
                &&& now.session->0.expect == expect && now.session->0.user == user
                &&& now.session->0.info == live.info && now.session->0.generation == live.generation
            },
            _ => now.session->0 == live,
        },
        now.cameras == before.cameras && now.backlog == before.backlog && now.next_generation == before.next_generation,
{
}

} // verus!
