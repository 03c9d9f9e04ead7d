//! Video recording: which encoder and microphone to use, the size to encode,
//! and the pipeline that frames are pushed into.

use crate::camera;
use crate::device;
use crate::text;
use vstd::prelude::*;

verus! {

/// An encoder element, with the parser that follows it.
#[derive(Debug, Clone, Copy)]
pub struct Encoder {
    pub element: &'static str,
    pub parser: &'static str,
    pub properties: &'static str,
}

/// How many encoders there are to try.
pub const CANDIDATES: usize = 7;

/// The encoders to try. Hardware first.
pub open spec fn candidate_names() -> Seq<(Seq<char>, Seq<char>, Seq<char>)> {
    seq![
        ("v4l2h264enc"@, "h264parse"@, ""@),
        ("vah264lpenc"@, "h264parse"@, ""@),
        ("vah264enc"@, "h264parse"@, ""@),
        ("v4l2h265enc"@, "h265parse"@, ""@),
        ("vah265enc"@, "h265parse"@, ""@),
        ("x264enc"@, "h264parse"@, "speed-preset=ultrafast tune=zerolatency bitrate=12000"@),
        ("openh264enc"@, "h264parse"@, "bitrate=12000000"@),
    ]
}

pub fn candidate(i: usize) -> (e: Encoder)
    requires
        i < CANDIDATES,
    ensures
        (e.element@, e.parser@, e.properties@) == candidate_names()[i as int],
{
    if i == 0 {
        Encoder { element: "v4l2h264enc", parser: "h264parse", properties: "" }
    } else if i == 1 {
        Encoder { element: "vah264lpenc", parser: "h264parse", properties: "" }
    } else if i == 2 {
        Encoder { element: "vah264enc", parser: "h264parse", properties: "" }
    } else if i == 3 {
        Encoder { element: "v4l2h265enc", parser: "h265parse", properties: "" }
    } else if i == 4 {
        Encoder { element: "vah265enc", parser: "h265parse", properties: "" }
    } else if i == 5 {
        Encoder {
            element: "x264enc",
            parser: "h264parse",
            properties: "speed-preset=ultrafast tune=zerolatency bitrate=12000",
        }
    } else {
        Encoder { element: "openh264enc", parser: "h264parse", properties: "bitrate=12000000" }
    }
}

/// The media framework is set up on first use, off the startup path: whether
/// that is now.
pub fn gst(started: &mut bool) -> (now: bool)
    ensures
        now == !*old(started),
        *final(started),
{
    let now: bool = !*started;
    *started = true;
    now
}

/// What to do next in a search for the first thing that works.
#[derive(Debug, Clone, Copy, PartialEq, Eq, Structural)]
pub enum Search {
    /// Try this one.
    Try(usize),
    /// This one works.
    Found(usize),
    /// None of them does.
    Exhausted,
}

/// Where the first success is, or the length.
pub open spec fn first_success(tried: Seq<bool>) -> int
    decreases tried.len(),
{
    if tried.len() == 0 || tried[0] {
        0
    } else {
        1 + first_success(tried.drop_first())
    }
}

proof fn lemma_first_success(tried: Seq<bool>, n: int)
    requires
        0 <= n <= tried.len(),
        forall|i: int| 0 <= i < n ==> !tried[i],
        n == tried.len() || tried[n],
    ensures
        first_success(tried) == n,
    decreases tried.len(),
{
    if n > 0 {
        lemma_first_success(tried.drop_first(), n - 1);
    }
}

/// The search among `count` things, of which some were tried in order: the
/// first that works is taken, and nothing is tried after it.
pub open spec fn search_step(tried: Seq<bool>, count: int) -> Search {
    if first_success(tried) < tried.len() {
        Search::Found(first_success(tried) as usize)
    } else if tried.len() < count {
        Search::Try(tried.len() as usize)
    } else {
        Search::Exhausted
    }
}

fn search(tried: &Vec<bool>, count: usize) -> (s: Search)
    ensures
        s == search_step(tried@, count as int),
{
    let mut i: usize = 0;
    while i < tried.len() && !tried[i]
        invariant
            i <= tried@.len(),
            forall|j: int| 0 <= j < i ==> !tried@[j],
        decreases tried@.len() - i,
    {
        i = i + 1;
    }
    proof {
        lemma_first_success(tried@, i as int);
    }
    if i < tried.len() {
        Search::Found(i)
    } else if tried.len() < count {
        Search::Try(tried.len())
    } else {
        Search::Exhausted
    }
}

/// The encoder a search ended with; None while it goes on.
pub open spec fn pick_of(s: Search) -> Option<Option<usize>> {
    match s {
        Search::Try(_) => None,
        Search::Found(i) => Some(Some(i)),
        Search::Exhausted => Some(None),
    }
}

/// The search for an encoder: one that ended stays with its pick.
pub open spec fn encoder_step(kept: Option<Option<usize>>, tried: Seq<bool>) -> Search {
    match kept {
        Some(Some(i)) => Search::Found(i),
        Some(None) => Search::Exhausted,
        None => search_step(tried, CANDIDATES as int),
    }
}

/// Which encoder to probe next, or to use. An encoder that registers is not
/// one that works, so each is probed with a short real encode, once: `kept`
/// is what the search ended with, and `tried` what came of the probes so far.
pub fn encoder(kept: &mut Option<Option<usize>>, tried: &Vec<bool>) -> (s: Search)
    ensures
        s == encoder_step(*old(kept), tried@),
        *final(kept) == pick_of(s),
{
    match *kept {
        Some(Some(i)) => Search::Found(i),
        Some(None) => Search::Exhausted,
        None => {
            let s: Search = search(tried, CANDIDATES);
            *kept = match s {
                Search::Try(_) => None,
                Search::Found(i) => Some(Some(i)),
                Search::Exhausted => Some(None),
            };
            s
        },
    }
}

/// Once an encoder is picked, or none is found, every later search gives the
/// same and probes nothing.
pub proof fn law_pick_is_kept(kept: Option<Option<usize>>, tried: Seq<bool>, later: Seq<bool>)
    requires
        pick_of(encoder_step(kept, tried)) is Some,
    ensures
        encoder_step(pick_of(encoder_step(kept, tried)), later) == encoder_step(kept, tried),
        encoder_step(pick_of(encoder_step(kept, tried)), later) !is Try,
{
}

/// The audio sources to try.
pub open spec fn source_names() -> Seq<Seq<char>> {
    seq!["pulsesrc"@, "pipewiresrc"@]
}

/// How many audio sources there are to try.
pub const SOURCES: usize = 2;

pub fn source(i: usize) -> (name: &'static str)
    requires
        i < SOURCES,
    ensures
        name@ == source_names()[i as int],
{
    if i == 0 {
        "pulsesrc"
    } else {
        "pipewiresrc"
    }
}

/// Which audio source to open next, or to use: the first that can actually
/// open a device. A session with no sound server records silent video.
pub fn audio_source(tried: &Vec<bool>) -> (s: Search)
    ensures
        s == search_step(tried@, SOURCES as int),
{
    search(tried, SOURCES)
}

/// A search that goes on as told ends: with the first that works, or with
/// none after all were tried.
pub proof fn law_search_finds_the_first(tried: Seq<bool>, count: int, works: bool)
    requires
        0 <= tried.len() < count <= usize::MAX,
        first_success(tried) == tried.len(),
    ensures
        search_step(tried, count) == Search::Try(tried.len() as usize),
        works ==> search_step(tried.push(works), count) == Search::Found(tried.len() as usize),
        !works && tried.len() + 1 == count ==> search_step(tried.push(works), count) == Search::Exhausted,
        !works && tried.len() + 1 < count ==> search_step(tried.push(works), count) == Search::Try(
            (tried.len() + 1) as usize,
        ),
{
    assert forall|i: int| 0 <= i < tried.len() implies !tried[i] by {
        lemma_no_success(tried, i);
    }
    lemma_first_success(
        tried.push(works),
        if works {
            tried.len() as int
        } else {
            tried.len() as int + 1
        },
    );
}

proof fn lemma_no_success(tried: Seq<bool>, i: int)
    requires
        0 <= i < tried.len(),
        first_success(tried) == tried.len(),
    ensures
        !tried[i],
    decreases tried.len(),
{
    if i > 0 {
        lemma_no_success(tried.drop_first(), i - 1);
    }
}

/// A short encode that shows whether an encoder works.
pub open spec fn probe_text(element: Seq<char>, parser: Seq<char>, properties: Seq<char>) -> Seq<char> {
    "videotestsrc num-buffers=3 ! video/x-raw,format=NV12,width=640,height=480,framerate=30/1 ! "@ + element + " "@
        + properties + " ! "@ + parser + " ! fakesink"@
}

pub fn probe(e: &Encoder) -> (s: String)
    ensures
        s@ == probe_text(e.element@, e.parser@, e.properties@),
{
    let mut s: String = String::from_str(
        "videotestsrc num-buffers=3 ! video/x-raw,format=NV12,width=640,height=480,framerate=30/1 ! ",
    );
    s.append(e.element);
    s.append(" ");
    s.append(e.properties);
    s.append(" ! ");
    s.append(e.parser);
    s.append(" ! fakesink");
    s
}

/// A stream covers a size that is no larger than it either way.
pub open spec fn covers(width: int, height: int, w: int, h: int) -> bool {
    w <= width && h <= height
}

pub open spec fn encoded(width: int, height: int) -> (int, int) {
    if covers(width, height, 3840, 2160) {
        (3840, 2160)
    } else if covers(width, height, 1920, 1080) {
        (1920, 1080)
    } else if covers(width, height, 1280, 720) {
        (1280, 720)
    } else {
        (width - width % 16, height - height % 16)
    }
}

/// The frame size to encode: the largest standard 16:9 size the stream
/// covers, centre-cropped (4K from 4024x2268, 1080p from 2012x1132), else the
/// stream aligned down to 16 -- hardware encoders reject odd sizes, and
/// cameras hand out sizes like 4024x2268.
pub fn encode_size(width: u32, height: u32) -> (size: (u32, u32))
    ensures
        (size.0 as int, size.1 as int) == encoded(width as int, height as int),
        size.0 <= width,
        size.1 <= height,
{
    if width >= 3840 && height >= 2160 {
        return (3840, 2160);
    }
    if width >= 1920 && height >= 1080 {
        return (1920, 1080);
    }
    if width >= 1280 && height >= 720 {
        return (1280, 720);
    }
    (width - width % 16, height - height % 16)
}

/// The encoded frame lies in the stream, and is even both ways, as encoders
/// demand.
pub proof fn law_encoded_frame_fits(width: int, height: int)
    requires
        0 <= width,
        0 <= height,
    ensures
        0 <= encoded(width, height).0 <= width,
        0 <= encoded(width, height).1 <= height,
        encoded(width, height).0 % 2 == 0,
        encoded(width, height).1 % 2 == 0,
{
}

/// The media framework's name of a pixel format that can be recorded.
pub open spec fn format_name(fourcc: u32) -> Option<Seq<char>> {
    if fourcc == 0x3432_4258 {
        Some("RGBx"@)
    } else if fourcc == 0x3432_4241 {
        Some("RGBA"@)
    } else if fourcc == 0x3432_5258 {
        Some("BGRx"@)
    } else if fourcc == 0x3432_5241 {
        Some("BGRA"@)
    } else if fourcc == 0x3231_564e {
        Some("NV12"@)
    } else if fourcc == 0x5659_5559 {
        Some("YUY2"@)
    } else {
        None
    }
}

pub fn gst_format(fourcc: u32) -> (name: Option<&'static str>)
    ensures
        match name {
            Some(n) => format_name(fourcc) == Some(n@),
            None => format_name(fourcc) is None,
        },
{
    if fourcc == camera::fourcc([0x58, 0x42, 0x32, 0x34]) {
        Some("RGBx")
    } else if fourcc == camera::fourcc([0x41, 0x42, 0x32, 0x34]) {
        Some("RGBA")
    } else if fourcc == camera::fourcc([0x58, 0x52, 0x32, 0x34]) {
        Some("BGRx")
    } else if fourcc == camera::fourcc([0x41, 0x52, 0x32, 0x34]) {
        Some("BGRA")
    } else if fourcc == camera::fourcc([0x4e, 0x56, 0x31, 0x32]) {
        Some("NV12")
    } else if fourcc == camera::fourcc([0x59, 0x55, 0x59, 0x56]) {
        Some("YUY2")
    } else {
        None
    }
}

/// The name of a recording made at this time of day.
pub fn file_stem(stamp: &str) -> (s: String)
    ensures
        s@ == "VID_"@ + stamp@,
{
    let mut s: String = String::from_str("VID_");
    s.append(stamp);
    s
}

/// What is cut off around the encoded frame.
#[derive(Debug, Clone, Copy, PartialEq, Eq, Structural)]
pub struct Crop {
    pub left: u32,
    pub right: u32,
    pub top: u32,
    pub bottom: u32,
}

/// Centre the encoded frame in the stream.
pub open spec fn centred(width: int, height: int) -> Crop {
    let (x, y) = (width - encoded(width, height).0, height - encoded(width, height).1);
    Crop { left: (x / 2) as u32, right: (x - x / 2) as u32, top: (y / 2) as u32, bottom: (y - y / 2) as u32 }
}

pub fn crop(width: u32, height: u32) -> (c: Crop)
    ensures
        c == centred(width as int, height as int),
{
    let (ew, eh) = encode_size(width, height);
    let (x, y) = (width - ew, height - eh);
    Crop { left: x / 2, right: x - x / 2, top: y / 2, bottom: y - y / 2 }
}

/// What is cut off and what is encoded make up the stream, the same on both
/// sides but for an odd pixel.
pub proof fn law_crop_leaves_the_frame(width: u32, height: u32)
    ensures
        ({
            let (c, e) = (centred(width as int, height as int), encoded(width as int, height as int));
            &&& c.left + e.0 + c.right == width
            &&& c.top + e.1 + c.bottom == height
            &&& c.left <= c.right <= c.left + 1
            &&& c.top <= c.bottom <= c.top + 1
        }),
{
}

/// The microphone's part of a recording.
pub open spec fn audio_text(source: Option<Seq<char>>) -> Seq<char> {
    match source {
        Some(s) => " "@ + s + " ! queue ! audioconvert ! audioresample ! opusenc ! queue ! mux."@,
        None => Seq::empty(),
    }
}

/// A recording, as the media framework builds it: frames in, cropped,
/// converted, encoded, put in a container with the sound.
pub open spec fn recording_text(
    c: Crop,
    element: Seq<char>,
    parser: Seq<char>,
    properties: Seq<char>,
    path: Seq<char>,
    source: Option<Seq<char>>,
) -> Seq<char> {
    "appsrc name=src is-live=true do-timestamp=true format=time max-buffers=3 leaky-type=downstream "@
        + "! queue max-size-buffers=3 leaky=downstream ! videocrop left="@ + text::decimal(c.left as nat) + " right="@
        + text::decimal(c.right as nat) + " top="@ + text::decimal(c.top as nat) + " bottom="@ + text::decimal(
        c.bottom as nat,
    ) + " ! videoconvert n-threads=4 ! video/x-raw,format=NV12 ! "@ + element + " "@ + properties + " ! "@ + parser
        + " ! queue ! mp4mux name=mux ! filesink location=\""@ + path + "\""@ + audio_text(source)
}

pub fn recording(c: &Crop, e: &Encoder, path: &str, source: Option<&str>) -> (s: String)
    ensures
        s@ == recording_text(
            *c,
            e.element@,
            e.parser@,
            e.properties@,
            path@,
            match source {
                Some(a) => Some(a@),
                None => None,
            },
        ),
{
    let mut s: String = String::from_str(
        "appsrc name=src is-live=true do-timestamp=true format=time max-buffers=3 leaky-type=downstream ",
    );
    s.append("! queue max-size-buffers=3 leaky=downstream ! videocrop left=");
    text::push_decimal(&mut s, c.left as u64);
    s.append(" right=");
    text::push_decimal(&mut s, c.right as u64);
    s.append(" top=");
    text::push_decimal(&mut s, c.top as u64);
    s.append(" bottom=");
    text::push_decimal(&mut s, c.bottom as u64);
    s.append(" ! videoconvert n-threads=4 ! video/x-raw,format=NV12 ! ");
    s.append(e.element);
    s.append(" ");
    s.append(e.properties);
    s.append(" ! ");
    s.append(e.parser);
    s.append(" ! queue ! mp4mux name=mux ! filesink location=\"");
    s.append(path);
    s.append("\"");
    let ghost video = s@;
    if let Some(a) = source {
        let mut sound: String = String::from_str(" ");
        sound.append(a);
        sound.append(" ! queue ! audioconvert ! audioresample ! opusenc ! queue ! mux.");
        s.append(sound.as_str());
    } else {
        assert(video + Seq::<char>::empty() =~= video);
    }
    s
}

/// Why a recording cannot start.
#[derive(Debug, Clone, Copy, PartialEq, Eq, Structural)]
pub enum RecordError {
    NoEncoder,
    Format,
}

impl RecordError {
    pub fn message(&self) -> (s: &'static str)
        ensures
            s@ == match *self {
                RecordError::NoEncoder => "no working video encoder"@,
                RecordError::Format => "viewfinder format cannot be recorded"@,
            },
    {
        match self {
            RecordError::NoEncoder => "no working video encoder",
            RecordError::Format => "viewfinder format cannot be recorded",
        }
    }
}

/// What a recording is made of.
#[derive(Debug)]
pub struct Recorder {
    pub encoder: Encoder,
    pub format: &'static str,
    pub width: u32,
    pub height: u32,
    pub crop: Crop,
    pub pushed: u64,
    pub dropped: u64,
}

/// The layout of a frame's planes.
#[derive(Debug)]
pub struct Planes {
    pub offsets: Vec<usize>,
    pub strides: Vec<i32>,
}

impl Recorder {
    /// Prepare a recording of a stream of this size and format, with the
    /// encoder that the search found.
    pub fn start(width: u32, height: u32, fourcc: u32, found: Option<Encoder>) -> (r: Result<Recorder, RecordError>)
        ensures
            match r {
                Ok(rec) => {
                    &&& found == Some(rec.encoder)
                    &&& format_name(fourcc) == Some(rec.format@)
                    &&& rec.width == width
                    &&& rec.height == height
                    &&& rec.crop == centred(width as int, height as int)
                    &&& rec.pushed == 0
                    &&& rec.dropped == 0
                },
                Err(RecordError::NoEncoder) => found is None,
                Err(RecordError::Format) => found is Some && format_name(fourcc) is None,
            },
    {
        let encoder: Encoder = match found {
            Some(e) => e,
            None => return Err(RecordError::NoEncoder),
        };
        let format: &'static str = match gst_format(fourcc) {
            Some(f) => f,
            None => return Err(RecordError::Format),
        };
        Ok(Recorder { encoder, format, width, height, crop: crop(width, height), pushed: 0, dropped: 0 })
    }

    /// Where the planes of a frame of this stride stand: two of them, the
    /// second after all rows of the first, where colour has a plane of its
    /// own.
    pub fn planes(&self, stride: u32) -> (p: Planes)
        requires
            self.format@ == "NV12"@ ==> stride * self.height <= u32::MAX,
        ensures
            self.format@ == "NV12"@ ==> p.strides@ == seq![stride as i32, stride as i32] && p.offsets@ == seq![
                0usize,
                (stride * self.height) as usize,
            ],
            self.format@ != "NV12"@ ==> p.strides@ == seq![stride as i32] && p.offsets@ == seq![0usize],
    {
        let mut offsets: Vec<usize> = Vec::new();
        let mut strides: Vec<i32> = Vec::new();
        offsets.push(0);
        strides.push(stride as i32);
        if text::same(self.format, "NV12") {
            offsets.push((stride * self.height) as usize);
            strides.push(stride as i32);
        }
        Planes { offsets, strides }
    }

    /// Count a frame that was pushed, or that the pipeline would not take.
    pub fn count(&mut self, taken: bool)
        ensures
            *final(self) == (Recorder {
                pushed: if taken {
                    old(self).pushed.wrapping_add(1)
                } else {
                    old(self).pushed
                },
                dropped: if taken {
                    old(self).dropped
                } else {
                    old(self).dropped.wrapping_add(1)
                },
                ..*old(self)
            }),
    {
        if taken {
            self.pushed = self.pushed.wrapping_add(1);
        } else {
            self.dropped = self.dropped.wrapping_add(1);
        }
    }
}

/// How a pipeline ended.
#[derive(Debug)]
pub enum Ending {
    Done,
    Failed(String),
    /// It did not, in time.
    Late,
}

/// What comes of a recording that was told to stop.
pub fn stop(ending: Ending) -> (r: Result<(), String>)
    ensures
        match (ending, r) {
            (Ending::Done, r) => r is Ok,
            (Ending::Failed(e), r) => r == Err::<(), String>(e),
            (Ending::Late, r) => r matches Err(e) && e@ == "recording did not finish"@,
        },
{
    match ending {
        Ending::Done => Ok(()),
        Ending::Failed(e) => Err(e),
        Ending::Late => Err(String::from_str("recording did not finish")),
    }
}

/// The tag that says how players turn the picture: rotation goes in the
/// container, like phone cameras do it.
pub open spec fn rotation_name(rotation: int) -> Seq<char> {
    if rotation % 360 == 90 {
        "rotate-90"@
    } else if rotation % 360 == 180 {
        "rotate-180"@
    } else if rotation % 360 == 270 {
        "rotate-270"@
    } else {
        "rotate-0"@
    }
}

pub fn rotation_tag(rotation: i32) -> (name: &'static str)
    ensures
        name@ == rotation_name(rotation as int),
{
    let turn: i32 = device::turned(rotation as i64);
    if turn == 90 {
        "rotate-90"
    } else if turn == 180 {
        "rotate-180"
    } else if turn == 270 {
        "rotate-270"
    } else {
        "rotate-0"
    }
}

/// A recording's clock, in minutes and seconds.
pub open spec fn clock_text(seconds: nat) -> Seq<char> {
    text::decimal(seconds / 60) + ":"@ + seq![text::digit((seconds % 60 / 10) as int), text::digit((seconds % 10) as int)]
}

pub fn clock(seconds: u64) -> (s: String)
    ensures
        s@ == clock_text(seconds as nat),
{
    let mut s: String = String::new();
    text::push_decimal(&mut s, seconds / 60);
    s.append(":");
    let (tens, ones) = ((seconds % 60 / 10) as u8, (seconds % 60 % 10) as u8);
    s.push((48 + tens) as char);
    s.push((48 + ones) as char);
    assert(s@ =~= clock_text(seconds as nat));
    s
}

/// The encoded frame is no smaller either way than any standard size that
/// fits into the stream, and is one of these where any does. A stream of a
/// standard size is encoded whole. Where none fits, less than 16 pixels are
/// lost each way, to a multiple of 16.
pub proof fn law_encodes_the_largest_standard_size(width: int, height: int, w: int, h: int)
    requires
        0 <= width,
        0 <= height,
        (w, h) == (3840int, 2160int) || (w, h) == (1920int, 1080int) || (w, h) == (1280int, 720int),
    ensures
        ({
            let (a, b) = encoded(width, height);
            &&& w <= width && h <= height ==> w <= a && h <= b
            &&& (w, h) == (width, height) ==> (a, b) == (width, height)
            &&& width >= 1280 && height >= 720 ==> a * 9 == b * 16 && (a == 3840 || a == 1920 || a == 1280)
            &&& width < 1280 || height < 720 ==> a % 16 == 0 && b % 16 == 0 && width - a < 16 && height - b < 16
        }),
{
}

/// Reading a recording's clock back gives its seconds: the minutes stand
/// before the colon, and two digits of seconds, below a minute, after it.
pub proof fn law_clock_reads_back(seconds: nat)
    ensures
        ({
            let c = clock_text(seconds);
            let n = c.len() as int;
            &&& n >= 4
            &&& c[n - 3] == ':'
            &&& text::all_digits(c.take(n - 3)) && text::all_digits(c.skip(n - 2))
            &&& 60 * text::natural(c.take(n - 3)) + text::natural(c.skip(n - 2)) == seconds
            &&& text::natural(c.skip(n - 2)) < 60
        }),
{
    let c = clock_text(seconds);
    let n = c.len() as int;
    let m = text::decimal(seconds / 60);
    text::law_decimal_reads_back(seconds / 60);
    reveal_strlit(":");
    assert(c.take(n - 3) =~= m);
    let s = c.skip(n - 2);
    let (tens, ones) = ((seconds % 60 / 10) as int, (seconds % 10) as int);
    assert(s =~= seq![text::digit(tens), text::digit(ones)]);
    assert(s.drop_last() =~= seq![text::digit(tens)]);
    assert(s.drop_last().drop_last().len() == 0);
    assert(text::natural(s.drop_last().drop_last()) == 0);
    assert(text::natural(s.drop_last()) == tens);
    assert(text::natural(s) == 10 * tens + ones);
    assert(seconds % 60 % 10 == seconds % 10);
}

/// Encoders of the newer codec are followed by its parser and all others by
/// that of the older one, and only those in software, which come last, are
/// told how to encode.
pub proof fn law_parsers_fit_their_encoders(i: int)
    requires
        0 <= i < CANDIDATES,
    ensures
        candidate_names().len() == CANDIDATES,
        ({
            let (element, parser, properties) = candidate_names()[i];
            &&& parser == "h265parse"@ <==> element == "v4l2h265enc"@ || element == "vah265enc"@
            &&& parser == "h264parse"@ || parser == "h265parse"@
            &&& properties.len() > 0 <==> i >= 5
            &&& element == "x264enc"@ || element == "openh264enc"@ <==> i >= 5
        }),
{
    reveal_strlit("v4l2h264enc");
    reveal_strlit("vah264lpenc");
    reveal_strlit("vah264enc");
    reveal_strlit("v4l2h265enc");
    reveal_strlit("vah265enc");
    reveal_strlit("x264enc");
    reveal_strlit("openh264enc");
    reveal_strlit("h264parse");
    reveal_strlit("h265parse");
    reveal_strlit("");
    reveal_strlit("speed-preset=ultrafast tune=zerolatency bitrate=12000");
    reveal_strlit("bitrate=12000000");
    assert("h264parse"@[3] == '4' && "h265parse"@[3] == '5');
    let names = seq![
        "v4l2h264enc"@,
        "vah264lpenc"@,
        "vah264enc"@,
        "v4l2h265enc"@,
        "vah265enc"@,
        "x264enc"@,
        "openh264enc"@,
    ];
    assert(names[0].len() == 11 && names[1].len() == 11 && names[2].len() == 9 && names[3].len() == 11);
    assert(names[4].len() == 9 && names[5].len() == 7 && names[6].len() == 11);
    assert(names[0][7] == '4' && names[3][7] == '5' && names[1][0] == 'v' && names[1][1] == 'a' && names[3][1] == '4');
    assert(names[2][5] == '4' && names[4][5] == '5' && names[6][0] == 'o' && names[3][0] == 'v' && names[0][0] == 'v');
}

/// Pictures and recordings know a pixel format by the same name, and
/// recordings take all that pictures do.
pub proof fn law_formats_are_named_as_in_pictures(fourcc: u32)
    ensures
        crate::photo::format_name(fourcc) is Some ==> format_name(fourcc) == crate::photo::format_name(fourcc),
{
}

/// The container's turn is the one the picture needs.
pub proof fn law_rotation_names_tell_turns(rotation: int)
    ensures
        rotation % 90 == 0 ==> rotation_name(rotation) == "rotate-"@ + text::decimal((rotation % 360) as nat),
        rotation % 90 != 0 ==> rotation_name(rotation) == "rotate-0"@,
{
    reveal_strlit("rotate-");
    reveal_strlit("rotate-0");
    reveal_strlit("rotate-90");
    reveal_strlit("rotate-180");
    reveal_strlit("rotate-270");
    reveal_with_fuel(text::decimal, 3);
    assert("rotate-0"@ =~= "rotate-"@ + text::decimal(0));
    assert("rotate-90"@ =~= "rotate-"@ + text::decimal(90));
    assert("rotate-180"@ =~= "rotate-"@ + text::decimal(180));
    assert("rotate-270"@ =~= "rotate-"@ + text::decimal(270));
}

proof fn lemma_part(a: Seq<char>, x: Seq<char>, b: Seq<char>)
    ensures
        text::contained(a + x, x),
        text::contained(a, x) ==> text::contained(a + b, x),
{
    assert((a + x).subrange(a.len() as int, a.len() as int + x.len()) =~= x);
    assert(text::holds_at(a + x, a.len() as int, x));
    if text::contained(a, x) {
        let at = choose|at: int| text::holds_at(a, at, x);
        assert((a + b).subrange(at, at + x.len()) =~= a.subrange(at, at + x.len()));
        assert(text::holds_at(a + b, at, x));
    }
}

proof fn lemma_joins(a: Seq<char>, b: Seq<char>, c: Seq<char>)
    ensures
        a + (b + c) == a + b + c,
{
    assert(a + (b + c) =~= a + b + c);
}

/// A recording is cropped by each side's own number.
pub proof fn law_recordings_crop_each_side(
    c: Crop,
    element: Seq<char>,
    parser: Seq<char>,
    properties: Seq<char>,
    path: Seq<char>,
    source: Option<Seq<char>>,
)
    ensures
        text::contained(
            recording_text(c, element, parser, properties, path, source),
            "! queue max-size-buffers=3 leaky=downstream ! videocrop left="@ + text::decimal(c.left as nat) + " right="@ + text::decimal(
                c.right as nat,
            ) + " top="@ + text::decimal(c.top as nat) + " bottom="@ + text::decimal(c.bottom as nat),
        ),
{
    let first = "appsrc name=src is-live=true do-timestamp=true format=time max-buffers=3 leaky-type=downstream "@;
    let head = "! queue max-size-buffers=3 leaky=downstream ! videocrop left="@;
    let (l, r) = (text::decimal(c.left as nat), text::decimal(c.right as nat));
    let (t, b) = (text::decimal(c.top as nat), text::decimal(c.bottom as nat));
    let x1 = head + l;
    let x2 = x1 + " right="@;
    let x3 = x2 + r;
    let x4 = x3 + " top="@;
    let x5 = x4 + t;
    let x6 = x5 + " bottom="@;
    let x7 = x6 + b;
    lemma_joins(first, head, l);
    lemma_joins(first, x1, " right="@);
    lemma_joins(first, x2, r);
    lemma_joins(first, x3, " top="@);
    lemma_joins(first, x4, t);
    lemma_joins(first, x5, " bottom="@);
    lemma_joins(first, x6, b);
    let y0 = first + x7;
    let y1 = y0 + " ! videoconvert n-threads=4 ! video/x-raw,format=NV12 ! "@;
    let y2 = y1 + element;
    let y3 = y2 + " "@;
    let y4 = y3 + properties;
    let y5 = y4 + " ! "@;
    let y6 = y5 + parser;
    let y7 = y6 + " ! queue ! mp4mux name=mux ! filesink location=\""@;
    let y8 = y7 + path;
    let y9 = y8 + "\""@;
    lemma_part(first, x7, Seq::empty());
    lemma_part(y0, x7, " ! videoconvert n-threads=4 ! video/x-raw,format=NV12 ! "@);
    lemma_part(y1, x7, element);
    lemma_part(y2, x7, " "@);
    lemma_part(y3, x7, properties);
    lemma_part(y4, x7, " ! "@);
    lemma_part(y5, x7, parser);
    lemma_part(y6, x7, " ! queue ! mp4mux name=mux ! filesink location=\""@);
    lemma_part(y7, x7, path);
    lemma_part(y8, x7, "\""@);
    lemma_part(y9, x7, audio_text(source));
    assert(recording_text(c, element, parser, properties, path, source) == y9 + audio_text(source));
}

/// A recording's encoder comes with its own properties, then its parser, then
/// the file, then the sound.
pub proof fn law_recordings_encode_then_parse(
    c: Crop,
    element: Seq<char>,
    parser: Seq<char>,
    properties: Seq<char>,
    path: Seq<char>,
    source: Option<Seq<char>>,
)
    ensures
        text::contained(
            recording_text(c, element, parser, properties, path, source),
            " ! videoconvert n-threads=4 ! video/x-raw,format=NV12 ! "@ + element + " "@ + properties + " ! "@ + parser
                + " ! queue ! mp4mux name=mux ! filesink location=\""@ + path + "\""@ + audio_text(source),
        ),
        source matches Some(s) ==> audio_text(source) == " "@ + s + " ! queue ! audioconvert ! audioresample ! opusenc ! queue ! mux."@,
        source is None ==> audio_text(source).len() == 0,
{
    let first = "appsrc name=src is-live=true do-timestamp=true format=time max-buffers=3 leaky-type=downstream "@
        + "! queue max-size-buffers=3 leaky=downstream ! videocrop left="@ + text::decimal(c.left as nat) + " right="@
        + text::decimal(c.right as nat) + " top="@ + text::decimal(c.top as nat) + " bottom="@ + text::decimal(c.bottom as nat);
    let x0 = " ! videoconvert n-threads=4 ! video/x-raw,format=NV12 ! "@;
    let x1 = x0 + element;
    let x2 = x1 + " "@;
    let x3 = x2 + properties;
    let x4 = x3 + " ! "@;
    let x5 = x4 + parser;
    let x6 = x5 + " ! queue ! mp4mux name=mux ! filesink location=\""@;
    let x7 = x6 + path;
    let x8 = x7 + "\""@;
    let x9 = x8 + audio_text(source);
    lemma_joins(first, x0, element);
    lemma_joins(first, x1, " "@);
    lemma_joins(first, x2, properties);
    lemma_joins(first, x3, " ! "@);
    lemma_joins(first, x4, parser);
    lemma_joins(first, x5, " ! queue ! mp4mux name=mux ! filesink location=\""@);
    lemma_joins(first, x6, path);
    lemma_joins(first, x7, "\""@);
    lemma_joins(first, x8, audio_text(source));
    lemma_part(first, x9, Seq::empty());
    assert(recording_text(c, element, parser, properties, path, source) == first + x9);
}

/// An encoder is probed as it is used: with its own properties, then its
/// parser.
pub proof fn law_encoders_are_probed_as_used(element: Seq<char>, parser: Seq<char>, properties: Seq<char>)
    ensures
        text::contained(probe_text(element, parser, properties), element + " "@ + properties + " ! "@ + parser),
{
    let first = "videotestsrc num-buffers=3 ! video/x-raw,format=NV12,width=640,height=480,framerate=30/1 ! "@;
    let x1 = element + " "@;
    let x2 = x1 + properties;
    let x3 = x2 + " ! "@;
    let x4 = x3 + parser;
    lemma_joins(first, element, " "@);
    lemma_joins(first, x1, properties);
    lemma_joins(first, x2, " ! "@);
    lemma_joins(first, x3, parser);
    lemma_part(first, x4, Seq::empty());
    lemma_part(first + x4, x4, " ! fakesink"@);
    assert(probe_text(element, parser, properties) == first + x4 + " ! fakesink"@);
}

/// A stream can be recorded in exactly the formats a viewfinder takes, under
/// the media framework's names for them.
pub proof fn law_viewfinder_formats_can_be_recorded(fourcc: u32)
    ensures
        format_name(fourcc) is Some <==> crate::camera::view_formats().contains(fourcc),
        fourcc == crate::camera::code_named("NV12"@) ==> format_name(fourcc) == Some("NV12"@),
        fourcc == crate::camera::code_named("YUYV"@) ==> format_name(fourcc) == Some("YUY2"@),
        fourcc == crate::camera::code_named("XB24"@) ==> format_name(fourcc) == Some("RGBx"@),
        fourcc == crate::camera::code_named("AB24"@) ==> format_name(fourcc) == Some("RGBA"@),
        fourcc == crate::camera::code_named("XR24"@) ==> format_name(fourcc) == Some("BGRx"@),
        fourcc == crate::camera::code_named("AR24"@) ==> format_name(fourcc) == Some("BGRA"@),
{
    crate::camera::law_formats_go_by_name();
    let v = crate::camera::view_formats();
    assert(v[0] == 0x3432_4258 && v[1] == 0x3432_4241 && v[2] == 0x3432_5258 && v[3] == 0x3432_5241 && v[4] == 0x3231_564e && v[5]
        == 0x5659_5559);
    if v.contains(fourcc) {
        let i = choose|i: int| 0 <= i < v.len() && v[i] == fourcc;
        assert(0 <= i < 6);
    }
}

} // verus!
