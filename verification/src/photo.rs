//! Writing stills: names, the pixels that go into a photo, and the pipeline
//! that encodes it.

use crate::camera;
use crate::camera::Still;
use crate::device;
use crate::number::Number;
use crate::settings;
use crate::text;
use vstd::prelude::*;

verus! {

/// The name of a photo made at this time.
pub fn file_stem(stamp: &str) -> (s: String)
    ensures
        s@ == "IMG_"@ + stamp@,
{
    let mut s: String = String::from_str("IMG_");
    s.append(stamp);
    s
}

/// The media framework's name of a pixel format that JPEG can be made of.
pub open spec fn format_name(fourcc: u32) -> Option<Seq<char>> {
    if fourcc == 0x3432_4258 {
        Some("RGBx"@)
    } else if fourcc == 0x3432_4241 {
        Some("RGBA"@)
    } else if fourcc == 0x3432_5258 {
        Some("BGRx"@)
    } else if fourcc == 0x3432_5241 {
        Some("BGRA"@)
    } else {
        None
    }
}

pub fn gst_format(fourcc: u32) -> (name: Option<&'static str>)
    ensures
        match name {
            Some(n) => format_name(fourcc) == Some(n@),
            None => format_name(fourcc) is None,
        },
{
    if fourcc == camera::fourcc([0x58, 0x42, 0x32, 0x34]) {
        Some("RGBx")
    } else if fourcc == camera::fourcc([0x41, 0x42, 0x32, 0x34]) {
        Some("RGBA")
    } else if fourcc == camera::fourcc([0x58, 0x52, 0x32, 0x34]) {
        Some("BGRx")
    } else if fourcc == camera::fourcc([0x41, 0x52, 0x32, 0x34]) {
        Some("BGRA")
    } else {
        None
    }
}

/// The flip that turns a buffer `rotation` degrees clockwise.
pub open spec fn flip_name(rotation: int) -> Seq<char> {
    if rotation % 360 == 90 {
        "clockwise"@
    } else if rotation % 360 == 180 {
        "rotate-180"@
    } else if rotation % 360 == 270 {
        "counterclockwise"@
    } else {
        "none"@
    }
}

pub fn flip_method(rotation: i32) -> (name: &'static str)
    ensures
        name@ == flip_name(rotation as int),
{
    let turn: i32 = device::turned(rotation as i64);
    if turn == 90 {
        "clockwise"
    } else if turn == 180 {
        "rotate-180"
    } else if turn == 270 {
        "counterclockwise"
    } else {
        "none"
    }
}

/// Why a still cannot be encoded.
#[derive(Debug, Clone, Copy, PartialEq, Eq, Structural)]
pub enum JpegError {
    Format,
    /// So many bytes were there, of so many.
    Short(usize, usize),
}

impl JpegError {
    pub fn message(&self) -> (s: String)
        ensures
            s@ == match *self {
                JpegError::Format => "viewfinder format has no JPEG path"@,
                JpegError::Short(got, of) => "short frame: "@ + text::decimal(got as nat) + " of "@ + text::decimal(
                    of as nat,
                ) + " bytes"@,
            },
    {
        match self {
            JpegError::Format => String::from_str("viewfinder format has no JPEG path"),
            JpegError::Short(got, of) => {
                let mut s: String = String::from_str("short frame: ");
                text::push_decimal(&mut s, *got as u64);
                s.append(" of ");
                text::push_decimal(&mut s, *of as u64);
                s.append(" bytes");
                s
            },
        }
    }
}

/// How many rows `len` bytes make, the last of them perhaps cut short.
pub open spec fn rows_in(len: int, stride: int) -> int {
    (len + stride - 1) / stride
}

/// The first `n` rows of `w` bytes each, without the padding between them.
pub open spec fn tight_rows(data: Seq<u8>, stride: int, w: int, n: nat) -> Seq<u8>
    decreases n,
{
    if n == 0 {
        Seq::empty()
    } else {
        tight_rows(data, stride, w, (n - 1) as nat) + data.subrange((n - 1) * stride, (n - 1) * stride + w)
    }
}

/// Every row that is there, up to `h`, holds `w` bytes.
pub open spec fn rows_full(len: int, stride: int, w: int, h: int) -> bool {
    forall|y: int| 0 <= y < h && y < rows_in(len, stride) ==> #[trigger] (y * stride) + w <= len && w <= stride
}

/// Tight rows hold the bytes of the rows they were made of, row after row.
pub proof fn law_tight_rows_keep_the_bytes(data: Seq<u8>, stride: int, w: int, n: nat, x: int, y: int)
    requires
        0 <= stride,
        0 <= x < w,
        0 <= y < n,
        (n - 1) * stride + w <= data.len(),
    ensures
        tight_rows(data, stride, w, n).len() == n * w,
        0 <= y * w + x < n * w,
        tight_rows(data, stride, w, n)[y * w + x] == data[y * stride + x],
    decreases n,
{
    let m = (n - 1) as nat;
    lemma_tight_length(data, stride, w, n);
    assert(m * stride >= 0) by (nonlinear_arith)
        requires
            m >= 0,
            stride >= 0,
    ;
    assert(m * w + w == n * w) by (nonlinear_arith)
        requires
            m == n - 1,
    ;
    assert(0 <= y * w && y * w + w <= n * w) by (nonlinear_arith)
        requires
            0 <= y <= n - 1,
            w >= 0,
    ;
    if n > 1 {
        assert((m - 1) * stride + stride == m * stride) by (nonlinear_arith);
        lemma_tight_length(data, stride, w, m);
    }
    if y < m {
        assert(y * w + w <= m * w) by (nonlinear_arith)
            requires
                0 <= y <= m - 1,
                w >= 0,
        ;
        law_tight_rows_keep_the_bytes(data, stride, w, m, x, y);
    } else {
        assert(m * w == tight_rows(data, stride, w, m).len()) by {
            if n == 1 {
                assert(0 * w == 0) by (nonlinear_arith);
            }
        }
    }
}

proof fn lemma_tight_length(data: Seq<u8>, stride: int, w: int, n: nat)
    requires
        0 <= stride,
        0 <= w,
        n > 0 ==> (n - 1) * stride + w <= data.len(),
    ensures
        tight_rows(data, stride, w, n).len() == n * w,
    decreases n,
{
    if n > 0 {
        assert((n - 1) * stride >= 0) by (nonlinear_arith)
            requires
                n >= 1,
                stride >= 0,
        ;
        assert((n - 2) * stride + stride == (n - 1) * stride) by (nonlinear_arith);
        lemma_tight_length(data, stride, w, (n - 1) as nat);
        assert((n - 1) * w + w == n * w) by (nonlinear_arith);
    } else {
        assert(0 * w == 0) by (nonlinear_arith);
    }
}

/// The rows from `start` on, `stride` bytes apart, `n` of them, of `w` bytes
/// each.
pub fn gather_rows(data: &[u8], start: usize, stride: usize, w: usize, n: u32) -> (out: Vec<u8>)
    requires
        n > 0 ==> start + (n - 1) * stride + w <= data@.len(),
    ensures
        out@ == tight_rows(data@.skip(start as int), stride as int, w as int, n as nat),
        out@.len() == n * w,
{
    let len: usize = data.len();
    let ghost rest = data@.skip(start as int);
    let mut out: Vec<u8> = Vec::new();
    let mut y: u32 = 0;
    let mut at: usize = start;
    assert(0 * stride == 0) by (nonlinear_arith);
    while y < n
        invariant
            y <= n,
            len == data@.len(),
            rest == data@.skip(start as int),
            n > 0 ==> start + (n - 1) * stride + w <= len,
            y < n ==> at == start + y * stride,
            out@ == tight_rows(rest, stride as int, w as int, y as nat),
        decreases n - y,
    {
        assert(0 <= y * stride <= (n - 1) * stride) by (nonlinear_arith)
            requires
                0 <= y <= n - 1,
                0 <= stride,
        ;
        let row: &[u8] = vstd::slice::slice_subrange(data, at, at + w);
        assert(row@ =~= rest.subrange(y * stride, y * stride + w));
        let ghost before = out@;
        out.extend_from_slice(row);
        assert(out@ =~= before + row@);
        y = y + 1;
        if y < n {
            assert(y * stride <= (n - 1) * stride) by (nonlinear_arith)
                requires
                    0 <= y <= n - 1,
                    0 <= stride,
            ;
            assert(y * stride == (y - 1) * stride + stride) by (nonlinear_arith);
            at = at + stride;
        }
    }
    proof {
        lemma_tight_length(rest, stride as int, w as int, n as nat);
    }
    out
}

/// The part of a picture that a zoom leaves.
#[derive(Debug, Clone, Copy, PartialEq, Eq, Structural)]
pub struct Region {
    pub left: u32,
    pub top: u32,
    pub width: u32,
    pub height: u32,
}

/// How much of `n` pixels a zoom leaves: all without one, and at least one of
/// them.
pub open spec fn zoomed(n: int, zoom: Number) -> int {
    if n == 0 || !Number::of(1).below(zoom) {
        n
    } else if zoom.times_in(n) < 1 {
        1
    } else {
        zoom.times_in(n)
    }
}

/// The middle of a picture, as much of it as the zoom leaves.
pub open spec fn middle(width: int, height: int, zoom: Number) -> Region {
    let (w, h) = (zoomed(width, zoom), zoomed(height, zoom));
    Region { left: ((width - w) / 2) as u32, top: ((height - h) / 2) as u32, width: w as u32, height: h as u32 }
}

fn shrink(n: u32, zoom: Number) -> (k: u32)
    ensures
        k == zoomed(n as int, zoom),
        k <= n,
        n > 0 ==> k > 0,
{
    if n == 0 || !Number::from_i64(1).is_below(zoom) {
        return n;
    }
    let k: u32 = zoom.fits_into(n);
    if k < 1 {
        1
    } else {
        k
    }
}

/// What to crop a picture to for a digital zoom.
pub fn crop(width: u32, height: u32, zoom: Number) -> (r: Region)
    ensures
        r == middle(width as int, height as int, zoom),
        r.left + r.width <= width,
        r.top + r.height <= height,
        width > 0 ==> r.width > 0,
        height > 0 ==> r.height > 0,
{
    let (w, h) = (shrink(width, zoom), shrink(height, zoom));
    Region { left: (width - w) / 2, top: (height - h) / 2, width: w, height: h }
}

/// A zoomed photo lies in the middle of its picture, and one without zoom is
/// all of it.
pub proof fn law_zoom_crops_to_the_middle(width: u32, height: u32, zoom: Number)
    ensures
        ({
            let r = middle(width as int, height as int, zoom);
            let (right, below) = (width - r.width - r.left, height - r.height - r.top);
            &&& r.left <= right <= r.left + 1
            &&& r.top <= below <= r.top + 1
            &&& width > 0 ==> r.width > 0
            &&& height > 0 ==> r.height > 0
            &&& !Number::of(1).below(zoom) ==> r == (Region { left: 0, top: 0, width, height })
        }),
{
    if Number::of(1).below(zoom) {
        zoom.lemma_times_in(width as int);
        zoom.lemma_times_in(height as int);
    }
}

/// Whether a still's buffer holds all of its rows: one with too few is
/// refused.
fn complete(still: &Still) -> (r: Result<(), JpegError>)
    requires
        still.stride > 0,
        still.width * still.height * 4 <= usize::MAX,
        rows_full(still.rgba@.len() as int, still.stride as int, 4 * still.width, still.height as int),
    ensures
        ({
            let (w, h) = (4 * still.width, still.height as int);
            let rows = rows_in(still.rgba@.len() as int, still.stride as int);
            match r {
                Ok(_) => rows >= h || w == 0,
                Err(JpegError::Short(got, of)) => rows < h && w > 0 && got == rows * w && of == h * w,
                Err(JpegError::Format) => false,
            }
        }),
{
    let (len, stride) = (still.rgba.len() as u64, still.stride as u64);
    assert(len / stride <= len && (len % stride > 0 ==> len / stride < len)) by (nonlinear_arith)
        requires
            stride > 0,
    ;
    let rows: u64 = len / stride + (if len % stride > 0 { 1u64 } else { 0u64 });
    let ghost (w, h) = (4 * still.width, still.height as int);
    proof {
        assert(rows == rows_in(len as int, stride as int)) by (nonlinear_arith)
            requires
                rows == len / stride + (if len % stride > 0 {
                    1int
                } else {
                    0int
                }),
                stride > 0,
                rows_in(len as int, stride as int) == (len + stride - 1) / stride as int,
        ;
        assert(still.width * still.height * 4 == h * w) by (nonlinear_arith)
            requires
                w == 4 * still.width,
                h == still.height,
        ;
        assert(rows < h ==> 0 <= rows * w <= h * w) by (nonlinear_arith)
            requires
                0 <= rows,
                0 <= w,
        ;
        assert(w <= h * w || h == 0) by (nonlinear_arith)
            requires
                0 <= w,
                0 <= h,
        ;
    }
    if rows < still.height as u64 && still.width > 0 {
        let row: usize = still.width as usize * 4;
        return Err(JpegError::Short(rows as usize * row, still.height as usize * row));
    }
    Ok(())
}

/// The pipeline that turns, encodes and writes a photo.
pub open spec fn jpeg_text(rotation: int, path: Seq<char>) -> Seq<char> {
    "appsrc name=src ! videoconvert ! videoflip method="@ + flip_name(rotation)
        + " ! jpegenc quality=92 ! jifmux name=mux ! filesink location=\""@ + path + "\""@
}

pub fn jpeg_pipeline(rotation: i32, path: &str) -> (s: String)
    ensures
        s@ == jpeg_text(rotation as int, path@),
{
    let mut s: String = String::from_str("appsrc name=src ! videoconvert ! videoflip method=");
    s.append(flip_method(rotation));
    s.append(" ! jpegenc quality=92 ! jifmux name=mux ! filesink location=\"");
    s.append(path);
    s.append("\"");
    s
}

/// What goes into the encoder for a still.
#[derive(Debug)]
pub struct Jpeg {
    pub format: &'static str,
    pub width: u32,
    pub height: u32,
    pub pixels: Vec<u8>,
    pub pipeline: String,
    /// Exposure time in millionths of a second, where it is known.
    pub shutter: Option<i32>,
}

/// A part of a still in tight rows: the capture buffer may be padded past the
/// width.
pub open spec fn cut(still: Still, r: Region) -> Seq<u8> {
    tight_rows(
        still.rgba@.skip(r.top * still.stride + 4 * r.left),
        still.stride as int,
        4 * r.width,
        r.height as nat,
    )
}

/// `j` is what goes into the encoder for a still: the part that its zoom
/// leaves.
pub open spec fn prepares(j: Jpeg, still: Still, path: Seq<char>) -> bool {
    let region = middle(still.width as int, still.height as int, still.zoom);
    &&& format_name(still.fourcc) == Some(j.format@)
    &&& rows_in(still.rgba@.len() as int, still.stride as int) >= still.height || still.width == 0
    &&& j.width == region.width
    &&& j.height == region.height
    &&& still.width > 0 && still.height > 0 ==> j.pixels@ == cut(still, region)
    &&& j.pixels@.len() == 4 * j.width * j.height
    &&& j.pipeline@ == jpeg_text(still.info.rotation as int, path)
    &&& j.shutter == match settings::reading(still.metadata@, "ExposureTime"@) {
        Some(t) => Some(settings::to_i32(t)),
        None => None,
    }
}

/// Prepare a still for the encoder, cropped to its zoom.
pub fn save_jpeg(still: &Still, path: &str) -> (r: Result<Jpeg, JpegError>)
    requires
        format_name(still.fourcc) is Some ==> {
            &&& still.stride > 0
            &&& rows_full(still.rgba@.len() as int, still.stride as int, 4 * still.width, still.height as int)
            &&& still.width * still.height * 4 <= usize::MAX
        },
    ensures
        match r {
            Ok(j) => prepares(j, *still, path@),
            Err(JpegError::Format) => format_name(still.fourcc) is None,
            Err(JpegError::Short(got, of)) => {
                let rows = rows_in(still.rgba@.len() as int, still.stride as int);
                &&& format_name(still.fourcc) is Some
                &&& rows < still.height && still.width > 0
                &&& got == rows * (4 * still.width)
                &&& of == still.height * (4 * still.width)
            },
        },
{
    let format: &'static str = match gst_format(still.fourcc) {
        Some(f) => f,
        None => return Err(JpegError::Format),
    };
    if let Err(e) = complete(still) {
        return Err(e);
    }
    let region: Region = crop(still.width, still.height, still.zoom);
    let pixels: Vec<u8> = if still.width == 0 || still.height == 0 {
        Vec::new()
    } else {
        let len: usize = still.rgba.len();
        proof {
            lemma_region_fits(*still, region);
            assert(region.top * still.stride + 4 * region.left <= len);
        }
        let start: u64 = region.top as u64 * still.stride as u64 + 4 * region.left as u64;
        gather_rows(
            still.rgba.as_slice(),
            start as usize,
            still.stride as usize,
            region.width as usize * 4,
            region.height,
        )
    };
    proof {
        assert(region.height * (4 * region.width) == 4 * region.width * region.height) by (nonlinear_arith);
        assert(still.width == 0 || still.height == 0 ==> 4 * region.width * region.height == 0) by (nonlinear_arith)
            requires
                region.width <= still.width,
                region.height <= still.height,
                0 <= region.width,
                0 <= region.height,
        ;
    }
    let shutter: Option<i32> = match still.metadata.get("ExposureTime") {
        Some(t) => Some(settings::round_i32(t)),
        None => None,
    };
    Ok(
        Jpeg {
            format,
            width: region.width,
            height: region.height,
            pixels,
            pipeline: jpeg_pipeline(still.info.rotation, path),
            shutter,
        },
    )
}

/// A region's rows lie in the buffer, where all rows of the still do.
proof fn lemma_region_fits(still: Still, r: Region)
    requires
        still.stride > 0,
        still.width > 0,
        r.height > 0,
        r.left + r.width <= still.width,
        r.top + r.height <= still.height,
        rows_in(still.rgba@.len() as int, still.stride as int) >= still.height,
        rows_full(still.rgba@.len() as int, still.stride as int, 4 * still.width, still.height as int),
    ensures
        0 <= r.top * still.stride <= 0xffff_ffff * 0xffff_ffff,
        (r.top * still.stride + 4 * r.left) + (r.height - 1) * still.stride + 4 * r.width <= still.rgba@.len(),
        0 <= (r.height - 1) * still.stride,
{
    let (len, stride) = (still.rgba@.len() as int, still.stride as int);
    let last = r.top + r.height - 1;
    assert(0 <= last < still.height);
    assert((last * stride) + 4 * still.width <= len);
    assert(r.top * stride + (r.height - 1) * stride == last * stride) by (nonlinear_arith)
        requires
            last == r.top + r.height - 1,
    ;
    assert(0 <= r.top * stride <= 0xffff_ffff * 0xffff_ffff) by (nonlinear_arith)
        requires
            0 <= r.top <= 0xffff_ffff,
            0 <= stride <= 0xffff_ffff,
    ;
    assert(0 <= (r.height - 1) * stride) by (nonlinear_arith)
        requires
            r.height >= 1,
            0 <= stride,
    ;
}

/// The files of a photo: a JPEG, plus a DNG when it carries raw data and
/// `raw` is set.
#[derive(Debug)]
pub struct Files {
    pub jpeg: String,
    pub dng: Option<String>,
}

/// How a still is saved, under this stem.
pub fn save(still: &Still, raw: bool, stem: &str) -> (f: Files)
    ensures
        f.jpeg@ == stem@ + ".jpg"@,
        match f.dng {
            Some(d) => raw && still.raw is Some && d@ == stem@ + ".dng"@,
            None => !raw || still.raw is None,
        },
{
    let mut jpeg: String = String::from_str(stem);
    jpeg.append(".jpg");
    let dng: Option<String> = if raw && still.raw.is_some() {
        let mut d: String = String::from_str(stem);
        d.append(".dng");
        Some(d)
    } else {
        None
    };
    Files { jpeg, dng }
}

/// What came of the write that was asked for last.
#[derive(Debug)]
pub enum Written<E> {
    /// Nothing was written yet.
    Nothing,
    Jpeg(Result<(), E>),
    Dng(Result<(), E>),
}

/// What a save does next.
#[derive(Debug)]
pub enum SaveStep<E> {
    /// Write the JPEG under this name.
    Jpeg(String),
    /// Write the DNG under this name.
    Dng(String),
    /// All is written; this is the JPEG.
    Saved(String),
    Failed(E),
}

/// How a save goes on, over the names of its files.
#[verifier::ext_equal]
pub enum SaveView<E> {
    Jpeg(Seq<char>),
    Dng(Seq<char>),
    Saved(Seq<char>),
    Failed(E),
}

impl<E> View for SaveStep<E> {
    type V = SaveView<E>;

    open spec fn view(&self) -> SaveView<E> {
        match *self {
            SaveStep::Jpeg(name) => SaveView::Jpeg(name@),
            SaveStep::Dng(name) => SaveView::Dng(name@),
            SaveStep::Saved(name) => SaveView::Saved(name@),
            SaveStep::Failed(e) => SaveView::Failed(e),
        }
    }
}

/// A save writes the JPEG, then the DNG where one is due, and ends with the
/// first error.
pub open spec fn save_step<E>(jpeg: Seq<char>, dng: Option<Seq<char>>, last: Written<E>) -> SaveView<E> {
    match last {
        Written::Nothing => SaveView::Jpeg(jpeg),
        Written::Jpeg(Err(e)) => SaveView::Failed(e),
        Written::Jpeg(Ok(_)) => match dng {
            Some(name) => SaveView::Dng(name),
            None => SaveView::Saved(jpeg),
        },
        Written::Dng(Err(e)) => SaveView::Failed(e),
        Written::Dng(Ok(_)) => SaveView::Saved(jpeg),
    }
}

impl Files {
    pub open spec fn dng_name(self) -> Option<Seq<char>> {
        match self.dng {
            Some(name) => Some(name@),
            None => None,
        }
    }

    /// What to do next, given what came of the last write.
    pub fn next<E>(&self, last: Written<E>) -> (step: SaveStep<E>)
        ensures
            step@ == save_step(self.jpeg@, self.dng_name(), last),
    {
        match last {
            Written::Nothing => SaveStep::Jpeg(self.jpeg.clone()),
            Written::Jpeg(Err(e)) => SaveStep::Failed(e),
            Written::Jpeg(Ok(_)) => match &self.dng {
                Some(name) => SaveStep::Dng(name.clone()),
                None => SaveStep::Saved(self.jpeg.clone()),
            },
            Written::Dng(Err(e)) => SaveStep::Failed(e),
            Written::Dng(Ok(_)) => SaveStep::Saved(self.jpeg.clone()),
        }
    }
}

/// How a save ends, where the writes give these results, and whether it
/// wrote a DNG.
pub open spec fn save_end<E>(jpeg: Seq<char>, dng: Option<Seq<char>>, first: Result<(), E>, second: Result<(), E>) -> (
    SaveView<E>,
    bool,
) {
    match save_step(jpeg, dng, Written::Jpeg(first)) {
        SaveView::Dng(_) => (save_step(jpeg, dng, Written::Dng(second)), true),
        end => (end, false),
    }
}

/// A save starts with the JPEG. It succeeds, with the JPEG's name, exactly
/// where the JPEG and the DNG that is due are written. A failed JPEG ends it
/// with that error and without a DNG, and a failed DNG with its own.
pub proof fn law_failed_save_says_so<E>(jpeg: Seq<char>, dng: Option<Seq<char>>, first: Result<(), E>, second: Result<(), E>)
    ensures
        save_step(jpeg, dng, Written::<E>::Nothing) == SaveView::<E>::Jpeg(jpeg),
        first matches Err(e) ==> save_end(jpeg, dng, first, second) == (SaveView::Failed(e), false),
        first is Ok && dng is None ==> save_end(jpeg, dng, first, second) == (SaveView::<E>::Saved(jpeg), false),
        first is Ok && dng is Some ==> save_end(jpeg, dng, first, second) == (
            match second {
                Ok(_) => SaveView::Saved(jpeg),
                Err(e) => SaveView::Failed(e),
            },
            true,
        ),
{
}

/// A part of a still keeps its pixels: byte `x` of its row `y` is that of the
/// still, as far down and as far to the right as the part lies.
pub proof fn law_cut_keeps_the_pixels(still: Still, r: Region, x: int, y: int)
    requires
        0 <= x < 4 * r.width,
        0 <= y < r.height,
        (r.top * still.stride + 4 * r.left) + (r.height - 1) * still.stride + 4 * r.width <= still.rgba@.len(),
    ensures
        cut(still, r).len() == r.height * (4 * r.width),
        0 <= y * (4 * r.width) + x < cut(still, r).len(),
        cut(still, r)[y * (4 * r.width) + x] == still.rgba@[(r.top + y) * still.stride + 4 * r.left + x],
{
    let start = r.top * still.stride + 4 * r.left;
    let rest = still.rgba@.skip(start);
    let stride = still.stride as int;
    assert(0 <= r.top * still.stride) by (nonlinear_arith);
    assert(0 <= (r.height - 1) * still.stride) by (nonlinear_arith)
        requires
            r.height >= 1,
            0 <= still.stride,
    ;
    law_tight_rows_keep_the_bytes(rest, stride, 4 * r.width, r.height as nat, x, y);
    assert((r.top + y) * stride == r.top * stride + y * stride) by (nonlinear_arith);
    assert(0 <= y * stride <= (r.height - 1) * stride) by (nonlinear_arith)
        requires
            0 <= y <= r.height - 1,
            0 <= stride,
    ;
}

/// A still without zoom goes into the encoder whole, turned as the camera is,
/// with its exposure time to the nearest millionth of a second.
pub proof fn law_jpegs_are_of_the_still(j: Jpeg, still: Still, path: Seq<char>)
    requires
        prepares(j, still, path),
    ensures
        !Number::of(1).below(still.zoom) ==> j.width == still.width && j.height == still.height,
        j.width <= still.width && j.height <= still.height,
        j.pixels@.len() == 4 * j.width * j.height,
        still.width > 0 && still.height > 0 ==> {
            let r = middle(still.width as int, still.height as int, still.zoom);
            j.pixels@ == cut(still, r) && j.width == r.width && j.height == r.height
        },
        format_name(still.fourcc) == Some(j.format@),
        j.shutter is Some <==> settings::reading(still.metadata@, "ExposureTime"@) is Some,
        settings::reading(still.metadata@, "ExposureTime"@) matches Some(t) ==> (i32::MIN <= t.rounded() <= i32::MAX ==> j.shutter
            == Some(t.rounded() as i32)),
        j.pipeline@ == jpeg_text(still.info.rotation as int, path),
{
    law_zoom_crops_to_the_middle(still.width, still.height, still.zoom);
    if Number::of(1).below(still.zoom) {
        still.zoom.lemma_times_in(still.width as int);
        still.zoom.lemma_times_in(still.height as int);
    }
}

/// The rows of a buffer hold all of its bytes, and none of them is empty.
pub proof fn law_rows_hold_the_bytes(len: int, stride: int)
    requires
        len >= 0,
        stride > 0,
    ensures
        (rows_in(len, stride) - 1) * stride < len || len == 0,
        len <= rows_in(len, stride) * stride,
        len == 0 ==> rows_in(len, stride) == 0,
{
    let n = rows_in(len, stride);
    vstd::arithmetic::div_mod::lemma_fundamental_div_mod(len + stride - 1, stride);
    assert(stride * n == n * stride && (n - 1) * stride == n * stride - stride) by (nonlinear_arith);
    if len == 0 {
        vstd::arithmetic::div_mod::lemma_basic_div(stride - 1, stride);
    }
}

/// A picture is turned by a quarter for each quarter of its rotation, and a
/// whole turn changes nothing.
pub proof fn law_flips_turn_by_quarters(turns: int)
    ensures
        flip_name(360 * turns) == "none"@,
        flip_name(360 * turns + 90) == "clockwise"@,
        flip_name(360 * turns + 180) == "rotate-180"@,
        flip_name(360 * turns + 270) == "counterclockwise"@,
        flip_name(360 * turns - 90) == "counterclockwise"@,
{
}

/// JPEG is made of the formats that textures have, and of no other.
pub proof fn law_jpegs_are_made_of_packed_colours(fourcc: u32)
    ensures
        format_name(fourcc) is Some <==> crate::viewfinder::format_of(fourcc) is Some,
        fourcc == camera::code_named("XB24"@) ==> format_name(fourcc) == Some("RGBx"@),
        fourcc == camera::code_named("AB24"@) ==> format_name(fourcc) == Some("RGBA"@),
        fourcc == camera::code_named("XR24"@) ==> format_name(fourcc) == Some("BGRx"@),
        fourcc == camera::code_named("AR24"@) ==> format_name(fourcc) == Some("BGRA"@),
{
    crate::viewfinder::law_textures_are_read_backwards(fourcc);
    reveal_strlit("XB24");
    reveal_strlit("AB24");
    reveal_strlit("XR24");
    reveal_strlit("AR24");
}

} // verus!
