//! A minimal DNG writer: one uncompressed CFA strip, with the colour and
//! exposure metadata a raw developer needs.

use crate::camera::{RawImage, Still};
use crate::device;
use crate::number::Number;
use crate::text;
use vstd::arithmetic::power2::*;
use vstd::prelude::*;

verus! {

/// How a raw format lays out its pixels.
#[derive(Debug, Clone, Copy, PartialEq, Eq)]
pub struct Layout {
    /// The colour of each corner of a 2x2 cell: 0 red, 1 green, 2 blue.
    pub cfa: [u8; 4],
    pub bits: u32,
    /// CSI-2 packed.
    pub packed: bool,
}

/// Why a raw image cannot be written.
#[derive(Debug)]
pub enum DngError {
    /// The format is not a Bayer one.
    NotBayer(String),
    /// The data ends before this row.
    Short(usize),
    UnsupportedLayout,
}

impl DngError {
    pub fn message(&self) -> (s: String)
        ensures
            s@ == match *self {
                DngError::NotBayer(format) => "not a Bayer format: "@ + format@,
                DngError::Short(row) => "raw frame is short at row "@ + text::decimal(row as nat),
                DngError::UnsupportedLayout => "unsupported raw layout"@,
            },
    {
        match self {
            DngError::NotBayer(format) => {
                let mut s: String = String::from_str("not a Bayer format: ");
                s.append(format.as_str());
                s
            },
            DngError::Short(row) => {
                let mut s: String = String::from_str("raw frame is short at row ");
                text::push_decimal(&mut s, *row as u64);
                s
            },
            DngError::UnsupportedLayout => String::from_str("unsupported raw layout"),
        }
    }
}

/// The colours that a Bayer order names.
pub open spec fn colours(order: Seq<char>) -> Option<Seq<u8>> {
    if order == seq!['R', 'G', 'G', 'B'] {
        Some(seq![0u8, 1, 1, 2])
    } else if order == seq!['G', 'R', 'B', 'G'] {
        Some(seq![1u8, 0, 2, 1])
    } else if order == seq!['G', 'B', 'R', 'G'] {
        Some(seq![1u8, 2, 0, 1])
    } else if order == seq!['B', 'G', 'G', 'R'] {
        Some(seq![2u8, 1, 1, 0])
    } else {
        None
    }
}

/// How many digits `s` starts with.
pub open spec fn digits_ahead(s: Seq<char>) -> int
    decreases s.len(),
{
    if s.len() == 0 || !text::is_digit(s[0]) {
        0
    } else {
        1 + digits_ahead(s.drop_first())
    }
}

/// What a format name says: the colours, the bits and the packing.
pub open spec fn layout_of(format: Seq<char>) -> Option<(Seq<u8>, u32, bool)> {
    if format.len() < 5 || format[0] != 'S' {
        None
    } else {
        let rest = format.skip(5);
        match (colours(format.subrange(1, 5)), text::number_in(rest.take(digits_ahead(rest)))) {
            (Some(cfa), Some(bits)) => Some((cfa, bits, text::contained(rest, "CSI2P"@))),
            _ => None,
        }
    }
}

proof fn lemma_digits_ahead(s: Seq<char>, n: int)
    requires
        0 <= n <= s.len(),
        forall|i: int| 0 <= i < n ==> text::is_digit(#[trigger] s[i]),
        n == s.len() || !text::is_digit(s[n]),
    ensures
        digits_ahead(s) == n,
    decreases s.len(),
{
    if n > 0 {
        let t = s.drop_first();
        assert forall|i: int| 0 <= i < n - 1 implies text::is_digit(#[trigger] t[i]) by {
            assert(t[i] == s[i + 1]);
        }
        assert(text::is_digit(s[0]));
        lemma_digits_ahead(t, n - 1);
    }
}

/// "SRGGB10_CSI2P" -> RGGB, 10 bits, CSI-2 packed.
pub fn layout(format: &str) -> (l: Option<Layout>)
    ensures
        match l {
            Some(l) => layout_of(format@) == Some((l.cfa@, l.bits, l.packed)),
            None => layout_of(format@) is None,
        },
{
    let v: Vec<char> = text::chars(format);
    if v.len() < 5 || v[0] != 'S' {
        return None;
    }
    let ghost order = v@.subrange(1, 5);
    let (a, b, c, d) = (v[1], v[2], v[3], v[4]);
    assert(order[0] == a && order[1] == b && order[2] == c && order[3] == d);
    assert(order =~= seq![a, b, c, d]);
    let cfa: [u8; 4] = if a == 'R' && b == 'G' && c == 'G' && d == 'B' {
        [0, 1, 1, 2]
    } else if a == 'G' && b == 'R' && c == 'B' && d == 'G' {
        [1, 0, 2, 1]
    } else if a == 'G' && b == 'B' && c == 'R' && d == 'G' {
        [1, 2, 0, 1]
    } else if a == 'B' && b == 'G' && c == 'G' && d == 'R' {
        [2, 1, 1, 0]
    } else {
        proof {
            assert(seq!['R', 'G', 'G', 'B'][0] == 'R' && seq!['R', 'G', 'G', 'B'][1] == 'G' && seq!['R', 'G', 'G', 'B'][2]
                == 'G' && seq!['R', 'G', 'G', 'B'][3] == 'B');
            assert(seq!['G', 'R', 'B', 'G'][0] == 'G' && seq!['G', 'R', 'B', 'G'][1] == 'R' && seq!['G', 'R', 'B', 'G'][2]
                == 'B' && seq!['G', 'R', 'B', 'G'][3] == 'G');
            assert(seq!['G', 'B', 'R', 'G'][0] == 'G' && seq!['G', 'B', 'R', 'G'][1] == 'B' && seq!['G', 'B', 'R', 'G'][2]
                == 'R' && seq!['G', 'B', 'R', 'G'][3] == 'G');
            assert(seq!['B', 'G', 'G', 'R'][0] == 'B' && seq!['B', 'G', 'G', 'R'][1] == 'G' && seq!['B', 'G', 'G', 'R'][2]
                == 'G' && seq!['B', 'G', 'G', 'R'][3] == 'R');
        }
        return None;
    };
    assert(colours(order) == Some(cfa@)) by {
        assert(seq!['R', 'G', 'G', 'B'][1] == 'G');
        assert(seq!['G', 'R', 'B', 'G'][1] == 'R');
        assert(seq!['G', 'B', 'R', 'G'][1] == 'B');
        assert(seq!['R', 'G', 'G', 'B'][0] == 'R');
        assert(seq!['G', 'R', 'B', 'G'][0] == 'G');
        assert(seq!['G', 'B', 'R', 'G'][0] == 'G');
        assert(seq!['B', 'G', 'G', 'R'][0] == 'B');
        assert(cfa@ =~= seq![0u8, 1, 1, 2] || cfa@ =~= seq![1u8, 0, 2, 1] || cfa@ =~= seq![1u8, 2, 0, 1] || cfa@
            =~= seq![2u8, 1, 1, 0]);
    }
    let mut end: usize = 5;
    let ghost rest = v@.skip(5);
    while end < v.len() && '0' <= v[end] && v[end] <= '9'
        invariant
            5 <= end <= v@.len(),
            rest == v@.skip(5),
            forall|i: int| 0 <= i < end - 5 ==> text::is_digit(#[trigger] rest[i]),
        decreases v@.len() - end,
    {
        assert(rest[end - 5] == v@[end as int]);
        end = end + 1;
    }
    proof {
        if end < v@.len() {
            assert(rest[end - 5] == v@[end as int]);
        }
        lemma_digits_ahead(rest, end - 5);
        assert(rest.take(end - 5) =~= v@.subrange(5, end as int));
    }
    let bits: u32 = match text::parse_digits(&v, 5, end) {
        Some(bits) => bits,
        None => return None,
    };
    let tail: String = text::gather(&v, 5, v.len());
    assert(tail@ =~= rest);
    Some(Layout { cfa, bits, packed: text::contains(tail.as_str(), "CSI2P") })
}

/// Whether pixels can be read from this layout.
pub open spec fn readable(l: Layout) -> bool {
    l.bits == 8 || !l.packed || l.bits == 10 || l.bits == 12
}

/// How many bytes a row of `w` pixels takes.
pub open spec fn row_bytes(l: Layout, w: int) -> int {
    if w <= 0 {
        0
    } else if l.bits == 8 {
        w
    } else if !l.packed {
        2 * w
    } else if l.bits == 10 {
        (w - 1) / 4 * 5 + 5
    } else {
        (w - 1) / 2 * 3 + 3
    }
}

/// Two to the power of `2 * i`.
pub open spec fn quarter_shift(i: int) -> int {
    if i == 0 {
        1
    } else if i == 1 {
        4
    } else if i == 2 {
        16
    } else {
        64
    }
}

/// Pixel `x` of a row. Packed rows hold the high bits of each pixel in a byte
/// of its own, and the low bits of a whole group in the byte after them.
pub open spec fn pixel(l: Layout, row: Seq<u8>, x: int) -> int {
    if l.bits == 8 {
        row[x] as int
    } else if !l.packed {
        row[2 * x] + 256 * row[2 * x + 1]
    } else if l.bits == 10 {
        row[x / 4 * 5 + x % 4] * 4 + row[x / 4 * 5 + 4] as int / quarter_shift(x % 4) % 4
    } else if x % 2 == 0 {
        row[x / 2 * 3] * 16 + row[x / 2 * 3 + 2] as int % 16
    } else {
        row[x / 2 * 3 + 1] * 16 + row[x / 2 * 3 + 2] as int / 16
    }
}

/// Row `y` of the image: up to the stride, as far as the data goes.
pub open spec fn row_of(raw: RawImage, y: int) -> Seq<u8> {
    let start = y * raw.stride;
    if start + raw.stride <= raw.data@.len() {
        raw.data@.subrange(start, start + raw.stride)
    } else {
        raw.data@.skip(start)
    }
}

/// The first `n` pixels of a row.
pub open spec fn row_pixels(l: Layout, row: Seq<u8>, n: nat) -> Seq<u16> {
    Seq::new(n, |x: int| pixel(l, row, x) as u16)
}

/// The pixels of the first `n` rows, one row after the other.
pub open spec fn pixels(raw: RawImage, l: Layout, n: nat) -> Seq<u16>
    decreases n,
{
    if n == 0 {
        Seq::empty()
    } else {
        pixels(raw, l, (n - 1) as nat) + row_pixels(l, row_of(raw, n - 1), raw.width as nat)
    }
}

/// Row `y` starts past the end of the data.
pub open spec fn starts_past(raw: RawImage, y: int) -> bool {
    y * raw.stride > raw.data@.len()
}

/// Every row that starts within the data holds a whole row of pixels.
pub open spec fn rows_whole(raw: RawImage, l: Layout) -> bool {
    forall|y: int|
        0 <= y < raw.height && !(#[trigger] starts_past(raw, y)) ==> row_of(raw, y).len() >= row_bytes(l, raw.width as int)
}

/// The first row that starts past the end of the data.
pub open spec fn first_short(raw: RawImage, y: int) -> bool {
    &&& 0 <= y < raw.height
    &&& starts_past(raw, y)
    &&& forall|i: int| 0 <= i < y ==> !(#[trigger] starts_past(raw, i))
}

fn read_pixel(l: &Layout, data: &Vec<u8>, start: usize, x: usize, Ghost(row): Ghost<Seq<u8>>, Ghost(w): Ghost<int>) -> (p: u16)
    requires
        readable(*l),
        0 <= x < w,
        row_bytes(*l, w) <= row.len(),
        start + row.len() <= data.len(),
        row == data@.subrange(start as int, start + row.len()),
    ensures
        p == pixel(*l, row, x as int),
{
    assert(forall|i: int| 0 <= i < row.len() ==> row[i] == data@[start + i]);
    if l.bits == 8 {
        data[start + x] as u16
    } else if !l.packed {
        data[start + 2 * x] as u16 + 256 * data[start + 2 * x + 1] as u16
    } else if l.bits == 10 {
        let at: usize = start + x / 4 * 5;
        let i: usize = x % 4;
        let shift: u16 = if i == 0 {
            1
        } else if i == 1 {
            4
        } else if i == 2 {
            16
        } else {
            64
        };
        data[at + i] as u16 * 4 + data[at + 4] as u16 / shift % 4
    } else {
        let at: usize = start + x / 2 * 3;
        if x % 2 == 0 {
            data[at] as u16 * 16 + data[at + 2] as u16 % 16
        } else {
            data[at + 1] as u16 * 16 + data[at + 2] as u16 / 16
        }
    }
}

/// The pixels of a raw image, as 16-bit values.
pub fn unpack(raw: &RawImage, l: &Layout) -> (r: Result<Vec<u16>, DngError>)
    requires
        readable(*l) ==> rows_whole(*raw, *l),
    ensures
        match r {
            Ok(out) => {
                &&& unpacks(*raw, *l)
                &&& out@ == pixels(*raw, *l, raw.height as nat)
            },
            Err(DngError::Short(y)) => first_short(*raw, y as int) && (readable(*l) || y == 0),
            Err(DngError::UnsupportedLayout) => {
                &&& raw.height > 0
                &&& !readable(*l)
                &&& !starts_past(*raw, 0)
            },
            Err(DngError::NotBayer(_)) => false,
        },
{
    let mut out: Vec<u16> = Vec::new();
    let mut y: u32 = 0;
    let size: u64 = raw.data.len() as u64;
    while y < raw.height
        invariant
            y <= raw.height,
            size == raw.data.len(),
            readable(*l) ==> rows_whole(*raw, *l),
            y > 0 ==> readable(*l),
            forall|i: int| 0 <= i < y ==> !(#[trigger] starts_past(*raw, i)),
            out@ == pixels(*raw, *l, y as nat),
        decreases raw.height - y,
    {
        assert(0 <= y * raw.stride <= 0xffff_ffff * 0xffff_ffff) by (nonlinear_arith)
            requires
                0 <= y <= 0xffff_ffff,
                0 <= raw.stride <= 0xffff_ffff,
        ;
        let from: u64 = y as u64 * raw.stride as u64;
        if from > size {
            assert(starts_past(*raw, y as int));
            return Err(DngError::Short(y as usize));
        }
        assert(!starts_past(*raw, y as int));
        if !(l.bits == 8 || !l.packed || l.bits == 10 || l.bits == 12) {
            return Err(DngError::UnsupportedLayout);
        }
        let start: usize = from as usize;
        let ghost row = row_of(*raw, y as int);
        let ghost all = row_pixels(*l, row, raw.width as nat);
        let ghost before = out@;
        let mut x: u32 = 0;
        assert(row =~= raw.data@.subrange(start as int, start + row.len()));
        assert(before + all.take(0) =~= before);
        while x < raw.width
            invariant
                x <= raw.width,
                readable(*l),
                start + row.len() <= raw.data.len(),
                row == raw.data@.subrange(start as int, start + row.len()),
                row_bytes(*l, raw.width as int) <= row.len(),
                all == row_pixels(*l, row, raw.width as nat),
                out@ == before + all.take(x as int),
            decreases raw.width - x,
        {
            out.push(read_pixel(l, &raw.data, start, x as usize, Ghost(row), Ghost(raw.width as int)));
            assert(out@ =~= before + all.take(x + 1));
            x = x + 1;
        }
        assert(all.take(x as int) =~= all);
        y = y + 1;
    }
    Ok(out)
}

proof fn lemma_pixel_count(raw: RawImage, l: Layout, n: nat)
    ensures
        pixels(raw, l, n).len() == n * raw.width,
    decreases n,
{
    if n > 0 {
        lemma_pixel_count(raw, l, (n - 1) as nat);
        assert((n - 1) * raw.width + raw.width == n * raw.width) by (nonlinear_arith);
    } else {
        assert(0 * raw.width == 0) by (nonlinear_arith);
    }
}

/// Pixel (x, y) stands at `y * width + x`.
pub proof fn law_pixels_stand_in_rows(raw: RawImage, l: Layout, n: nat, x: int, y: int)
    requires
        0 <= x < raw.width,
        0 <= y < n,
    ensures
        0 <= y * raw.width + x < pixels(raw, l, n).len(),
        pixels(raw, l, n).len() == n * raw.width,
        pixels(raw, l, n)[y * raw.width + x] == pixel(l, row_of(raw, y), x) as u16,
    decreases n,
{
    let m = (n - 1) as nat;
    lemma_pixel_count(raw, l, n);
    lemma_pixel_count(raw, l, m);
    assert(m * raw.width + raw.width == n * raw.width) by (nonlinear_arith)
        requires
            m == n - 1,
    ;
    if y < m {
        law_pixels_stand_in_rows(raw, l, m, x, y);
    } else {
        assert(y * raw.width >= 0) by (nonlinear_arith)
            requires
                y >= 0,
        ;
    }
}

/// A pixel of 8, 10 or 12 packed bits stays below the white level.
pub proof fn law_pixels_fit_their_bits(l: Layout, row: Seq<u8>, x: int)
    requires
        l.bits == 8 || (l.packed && (l.bits == 10 || l.bits == 12)),
    ensures
        0 <= pixel(l, row, x) < pow2(l.bits as nat),
{
    lemma2_to64();
}

/// A group of four 10-bit pixels, packed: the high bits of each, then the low
/// bits of all.
pub open spec fn packed10(p: Seq<int>) -> Seq<u8> {
    seq![
        (p[0] / 4) as u8,
        (p[1] / 4) as u8,
        (p[2] / 4) as u8,
        (p[3] / 4) as u8,
        (p[0] % 4 + 4 * (p[1] % 4) + 16 * (p[2] % 4) + 64 * (p[3] % 4)) as u8,
    ]
}

/// A pair of 12-bit pixels, packed.
pub open spec fn packed12(p: Seq<int>) -> Seq<u8> {
    seq![(p[0] / 16) as u8, (p[1] / 16) as u8, (p[0] % 16 + 16 * (p[1] % 16)) as u8]
}

/// Unpacking gives back what was packed, wherever the group stands in its
/// row.
pub proof fn law_packed_pixels_come_back(l: Layout, row: Seq<u8>, group: int, p: Seq<int>, i: int)
    requires
        l.packed,
        0 <= group,
        l.bits == 10 ==> {
            &&& p.len() == 4
            &&& forall|j: int| 0 <= j < 4 ==> 0 <= #[trigger] p[j] < 1024
            &&& row.len() >= 5 * group + 5
            &&& row.subrange(5 * group, 5 * group + 5) == packed10(p)
        },
        l.bits == 12 ==> {
            &&& p.len() == 2
            &&& forall|j: int| 0 <= j < 2 ==> 0 <= #[trigger] p[j] < 4096
            &&& row.len() >= 3 * group + 3
            &&& row.subrange(3 * group, 3 * group + 3) == packed12(p)
        },
        l.bits == 10 || l.bits == 12,
        0 <= i < p.len(),
    ensures
        pixel(l, row, group * p.len() + i) == p[i],
{
    if l.bits == 10 {
        lemma_group10(l, row, group, p, i);
    } else {
        lemma_pair12(l, row, group, p, i);
    }
}

#[verifier::spinoff_prover]
proof fn lemma_low_bits(a: int, b: int, c: int, d: int)
    requires
        0 <= a < 4,
        0 <= b < 4,
        0 <= c < 4,
        0 <= d < 4,
    ensures
        (a + 4 * b + 16 * c + 64 * d) % 4 == a,
        (a + 4 * b + 16 * c + 64 * d) / 4 % 4 == b,
        (a + 4 * b + 16 * c + 64 * d) / 16 % 4 == c,
        (a + 4 * b + 16 * c + 64 * d) / 64 % 4 == d,
        0 <= a + 4 * b + 16 * c + 64 * d < 256,
{
    let t = a + 4 * b + 16 * c + 64 * d;
    assert(t == 4 * (b + 4 * c + 16 * d) + a);
    assert(t / 4 == b + 4 * c + 16 * d);
    assert(t / 16 == c + 4 * d);
    assert(t / 64 == d);
}

#[verifier::spinoff_prover]
proof fn lemma_group10(l: Layout, row: Seq<u8>, group: int, p: Seq<int>, i: int)
    requires
        l.packed,
        l.bits == 10,
        0 <= group,
        p.len() == 4,
        forall|j: int| 0 <= j < 4 ==> 0 <= #[trigger] p[j] < 1024,
        row.len() >= 5 * group + 5,
        row.subrange(5 * group, 5 * group + 5) == packed10(p),
        0 <= i < 4,
    ensures
        pixel(l, row, group * 4 + i) == p[i],
{
    let x = group * 4 + i;
    let g = row.subrange(5 * group, 5 * group + 5);
    assert(x / 4 == group && x % 4 == i);
    assert(g[i] == row[5 * group + i]);
    assert(g[4] == row[5 * group + 4]);
    assert(0 <= p[0] < 1024 && 0 <= p[1] < 1024 && 0 <= p[2] < 1024 && 0 <= p[3] < 1024);
    lemma_low_bits(p[0] % 4, p[1] % 4, p[2] % 4, p[3] % 4);
    let low = p[0] % 4 + 4 * (p[1] % 4) + 16 * (p[2] % 4) + 64 * (p[3] % 4);
    assert(g[4] == low);
    assert(g[i] == p[i] / 4);
    if i == 0 {
        assert(low / quarter_shift(i) % 4 == p[0] % 4);
    } else if i == 1 {
        assert(low / quarter_shift(i) % 4 == p[1] % 4);
    } else if i == 2 {
        assert(low / quarter_shift(i) % 4 == p[2] % 4);
    } else {
        assert(low / quarter_shift(i) % 4 == p[3] % 4);
    }
}

proof fn lemma_pair12(l: Layout, row: Seq<u8>, group: int, p: Seq<int>, i: int)
    requires
        l.packed,
        l.bits == 12,
        0 <= group,
        p.len() == 2,
        forall|j: int| 0 <= j < 2 ==> 0 <= #[trigger] p[j] < 4096,
        row.len() >= 3 * group + 3,
        row.subrange(3 * group, 3 * group + 3) == packed12(p),
        0 <= i < 2,
    ensures
        pixel(l, row, group * 2 + i) == p[i],
{
    let x = group * 2 + i;
    let g = row.subrange(3 * group, 3 * group + 3);
    assert(x / 2 == group && x % 2 == i);
    assert(g[i] == row[3 * group + i]);
    assert(g[2] == row[3 * group + 2]);
    assert(0 <= p[0] < 4096 && 0 <= p[1] < 4096);
}

/// A 16-bit number, low byte first.
pub open spec fn le16(x: int) -> Seq<u8> {
    seq![(x % 256) as u8, (x / 256 % 256) as u8]
}

/// A 32-bit number, low byte first.
pub open spec fn le32(x: int) -> Seq<u8> {
    seq![(x % 256) as u8, (x / 256 % 256) as u8, (x / 0x1_0000 % 256) as u8, (x / 0x100_0000 % 256) as u8]
}

/// The number that four bytes hold, low byte first.
pub open spec fn from_le32(b: Seq<u8>) -> int {
    b[0] + 256 * b[1] + 0x1_0000 * b[2] + 0x100_0000 * b[3]
}

/// Four bytes give back the number they were made from.
pub proof fn law_le32_reads_back(x: int)
    requires
        0 <= x <= u32::MAX,
    ensures
        le32(x).len() == 4,
        from_le32(le32(x)) == x,
{
}

/// A signed number as 32 bits hold it.
pub open spec fn twos(x: int) -> int {
    if x < 0 {
        x + 0x1_0000_0000
    } else {
        x
    }
}

fn push16(out: &mut Vec<u8>, x: u16)
    ensures
        final(out)@ == old(out)@ + le16(x as int),
{
    out.push((x % 256) as u8);
    out.push((x / 256) as u8);
    assert(out@ =~= old(out)@ + le16(x as int));
}

fn push32(out: &mut Vec<u8>, x: u32)
    ensures
        final(out)@ == old(out)@ + le32(x as int),
{
    out.push((x % 256) as u8);
    out.push((x / 256 % 256) as u8);
    out.push((x / 0x1_0000 % 256) as u8);
    out.push((x / 0x100_0000) as u8);
    assert(out@ =~= old(out)@ + le32(x as int));
}

fn push_all(out: &mut Vec<u8>, v: &[u8])
    ensures
        final(out)@ == old(out)@ + v@,
{
    out.extend_from_slice(v);
    assert(out@ =~= old(out)@ + v@);
}

/// One entry of an image file directory.
#[derive(Debug)]
pub struct Field {
    pub tag: u16,
    pub ty: u16,
    pub count: u32,
    pub value: Vec<u8>,
}

/// A [`Field`] as plain sequences.
#[verifier::ext_equal]
pub struct Entry {
    pub tag: u16,
    pub ty: u16,
    pub count: u32,
    pub value: Seq<u8>,
}

impl View for Field {
    type V = Entry;

    open spec fn view(&self) -> Entry {
        Entry { tag: self.tag, ty: self.ty, count: self.count, value: self.value@ }
    }
}

/// An image file directory.
#[derive(Debug)]
pub struct Ifd {
    pub entries: Vec<Field>,
}

impl View for Ifd {
    type V = Seq<Entry>;

    open spec fn view(&self) -> Seq<Entry> {
        self.entries@.map_values(|f: Field| f@)
    }
}

/// All of `v`, low byte first.
pub open spec fn all16(v: Seq<u16>) -> Seq<u8>
    decreases v.len(),
{
    if v.len() == 0 {
        Seq::empty()
    } else {
        all16(v.drop_last()) + le16(v.last() as int)
    }
}

pub open spec fn all32(v: Seq<u32>) -> Seq<u8>
    decreases v.len(),
{
    if v.len() == 0 {
        Seq::empty()
    } else {
        all32(v.drop_last()) + le32(v.last() as int)
    }
}

/// Denominator of all fractions written.
pub const MILLION: u32 = 1_000_000;

/// Fractions of a million, numerator before denominator.
pub open spec fn fractions(v: Seq<u32>) -> Seq<u8>
    decreases v.len(),
{
    if v.len() == 0 {
        Seq::empty()
    } else {
        fractions(v.drop_last()) + (le32(v.last() as int) + le32(MILLION as int))
    }
}

pub open spec fn signed_fractions(v: Seq<i32>) -> Seq<u8>
    decreases v.len(),
{
    if v.len() == 0 {
        Seq::empty()
    } else {
        signed_fractions(v.drop_last()) + (le32(twos(v.last() as int)) + le32(MILLION as int))
    }
}

pub open spec fn short_entry(tag: u16, v: Seq<u16>) -> Entry {
    Entry { tag, ty: 3, count: v.len() as u32, value: all16(v) }
}

pub open spec fn long_entry(tag: u16, v: Seq<u32>) -> Entry {
    Entry { tag, ty: 4, count: v.len() as u32, value: all32(v) }
}

pub open spec fn byte_entry(tag: u16, v: Seq<u8>) -> Entry {
    Entry { tag, ty: 1, count: v.len() as u32, value: v }
}

/// Text ends with a zero byte.
pub open spec fn ascii_entry(tag: u16, s: Seq<char>) -> Entry {
    let b = vstd::utf8::encode_utf8(s).push(0);
    Entry { tag, ty: 2, count: b.len() as u32, value: b }
}

pub open spec fn rational_entry(tag: u16, v: Seq<u32>) -> Entry {
    Entry { tag, ty: 5, count: v.len() as u32, value: fractions(v) }
}

pub open spec fn srational_entry(tag: u16, v: Seq<i32>) -> Entry {
    Entry { tag, ty: 10, count: v.len() as u32, value: signed_fractions(v) }
}

/// What of an entry's value stands outside the directory: all of it where it
/// does not fit the entry, made even.
pub open spec fn spill(e: Entry) -> Seq<u8> {
    if e.value.len() <= 4 {
        Seq::empty()
    } else if e.value.len() % 2 == 1 {
        e.value.push(0)
    } else {
        e.value
    }
}

pub open spec fn spilled(entries: Seq<Entry>) -> Seq<u8>
    decreases entries.len(),
{
    if entries.len() == 0 {
        Seq::empty()
    } else {
        spilled(entries.drop_last()) + spill(entries.last())
    }
}

/// `n` zero bytes.
pub open spec fn zeros(n: int) -> Seq<u8> {
    Seq::new(n as nat, |i: int| 0u8)
}

/// The twelve bytes of an entry; `at` is where a value that does not fit
/// stands.
pub open spec fn head(e: Entry, at: int) -> Seq<u8> {
    le16(e.tag as int) + le16(e.ty as int) + le32(e.count as int) + if e.value.len() <= 4 {
        e.value + zeros(4 - e.value.len())
    } else {
        le32(at)
    }
}

/// The entries' bytes, values that do not fit from `at` on.
pub open spec fn heads(entries: Seq<Entry>, at: int) -> Seq<u8>
    decreases entries.len(),
{
    if entries.len() == 0 {
        Seq::empty()
    } else {
        heads(entries.drop_last(), at) + head(entries.last(), at + spilled(entries.drop_last()).len())
    }
}

/// Where values that do not fit start, in a directory of `n` entries.
pub open spec fn spill_start(offset: int, n: int) -> int {
    offset + 2 + 12 * n + 4
}

/// A directory as it stands in the file at `offset`.
pub open spec fn serialised(entries: Seq<Entry>, offset: int, next: int) -> Seq<u8> {
    le16(entries.len() as int % 0x1_0000) + heads(entries, spill_start(offset, entries.len() as int)) + le32(next) + spilled(
        entries,
    )
}

/// How many bytes a directory takes.
pub open spec fn directory_size(entries: Seq<Entry>) -> int {
    spill_start(0, entries.len() as int) + spilled(entries).len()
}

/// Where an entry of this tag goes among ordered ones: before the first with
/// a higher tag.
pub open spec fn tag_place(s: Seq<Entry>, tag: u16) -> int
    decreases s.len(),
{
    if s.len() == 0 || s[0].tag > tag {
        0
    } else {
        1 + tag_place(s.drop_first(), tag)
    }
}

/// The entries in the order of their tags.
pub open spec fn by_tag(s: Seq<Entry>) -> Seq<Entry>
    decreases s.len(),
{
    if s.len() == 0 {
        s
    } else {
        let rest = by_tag(s.drop_last());
        rest.insert(tag_place(rest, s.last().tag), s.last())
    }
}

pub open spec fn tags_rise(s: Seq<Entry>) -> bool {
    forall|i: int, j: int| 0 <= i <= j < s.len() ==> (#[trigger] s[i]).tag <= (#[trigger] s[j]).tag
}

proof fn lemma_tag_place(s: Seq<Entry>, tag: u16)
    ensures
        0 <= tag_place(s, tag) <= s.len(),
        forall|i: int| 0 <= i < tag_place(s, tag) ==> (#[trigger] s[i]).tag <= tag,
        tag_place(s, tag) < s.len() ==> s[tag_place(s, tag)].tag > tag,
    decreases s.len(),
{
    if s.len() > 0 && s[0].tag <= tag {
        let t = s.drop_first();
        lemma_tag_place(t, tag);
        assert forall|i: int| 0 <= i < tag_place(s, tag) implies (#[trigger] s[i]).tag <= tag by {
            if i > 0 {
                assert(t[i - 1].tag <= tag);
            }
        }
    }
}

proof fn lemma_tag_place_is(s: Seq<Entry>, tag: u16, n: int)
    requires
        0 <= n <= s.len(),
        forall|i: int| 0 <= i < n ==> (#[trigger] s[i]).tag <= tag,
        n < s.len() ==> s[n].tag > tag,
    ensures
        tag_place(s, tag) == n,
{
    lemma_tag_place(s, tag);
    if n < tag_place(s, tag) {
        assert(s[n].tag <= tag);
    }
    if tag_place(s, tag) < n {
        assert(s[tag_place(s, tag)].tag <= tag);
    }
}

/// Ordering a directory keeps its entries and puts their tags in order.
pub proof fn law_by_tag_orders(s: Seq<Entry>)
    ensures
        by_tag(s).to_multiset() == s.to_multiset(),
        by_tag(s).len() == s.len(),
        tags_rise(by_tag(s)),
    decreases s.len(),
{
    broadcast use vstd::seq_lib::group_to_multiset_ensures;

    if s.len() > 0 {
        let t = s.drop_last();
        let e = s.last();
        law_by_tag_orders(t);
        let r = by_tag(t);
        let n = tag_place(r, e.tag);
        lemma_tag_place(r, e.tag);
        assert(s =~= t.push(e));
        assert(r.insert(n, e).to_multiset() =~= r.to_multiset().insert(e)) by {
            vstd::seq_lib::to_multiset_insert(r, n, e);
        }
        let w = r.insert(n, e);
        assert forall|i: int, j: int| 0 <= i <= j < w.len() implies (#[trigger] w[i]).tag <= (#[trigger] w[j]).tag by {
            if j == n {
                if i < n {
                    assert(r[i].tag <= e.tag);
                }
            } else if i == n {
                assert(r[n].tag <= r[j - 1].tag);
            } else {
                let (a, b) = (if i < n { i } else { i - 1 }, if j < n { j } else { j - 1 });
                assert(r[a].tag <= r[b].tag);
            }
        }
    }
}

/// The entries of one tag.
pub open spec fn of_tag(s: Seq<Entry>, tag: u16) -> Seq<Entry>
    decreases s.len(),
{
    if s.len() == 0 {
        s
    } else if s.last().tag == tag {
        of_tag(s.drop_last(), tag).push(s.last())
    } else {
        of_tag(s.drop_last(), tag)
    }
}

/// An entry put among others comes last of its tag, where all that follow
/// have higher ones, and leaves those of another tag as they were.
proof fn lemma_of_tag_insert(s: Seq<Entry>, n: int, e: Entry, tag: u16)
    requires
        0 <= n <= s.len(),
        forall|i: int| n <= i < s.len() ==> (#[trigger] s[i]).tag > e.tag,
    ensures
        of_tag(s.insert(n, e), tag) == if e.tag == tag {
            of_tag(s, tag).push(e)
        } else {
            of_tag(s, tag)
        },
    decreases s.len(),
{
    let w = s.insert(n, e);
    if n == s.len() {
        assert(w.drop_last() =~= s);
    } else {
        let t = s.drop_last();
        assert(s[s.len() - 1].tag > e.tag);
        lemma_of_tag_insert(t, n, e, tag);
        assert(w.drop_last() =~= t.insert(n, e));
        assert(w.last() == s.last());
    }
}

/// Ordering a directory leaves entries of the same tag in the order they
/// were added in.
pub proof fn law_order_is_stable(s: Seq<Entry>, tag: u16)
    ensures
        of_tag(by_tag(s), tag) == of_tag(s, tag),
    decreases s.len(),
{
    if s.len() > 0 {
        let (t, e) = (s.drop_last(), s.last());
        let r = by_tag(t);
        let n = tag_place(r, e.tag);
        law_order_is_stable(t, tag);
        law_by_tag_orders(t);
        lemma_tag_place(r, e.tag);
        assert forall|i: int| n <= i < r.len() implies (#[trigger] r[i]).tag > e.tag by {
            assert(r[n].tag <= r[i].tag);
        }
        lemma_of_tag_insert(r, n, e, tag);
    }
}

proof fn lemma_spilled_insert(s: Seq<Entry>, n: int, e: Entry)
    requires
        0 <= n <= s.len(),
    ensures
        spilled(s.insert(n, e)).len() == spilled(s).len() + spill(e).len(),
    decreases s.len(),
{
    let w = s.insert(n, e);
    if n == s.len() {
        assert(w.drop_last() =~= s);
    } else {
        lemma_spilled_insert(s.drop_last(), n, e);
        assert(w.drop_last() =~= s.drop_last().insert(n, e));
    }
}

/// Ordering a directory does not change its size.
pub proof fn law_order_keeps_size(s: Seq<Entry>)
    ensures
        directory_size(by_tag(s)) == directory_size(s),
    decreases s.len(),
{
    law_by_tag_orders(s);
    lemma_spilled_by_tag(s);
}

proof fn lemma_spilled_by_tag(s: Seq<Entry>)
    ensures
        spilled(by_tag(s)).len() == spilled(s).len(),
    decreases s.len(),
{
    if s.len() > 0 {
        let r = by_tag(s.drop_last());
        lemma_spilled_by_tag(s.drop_last());
        lemma_tag_place(r, s.last().tag);
        lemma_spilled_insert(r, tag_place(r, s.last().tag), s.last());
    }
}

proof fn lemma_heads(entries: Seq<Entry>, at: int)
    ensures
        heads(entries, at).len() == 12 * entries.len(),
    decreases entries.len(),
{
    if entries.len() > 0 {
        lemma_heads(entries.drop_last(), at);
    }
}

/// A directory takes as many bytes as its size says.
pub proof fn law_size_is_length(entries: Seq<Entry>, offset: int, next: int)
    ensures
        serialised(entries, offset, next).len() == directory_size(entries),
{
    lemma_heads(entries, spill_start(offset, entries.len() as int));
}

/// Where the value of entry `i` stands, in a directory at `offset`.
pub open spec fn value_at(entries: Seq<Entry>, offset: int, i: int) -> int {
    if entries[i].value.len() <= 4 {
        offset + 2 + 12 * i + 8
    } else {
        spill_start(offset, entries.len() as int) + spilled(entries.take(i)).len()
    }
}

proof fn lemma_head_at(entries: Seq<Entry>, at: int, i: int)
    requires
        0 <= i < entries.len(),
    ensures
        heads(entries, at).len() == 12 * entries.len(),
        heads(entries, at).subrange(12 * i, 12 * i + 12) == head(entries[i], at + spilled(entries.take(i)).len()),
    decreases entries.len(),
{
    lemma_heads(entries, at);
    lemma_heads(entries.drop_last(), at);
    if i == entries.len() - 1 {
        assert(entries.take(i) =~= entries.drop_last());
        assert(heads(entries, at).subrange(12 * i, 12 * i + 12) =~= head(entries[i], at + spilled(entries.take(i)).len()));
    } else {
        lemma_head_at(entries.drop_last(), at, i);
        assert(entries.drop_last().take(i) =~= entries.take(i));
        assert(heads(entries, at).subrange(12 * i, 12 * i + 12) =~= heads(entries.drop_last(), at).subrange(
            12 * i,
            12 * i + 12,
        ));
    }
}

proof fn lemma_spill_at(entries: Seq<Entry>, i: int)
    requires
        0 <= i < entries.len(),
    ensures
        spilled(entries.take(i)).len() + spill(entries[i]).len() <= spilled(entries).len(),
        spilled(entries).subrange(
            spilled(entries.take(i)).len() as int,
            (spilled(entries.take(i)).len() + spill(entries[i]).len()) as int,
        ) == spill(entries[i]),
    decreases entries.len(),
{
    let from = spilled(entries.take(i)).len() as int;
    let to = from + spill(entries[i]).len();
    if i == entries.len() - 1 {
        assert(entries.take(i) =~= entries.drop_last());
        assert(spilled(entries).subrange(from, to) =~= spill(entries[i]));
    } else {
        lemma_spill_at(entries.drop_last(), i);
        assert(entries.drop_last().take(i) =~= entries.take(i));
        assert(spilled(entries).subrange(from, to) =~= spilled(entries.drop_last()).subrange(from, to));
    }
}

/// Every entry stands in the directory at its place, with its tag, type and
/// count, and its value stands where the entry says, filled up with zeros
/// where it is short.
pub proof fn law_values_stand_where_told(entries: Seq<Entry>, offset: int, next: int, i: int)
    requires
        0 <= i < entries.len(),
        0 <= offset,
        offset + directory_size(entries) <= u32::MAX,
    ensures
        ({
            let b = serialised(entries, offset, next);
            let e = entries[i];
            let at = value_at(entries, offset, i);
            &&& b.subrange(2 + 12 * i, 2 + 12 * i + 8) == le16(e.tag as int) + le16(e.ty as int) + le32(e.count as int)
            &&& e.value.len() > 4 ==> b.subrange(2 + 12 * i + 8, 2 + 12 * i + 12) == le32(at)
            &&& e.value.len() <= 4 ==> b.subrange(2 + 12 * i + 8, 2 + 12 * i + 12) == e.value + zeros(4 - e.value.len())
            &&& offset <= at
            &&& at - offset + e.value.len() <= b.len()
            &&& b.subrange(at - offset, at - offset + e.value.len()) == e.value
        }),
{
    let n = entries.len() as int;
    let start = spill_start(offset, n);
    let b = serialised(entries, offset, next);
    let e = entries[i];
    let at = value_at(entries, offset, i);
    let hs = heads(entries, start);
    let told = start + spilled(entries.take(i)).len();
    lemma_head_at(entries, start, i);
    lemma_spill_at(entries, i);
    law_size_is_length(entries, offset, next);
    let h = hs.subrange(12 * i, 12 * i + 12);
    assert(b.subrange(2 + 12 * i, 2 + 12 * i + 12) =~= h);
    assert(h == head(e, told));
    assert(b.subrange(2 + 12 * i, 2 + 12 * i + 8) =~= h.subrange(0, 8));
    assert(h.subrange(0, 8) =~= le16(e.tag as int) + le16(e.ty as int) + le32(e.count as int));
    assert(b.subrange(2 + 12 * i + 8, 2 + 12 * i + 12) =~= h.subrange(8, 12));
    if e.value.len() > 4 {
        assert(h.subrange(8, 12) =~= le32(told));
        let from = spilled(entries.take(i)).len() as int;
        let sp = spilled(entries);
        assert(sp.subrange(from, from + spill(e).len()) == spill(e));
        assert(b.subrange(at - offset, at - offset + e.value.len()) =~= sp.subrange(from, from + spill(e).len()).take(
            e.value.len() as int,
        ));
        assert(spill(e).take(e.value.len() as int) =~= e.value);
    } else {
        assert(b.subrange(at - offset, at - offset + e.value.len()) =~= h.subrange(8, (8 + e.value.len()) as int));
        assert(h.subrange(8, (8 + e.value.len()) as int) =~= e.value);
        assert(h.subrange(8, 12) =~= e.value + zeros(4 - e.value.len()));
    }
}

/// A directory starts with the number of its entries, and says after them
/// where the next one stands.
#[verifier::spinoff_prover]
pub proof fn law_directory_is_framed(entries: Seq<Entry>, offset: int, next: int)
    requires
        entries.len() <= 0xffff,
    ensures
        ({
            let b = serialised(entries, offset, next);
            let n = entries.len() as int;
            &&& b.subrange(0, 2) == le16(n)
            &&& b.subrange(2 + 12 * n, 2 + 12 * n + 4) == le32(next)
        }),
{
    let n = entries.len() as int;
    let hs = heads(entries, spill_start(offset, n));
    lemma_heads(entries, spill_start(offset, n));
    lemma_parts(le16(n), hs, le32(next), spilled(entries));
}

/// The first and the third of four parts stand where the lengths say.
proof fn lemma_parts(a: Seq<u8>, b: Seq<u8>, c: Seq<u8>, d: Seq<u8>)
    ensures
        (a + b + c + d).subrange(0, a.len() as int) == a,
        (a + b + c + d).subrange((a.len() + b.len()) as int, (a.len() + b.len() + c.len()) as int) == c,
{
    assert((a + b + c + d).subrange(0, a.len() as int) =~= a);
    assert((a + b + c + d).subrange((a.len() + b.len()) as int, (a.len() + b.len() + c.len()) as int) =~= c);
}

proof fn lemma_spilled_even(entries: Seq<Entry>)
    ensures
        spilled(entries).len() % 2 == 0,
    decreases entries.len(),
{
    if entries.len() > 0 {
        lemma_spilled_even(entries.drop_last());
    }
}

/// Values stand at even places of their directory, and apart from each other.
pub proof fn law_values_stand_apart(entries: Seq<Entry>, offset: int, i: int, j: int)
    requires
        0 <= i < entries.len(),
        0 <= j < entries.len(),
        i != j,
    ensures
        (value_at(entries, offset, i) - offset) % 2 == 0,
        ({
            let (a, b) = (value_at(entries, offset, i), value_at(entries, offset, j));
            a + entries[i].value.len() <= b || b + entries[j].value.len() <= a
        }),
{
    lemma_spilled_even(entries.take(i));
    if i < j {
        assert(entries.take(j).take(i) =~= entries.take(i));
        lemma_spill_at(entries.take(j), i);
    } else {
        assert(entries.take(i).take(j) =~= entries.take(j));
        lemma_spill_at(entries.take(i), j);
    }
}

impl Ifd {
    pub fn new() -> (ifd: Ifd)
        ensures
            ifd@ == Seq::<Entry>::empty(),
    {
        let ifd = Ifd { entries: Vec::new() };
        assert(ifd@ =~= Seq::empty());
        ifd
    }

    /// Add an entry.
    pub fn add(&mut self, tag: u16, ty: u16, count: usize, bytes: Vec<u8>)
        requires
            count <= u32::MAX,
        ensures
            final(self)@ == old(self)@.push(Entry { tag, ty, count: count as u32, value: bytes@ }),
    {
        let ghost e = Entry { tag, ty, count: count as u32, value: bytes@ };
        self.entries.push(Field { tag, ty, count: count as u32, value: bytes });
        assert(self@ =~= old(self)@.push(e));
    }

    pub fn short(&mut self, tag: u16, v: &[u16])
        requires
            v@.len() <= u32::MAX,
        ensures
            final(self)@ == old(self)@.push(short_entry(tag, v@)),
    {
        let mut b: Vec<u8> = Vec::new();
        let mut i: usize = 0;
        assert(v@.take(0).len() == 0);
        while i < v.len()
            invariant
                i <= v@.len(),
                b@ == all16(v@.take(i as int)),
            decreases v@.len() - i,
        {
            assert(v@.take(i + 1).drop_last() =~= v@.take(i as int));
            push16(&mut b, v[i]);
            i = i + 1;
        }
        assert(v@.take(i as int) =~= v@);
        crate::dng::Ifd::add(self, tag, 3, v.len(), b);
    }

    pub fn long(&mut self, tag: u16, v: &[u32])
        requires
            v@.len() <= u32::MAX,
        ensures
            final(self)@ == old(self)@.push(long_entry(tag, v@)),
    {
        let mut b: Vec<u8> = Vec::new();
        let mut i: usize = 0;
        assert(v@.take(0).len() == 0);
        while i < v.len()
            invariant
                i <= v@.len(),
                b@ == all32(v@.take(i as int)),
            decreases v@.len() - i,
        {
            assert(v@.take(i + 1).drop_last() =~= v@.take(i as int));
            push32(&mut b, v[i]);
            i = i + 1;
        }
        assert(v@.take(i as int) =~= v@);
        crate::dng::Ifd::add(self, tag, 4, v.len(), b);
    }

    pub fn byte(&mut self, tag: u16, v: &[u8])
        requires
            v@.len() <= u32::MAX,
        ensures
            final(self)@ == old(self)@.push(byte_entry(tag, v@)),
    {
        let b: Vec<u8> = vstd::slice::slice_to_vec(v);
        crate::dng::Ifd::add(self, tag, 1, v.len(), b);
    }

    pub fn ascii(&mut self, tag: u16, s: &str)
        requires
            vstd::utf8::encode_utf8(s@).len() < u32::MAX,
        ensures
            final(self)@ == old(self)@.push(ascii_entry(tag, s@)),
    {
        let mut b: Vec<u8> = vstd::slice::slice_to_vec(s.as_bytes());
        b.push(0);
        let n: usize = b.len();
        crate::dng::Ifd::add(self, tag, 2, n, b);
    }

    /// Fractions, by their numerators over a million.
    pub fn rational(&mut self, tag: u16, v: &[u32])
        requires
            v@.len() <= u32::MAX,
        ensures
            final(self)@ == old(self)@.push(rational_entry(tag, v@)),
    {
        let mut b: Vec<u8> = Vec::new();
        let mut i: usize = 0;
        assert(v@.take(0).len() == 0);
        while i < v.len()
            invariant
                i <= v@.len(),
                b@ == fractions(v@.take(i as int)),
            decreases v@.len() - i,
        {
            assert(v@.take(i + 1).drop_last() =~= v@.take(i as int));
            let ghost before = b@;
            push32(&mut b, v[i]);
            push32(&mut b, MILLION);
            assert(b@ =~= before + (le32(v@[i as int] as int) + le32(MILLION as int)));
            i = i + 1;
        }
        assert(v@.take(i as int) =~= v@);
        crate::dng::Ifd::add(self, tag, 5, v.len(), b);
    }

    /// Signed fractions, by their numerators over a million.
    pub fn srational(&mut self, tag: u16, v: &[i32])
        requires
            v@.len() <= u32::MAX,
        ensures
            final(self)@ == old(self)@.push(srational_entry(tag, v@)),
    {
        let mut b: Vec<u8> = Vec::new();
        let mut i: usize = 0;
        assert(v@.take(0).len() == 0);
        while i < v.len()
            invariant
                i <= v@.len(),
                b@ == signed_fractions(v@.take(i as int)),
            decreases v@.len() - i,
        {
            assert(v@.take(i + 1).drop_last() =~= v@.take(i as int));
            let ghost before = b@;
            let x: i64 = v[i] as i64;
            push32(&mut b, if x < 0 { (x + 0x1_0000_0000) as u32 } else { x as u32 });
            push32(&mut b, MILLION);
            assert(b@ =~= before + (le32(twos(v@[i as int] as int)) + le32(MILLION as int)));
            i = i + 1;
        }
        assert(v@.take(i as int) =~= v@);
        crate::dng::Ifd::add(self, tag, 10, v.len(), b);
    }

    /// How many bytes the directory takes.
    pub fn size(&self) -> (n: u32)
        requires
            directory_size(self@) <= u32::MAX,
        ensures
            n == directory_size(self@),
    {
        let mut n: u32 = 0;
        let mut i: usize = 0;
        let ghost all = self@;
        assert(all.take(0).len() == 0);
        while i < self.entries.len()
            invariant
                i <= self.entries@.len(),
                all == self@,
                directory_size(all) <= u32::MAX,
                n == spilled(all.take(i as int)).len(),
            decreases self.entries@.len() - i,
        {
            proof {
                assert(all.take(i + 1).drop_last() =~= all.take(i as int));
                lemma_spill_at(all, i as int);
                assert(all[i as int] == self.entries@[i as int]@);
            }
            let len: usize = self.entries[i].value.len();
            if len > 4 {
                n = n + (len + len % 2) as u32;
            }
            i = i + 1;
        }
        assert(all.take(i as int) =~= all);
        2 + 12 * self.entries.len() as u32 + 4 + n
    }

    /// Put the entries in the order of their tags.
    fn sort(&mut self)
        ensures
            final(self)@ == by_tag(old(self)@),
    {
        let ghost all = self@;
        let mut left: Vec<Field> = Vec::new();
        core::mem::swap(&mut left, &mut self.entries);
        let mut i: usize = 0;
        let ghost views = left@.map_values(|f: Field| f@);
        assert(views == all);
        assert(all.take(0).len() == 0);
        assert(self@ =~= Seq::empty());
        while i < left.len()
            invariant
                i <= left@.len(),
                all == left@.map_values(|f: Field| f@),
                self@ == by_tag(all.take(i as int)),
            decreases left@.len() - i,
        {
            let ghost e = left@[i as int]@;
            let ghost before = self@;
            let tag: u16 = left[i].tag;
            let mut n: usize = 0;
            while n < self.entries.len() && self.entries[n].tag <= tag
                invariant
                    n <= self.entries@.len(),
                    before == self@,
                    forall|j: int| 0 <= j < n ==> (#[trigger] before[j]).tag <= tag,
                decreases self.entries@.len() - n,
            {
                assert(before[n as int] == self.entries@[n as int]@);
                n = n + 1;
            }
            proof {
                if n < self.entries@.len() {
                    assert(before[n as int] == self.entries@[n as int]@);
                }
                lemma_tag_place_is(before, tag, n as int);
                assert(all.take(i + 1).drop_last() =~= all.take(i as int));
                assert(all.take(i + 1).last() == e);
            }
            let f: Field = Field {
                tag,
                ty: left[i].ty,
                count: left[i].count,
                value: vstd::slice::slice_to_vec(left[i].value.as_slice()),
            };
            assert(f@ == e);
            self.entries.insert(n, f);
            assert(self@ =~= before.insert(n as int, e));
            i = i + 1;
        }
        assert(all.take(i as int) =~= all);
    }

    /// Serialise at `offset`; values that do not fit an entry follow the
    /// directory.
    pub fn bytes(&mut self, offset: u32, next: u32) -> (b: Vec<u8>)
        requires
            offset + directory_size(old(self)@) <= u32::MAX,
        ensures
            final(self)@ == by_tag(old(self)@),
            b@ == serialised(by_tag(old(self)@), offset as int, next as int),
            b@.len() == directory_size(old(self)@),
    {
        proof {
            law_order_keeps_size(self@);
            law_by_tag_orders(self@);
        }
        self.sort();
        let ghost all = self@;
        let n: usize = self.entries.len();
        let start: u32 = offset + 2 + 12 * n as u32 + 4;
        let mut head_bytes: Vec<u8> = Vec::new();
        let mut extra: Vec<u8> = Vec::new();
        push16(&mut head_bytes, (n % 0x1_0000) as u16);
        let ghost first = le16(n as int % 0x1_0000);
        assert(head_bytes@ =~= first);
        let mut i: usize = 0;
        assert(all.take(0).len() == 0);
        assert(first + heads(all.take(0), start as int) =~= first);
        while i < n
            invariant
                i <= n,
                n == self.entries@.len(),
                all == self@,
                start == spill_start(offset as int, n as int),
                offset + directory_size(all) <= u32::MAX,
                first == le16(n as int % 0x1_0000),
                head_bytes@ == first + heads(all.take(i as int), start as int),
                extra@ == spilled(all.take(i as int)),
            decreases n - i,
        {
            let ghost e = all[i as int];
            let ghost before = head_bytes@;
            proof {
                assert(all.take(i + 1).drop_last() =~= all.take(i as int));
                lemma_spill_at(all, i as int);
                assert(e == self.entries@[i as int]@);
            }
            let f: &Field = &self.entries[i];
            push16(&mut head_bytes, f.tag);
            push16(&mut head_bytes, f.ty);
            push32(&mut head_bytes, f.count);
            let len: usize = f.value.len();
            let at: u32 = start + extra.len() as u32;
            let ghost told = at as int;
            let ghost middle = head_bytes@;
            if len <= 4 {
                push_all(&mut head_bytes, f.value.as_slice());
                let mut k: usize = len;
                while k < 4
                    invariant
                        len <= k <= 4,
                        head_bytes@ == middle + (e.value + zeros(k - len)),
                    decreases 4 - k,
                {
                    head_bytes.push(0);
                    assert(head_bytes@ =~= middle + (e.value + zeros(k + 1 - len)));
                    k = k + 1;
                }
            } else {
                push32(&mut head_bytes, at);
                push_all(&mut extra, f.value.as_slice());
                if len % 2 == 1 {
                    extra.push(0);
                }
            }
            assert(head_bytes@ =~= before + head(e, told));
            assert(head_bytes@ =~= first + heads(all.take(i + 1), start as int));
            assert(extra@ =~= spilled(all.take(i + 1)));
            i = i + 1;
        }
        assert(all.take(i as int) =~= all);
        push32(&mut head_bytes, next);
        push_all(&mut head_bytes, extra.as_slice());
        proof {
            law_size_is_length(all, offset as int, next as int);
        }
        head_bytes
    }
}

/// What a raw developer is told besides the image. The fractions are
/// numerators over a million.
#[derive(Debug)]
pub struct Development {
    /// Exposure time in seconds.
    pub exposure: Option<u32>,
    pub iso: Option<u16>,
    /// From XYZ to the camera's colours, row by row.
    pub colour_matrix: [i32; 9],
    /// The white point in the camera's colours.
    pub neutral: [u32; 3],
    /// Local time, as "2026:01:31 12:00:00".
    pub datetime: String,
}

/// The row of a 2x2 cell's corner holds a red.
pub open spec fn on_red_row(cfa: Seq<u8>, pos: int) -> bool {
    cfa[pos - pos % 2] == 0 || cfa[pos - pos % 2 + 1] == 0
}

/// The channel of a 2x2 cell's corner, in the order red, green on red rows,
/// green on blue rows, blue.
pub open spec fn channel(cfa: Seq<u8>, pos: int) -> int {
    if cfa[pos] == 0 {
        0
    } else if cfa[pos] == 1 {
        if on_red_row(cfa, pos) {
            1
        } else {
            2
        }
    } else {
        3
    }
}

/// The black level at a corner. Levels are scaled to 16 bits, one per
/// channel; 0 where there is none.
pub open spec fn black_level(l: Layout, levels: Seq<Number>, pos: int) -> u32 {
    let c = channel(l.cfa@, pos);
    if c < levels.len() {
        (levels[c].whole() / pow2((16 - l.bits) as nat) as int) as u32
    } else {
        0
    }
}

pub open spec fn black_levels(l: Layout, levels: Seq<Number>) -> Seq<u32> {
    seq![black_level(l, levels, 0), black_level(l, levels, 1), black_level(l, levels, 2), black_level(l, levels, 3)]
}

/// The orientation tag that turns a buffer `rotation` degrees clockwise.
pub open spec fn orientation_tag(rotation: int) -> u16 {
    if rotation % 360 == 90 {
        6
    } else if rotation % 360 == 180 {
        3
    } else if rotation % 360 == 270 {
        8
    } else {
        1
    }
}

/// The levels a frame reports, under this name.
pub open spec fn sensor_levels(meta: Map<Seq<char>, Seq<Number>>) -> Seq<Number> {
    if meta.dom().contains("SensorBlackLevels"@) {
        meta["SensorBlackLevels"@]
    } else {
        Seq::empty()
    }
}

/// The exposure directory.
pub open spec fn exif_entries(d: Development) -> Seq<Entry> {
    (match d.exposure {
        Some(t) => seq![rational_entry(33434, seq![t])],
        None => Seq::empty(),
    }) + (match d.iso {
        Some(i) => seq![short_entry(34855, seq![i])],
        None => Seq::empty(),
    })
}

/// The entries on the image's size and layout.
pub open spec fn image_entries(raw: RawImage) -> Seq<Entry> {
    seq![
        long_entry(254, seq![0]),
        long_entry(256, seq![raw.width]),
        long_entry(257, seq![raw.height]),
        short_entry(258, seq![16]),
        short_entry(259, seq![1]),
        short_entry(262, seq![32803]),
        short_entry(277, seq![1]),
        long_entry(278, seq![raw.height]),
        long_entry(279, seq![(raw.width * raw.height * 2) as u32]),
        short_entry(284, seq![1]),
    ]
}

/// The entries on where the image comes from.
pub open spec fn origin_entries(model: Seq<char>, rotation: int, datetime: Seq<char>) -> Seq<Entry> {
    seq![
        ascii_entry(271, "Obscura"@),
        ascii_entry(272, model),
        short_entry(274, seq![orientation_tag(rotation)]),
        ascii_entry(305, "Obscura"@),
        ascii_entry(306, datetime),
        ascii_entry(50708, model),
    ]
}

/// The entries on how to develop the image.
pub open spec fn raw_entries(l: Layout, levels: Seq<Number>, d: Development) -> Seq<Entry> {
    seq![
        short_entry(33421, seq![2, 2]),
        byte_entry(33422, l.cfa@),
        byte_entry(50706, seq![1, 4, 0, 0]),
        byte_entry(50707, seq![1, 1, 0, 0]),
        short_entry(50713, seq![2, 2]),
        long_entry(50714, black_levels(l, levels)),
        long_entry(50717, seq![(pow2(l.bits as nat) - 1) as u32]),
        srational_entry(50721, d.colour_matrix@),
        rational_entry(50728, d.neutral@),
        short_entry(50778, seq![21]),
    ]
}

/// The main directory, without the two offsets.
#[verifier::opaque]
pub open spec fn main_entries(
    raw: RawImage,
    l: Layout,
    levels: Seq<Number>,
    model: Seq<char>,
    rotation: int,
    d: Development,
) -> Seq<Entry> {
    image_entries(raw) + origin_entries(model, rotation, d.datetime@) + raw_entries(l, levels, d)
}

/// Where the main directory stands.
pub const MAIN_AT: u32 = 8;

/// The offsets of the strip and of the exposure directory.
pub open spec fn offset_entries(strip_at: int, exif_at: int) -> Seq<Entry> {
    seq![long_entry(273, seq![strip_at as u32]), long_entry(34665, seq![exif_at as u32])]
}

/// Where the exposure directory stands, after a main directory.
pub open spec fn exif_place(main: Seq<Entry>) -> int {
    MAIN_AT + directory_size(main + offset_entries(0, 0))
}

/// Where the strip stands.
pub open spec fn strip_place(main: Seq<Entry>, exif: Seq<Entry>) -> int {
    exif_place(main) + directory_size(exif)
}

/// A whole file: the header, both directories and the strip.
pub open spec fn dng_file(main: Seq<Entry>, exif: Seq<Entry>, strip: Seq<u16>) -> Seq<u8> {
    seq![0x49u8, 0x49, 0x2a, 0] + le32(MAIN_AT as int) + serialised(
        by_tag(main + offset_entries(strip_place(main, exif), exif_place(main))),
        MAIN_AT as int,
        0,
    ) + serialised(by_tag(exif), exif_place(main), 0) + all16(strip)
}

proof fn lemma_all16_length(v: Seq<u16>)
    ensures
        all16(v).len() == 2 * v.len(),
    decreases v.len(),
{
    if v.len() > 0 {
        lemma_all16_length(v.drop_last());
    }
}

proof fn lemma_spilled_append(a: Seq<Entry>, b: Seq<Entry>)
    requires
        b.len() == 2,
    ensures
        spilled(a + b).len() == spilled(a).len() + spill(b[0]).len() + spill(b[1]).len(),
{
    let c = a.push(b[0]);
    assert((a + b).drop_last() =~= c);
    assert((a + b).last() == b[1]);
    assert(c.drop_last() =~= a);
    assert(spilled(c) == spilled(a) + spill(b[0]));
}

proof fn lemma_long_value(tag: u16, x: u32)
    ensures
        long_entry(tag, seq![x]).value == le32(x as int),
        long_entry(tag, seq![x]).value.len() == 4,
{
    assert(seq![x].drop_last().len() == 0);
    assert(all32(seq![x].drop_last()) =~= Seq::empty());
    assert(all32(seq![x]) =~= le32(x as int));
}

/// The size of the main directory does not depend on the offsets in it.
proof fn lemma_main_size(main: Seq<Entry>, strip_at: int, exif_at: int)
    ensures
        directory_size(main + offset_entries(strip_at, exif_at)) == directory_size(main + offset_entries(0, 0)),
{
    lemma_long_value(273, strip_at as u32);
    lemma_long_value(34665, exif_at as u32);
    lemma_long_value(273, 0);
    lemma_long_value(34665, 0);
    lemma_spilled_append(main, offset_entries(strip_at, exif_at));
    lemma_spilled_append(main, offset_entries(0, 0));
}

/// In a file, the exposure directory and the strip stand where the main
/// directory says, and the strip reaches to the end.
pub proof fn law_offsets_point_right(main: Seq<Entry>, exif: Seq<Entry>, strip: Seq<u16>)
    requires
        strip_place(main, exif) <= u32::MAX,
    ensures
        ({
            let f = dng_file(main, exif, strip);
            let (e, s) = (exif_place(main), strip_place(main, exif));
            &&& f.len() == s + 2 * strip.len()
            &&& f.subrange(MAIN_AT as int, e) == serialised(by_tag(main + offset_entries(s, e)), MAIN_AT as int, 0)
            &&& f.subrange(e, s) == serialised(by_tag(exif), e, 0)
            &&& f.skip(s) == all16(strip)
            &&& (main + offset_entries(s, e)).contains(long_entry(273, seq![s as u32]))
            &&& (main + offset_entries(s, e)).contains(long_entry(34665, seq![e as u32]))
        }),
{
    let (e, s) = (exif_place(main), strip_place(main, exif));
    let all = main + offset_entries(s, e);
    let f = dng_file(main, exif, strip);
    lemma_main_size(main, s, e);
    law_order_keeps_size(all);
    law_order_keeps_size(exif);
    let a = serialised(by_tag(all), MAIN_AT as int, 0);
    let b = serialised(by_tag(exif), e, 0);
    law_size_is_length(by_tag(all), MAIN_AT as int, 0);
    law_size_is_length(by_tag(exif), e, 0);
    lemma_all16_length(strip);
    assert(f.subrange(MAIN_AT as int, e) =~= a);
    assert(f.subrange(e, s) =~= b);
    assert(f.skip(s) =~= all16(strip));
    assert(all[main.len() as int] == long_entry(273, seq![s as u32]));
    assert(all[main.len() as int + 1] == long_entry(34665, seq![e as u32]));
}

/// All rows of the image can be read.
pub open spec fn unpacks(raw: RawImage, l: Layout) -> bool {
    &&& raw.height == 0 || readable(l)
    &&& forall|y: int| 0 <= y < raw.height ==> !(#[trigger] starts_past(raw, y))
}

/// What writing takes: rows that hold their pixels, and of an image that can
/// be read, a file that can be told.
pub open spec fn writable(
    raw: RawImage,
    l: Layout,
    levels: Seq<Number>,
    model: Seq<char>,
    rotation: int,
    d: Development,
) -> bool {
    &&& readable(l) ==> rows_whole(raw, l)
    &&& unpacks(raw, l) ==> file_fits(raw, l, levels, model, rotation, d)
}

/// Levels shift into place, and 32 bits can tell all sizes.
pub open spec fn file_fits(
    raw: RawImage,
    l: Layout,
    levels: Seq<Number>,
    model: Seq<char>,
    rotation: int,
    d: Development,
) -> bool {
    &&& l.bits < 32
    &&& levels.len() > 0 ==> l.bits <= 16
    &&& raw.width * raw.height * 2 <= u32::MAX
    &&& vstd::utf8::encode_utf8(model).len() < u32::MAX
    &&& vstd::utf8::encode_utf8(d.datetime@).len() < u32::MAX
    &&& strip_place(main_entries(raw, l, levels, model, rotation, d), exif_entries(d)) <= u32::MAX
}

fn level_at(l: &Layout, levels: &Vec<Number>, pos: usize) -> (level: u32)
    requires
        pos < 4,
        levels@.len() > 0 ==> l.bits <= 16,
    ensures
        level == black_level(*l, levels@, pos as int),
{
    let row: usize = pos - pos % 2;
    let c: usize = if l.cfa[pos] == 0 {
        0
    } else if l.cfa[pos] == 1 {
        if l.cfa[row] == 0 || l.cfa[row + 1] == 0 {
            1
        } else {
            2
        }
    } else {
        3
    };
    if c < levels.len() {
        let shift: u32 = 16 - l.bits;
        let d: u32 = two_to(shift);
        proof {
            lemma_pow2_pos(shift as nat);
        }
        levels[c].truncate() / d
    } else {
        0
    }
}

/// Two to the power of `n`.
fn two_to(n: u32) -> (p: u32)
    requires
        n < 32,
    ensures
        p == pow2(n as nat),
        p >= 1,
{
    let mut p: u32 = 1;
    let mut i: u32 = 0;
    proof {
        lemma2_to64();
    }
    while i < n
        invariant
            i <= n < 32,
            p == pow2(i as nat),
            p >= 1,
        decreases n - i,
    {
        proof {
            lemma_pow2_unfold((i + 1) as nat);
            lemma2_to64();
            if i + 1 < 31 {
                lemma_pow2_strictly_increases((i + 1) as nat, 31);
            }
        }
        p = 2 * p;
        i = i + 1;
    }
    p
}

proof fn lemma_all32_length(v: Seq<u32>)
    ensures
        all32(v).len() == 4 * v.len(),
    decreases v.len(),
{
    if v.len() > 0 {
        lemma_all32_length(v.drop_last());
    }
}

proof fn lemma_fractions_length(v: Seq<u32>)
    ensures
        fractions(v).len() == 8 * v.len(),
    decreases v.len(),
{
    if v.len() > 0 {
        lemma_fractions_length(v.drop_last());
    }
}

proof fn lemma_signed_length(v: Seq<i32>)
    ensures
        signed_fractions(v).len() == 8 * v.len(),
    decreases v.len(),
{
    if v.len() > 0 {
        lemma_signed_length(v.drop_last());
    }
}

/// A directory is at most as large as a bound on each value makes it.
proof fn lemma_spill_bound(entries: Seq<Entry>, bound: int)
    requires
        bound >= 4,
        forall|i: int| 0 <= i < entries.len() ==> (#[trigger] entries[i]).value.len() <= bound,
    ensures
        spilled(entries).len() <= entries.len() * (bound + 1),
    decreases entries.len(),
{
    if entries.len() > 0 {
        let t = entries.drop_last();
        assert forall|i: int| 0 <= i < t.len() implies (#[trigger] t[i]).value.len() <= bound by {
            assert(t[i] == entries[i]);
        }
        lemma_spill_bound(t, bound);
        assert(entries[entries.len() - 1].value.len() <= bound);
        assert((entries.len() - 1) * (bound + 1) + (bound + 1) == entries.len() * (bound + 1)) by (nonlinear_arith);
    } else {
        assert(0 * (bound + 1) == 0) by (nonlinear_arith);
    }
}

/// All values are at most `bound` bytes long.
spec fn within(entries: Seq<Entry>, bound: int) -> bool {
    forall|i: int| 0 <= i < entries.len() ==> (#[trigger] entries[i]).value.len() <= bound
}

proof fn lemma_image_within(raw: RawImage)
    ensures
        within(image_entries(raw), 4),
{
    lemma_all16_length(seq![16u16]);
    lemma_all16_length(seq![1u16]);
    lemma_all16_length(seq![32803u16]);
    lemma_all32_length(seq![0u32]);
    lemma_all32_length(seq![raw.width]);
    lemma_all32_length(seq![raw.height]);
    lemma_all32_length(seq![(raw.width * raw.height * 2) as u32]);
}

proof fn lemma_origin_within(model: Seq<char>, rotation: int, datetime: Seq<char>)
    requires
        vstd::utf8::encode_utf8(model).len() <= 0x100_0000,
        vstd::utf8::encode_utf8(datetime).len() <= 0x100_0000,
    ensures
        within(origin_entries(model, rotation, datetime), 0x100_0001),
{
    reveal_strlit("Obscura");
    lemma_encoded_length("Obscura"@);
    lemma_all16_length(seq![orientation_tag(rotation)]);
}

proof fn lemma_raw_within(l: Layout, levels: Seq<Number>, d: Development)
    ensures
        within(raw_entries(l, levels, d), 72),
{
    lemma_all16_length(seq![2u16, 2]);
    lemma_all16_length(seq![21u16]);
    lemma_all32_length(black_levels(l, levels));
    lemma_all32_length(seq![(pow2(l.bits as nat) - 1) as u32]);
    lemma_signed_length(d.colour_matrix@);
    lemma_fractions_length(d.neutral@);
}

/// With texts of up to 16 MiB the directories' offsets fit 32 bits.
pub proof fn law_short_texts_fit(
    raw: RawImage,
    l: Layout,
    levels: Seq<Number>,
    model: Seq<char>,
    rotation: int,
    d: Development,
)
    requires
        vstd::utf8::encode_utf8(model).len() <= 0x100_0000,
        vstd::utf8::encode_utf8(d.datetime@).len() <= 0x100_0000,
    ensures
        strip_place(main_entries(raw, l, levels, model, rotation, d), exif_entries(d)) <= u32::MAX,
{
    let bound = 0x100_0001int;
    let main = main_entries(raw, l, levels, model, rotation, d);
    let exif = exif_entries(d);
    assert(within(main, bound) && main.len() == 26) by {
        reveal(main_entries);
        let (a, b, c) = (image_entries(raw), origin_entries(model, rotation, d.datetime@), raw_entries(l, levels, d));
        lemma_image_within(raw);
        lemma_origin_within(model, rotation, d.datetime@);
        lemma_raw_within(l, levels, d);
        assert forall|i: int| 0 <= i < main.len() implies (#[trigger] main[i]).value.len() <= bound by {
            if i < a.len() {
                assert(main[i] == a[i]);
            } else if i < a.len() + b.len() {
                assert(main[i] == b[i - a.len()]);
            } else {
                assert(main[i] == c[i - a.len() - b.len()]);
            }
        }
    }
    lemma_spill_bound(main, bound);
    lemma_long_value(273, 0);
    lemma_long_value(34665, 0);
    lemma_spilled_append(main, offset_entries(0, 0));
    assert(within(exif, 8) && exif.len() <= 2) by {
        if d.exposure is Some {
            lemma_fractions_length(seq![d.exposure->0]);
        }
        if d.iso is Some {
            lemma_all16_length(seq![d.iso->0]);
        }
    }
    lemma_spill_bound(exif, 8);
    assert(exif.len() * 9 <= 18);
}

proof fn lemma_encoded_length(s: Seq<char>)
    ensures
        vstd::utf8::encode_utf8(s).len() <= 4 * s.len(),
    decreases s.len(),
{
    if s.len() > 0 {
        lemma_encoded_length(s.drop_first());
    }
}

fn exif_directory(d: &Development) -> (exif: Ifd)
    ensures
        exif@ == exif_entries(*d),
{
    let mut exif: Ifd = Ifd::new();
    if let Some(t) = d.exposure {
        let v: [u32; 1] = [t];
        assert(v@ =~= seq![t]);
        exif.rational(33434, v.as_slice());
    }
    if let Some(i) = d.iso {
        let v: [u16; 1] = [i];
        assert(v@ =~= seq![i]);
        exif.short(34855, v.as_slice());
    }
    assert(exif@ =~= exif_entries(*d));
    exif
}

fn add_long(ifd: &mut Ifd, tag: u16, x: u32)
    ensures
        final(ifd)@ == old(ifd)@.push(long_entry(tag, seq![x])),
{
    let v: [u32; 1] = [x];
    assert(v@ =~= seq![x]);
    ifd.long(tag, v.as_slice());
}

fn add_short(ifd: &mut Ifd, tag: u16, x: u16)
    ensures
        final(ifd)@ == old(ifd)@.push(short_entry(tag, seq![x])),
{
    let v: [u16; 1] = [x];
    assert(v@ =~= seq![x]);
    ifd.short(tag, v.as_slice());
}

fn add_image(ifd: &mut Ifd, raw: &RawImage)
    requires
        raw.width * raw.height * 2 <= u32::MAX,
    ensures
        final(ifd)@ == old(ifd)@ + image_entries(*raw),
{
    assert(raw.width * raw.height <= raw.width * raw.height * 2) by (nonlinear_arith);
    let pixels: u32 = raw.width * raw.height;
    add_long(ifd, 254, 0);
    add_long(ifd, 256, raw.width);
    add_long(ifd, 257, raw.height);
    add_short(ifd, 258, 16);
    add_short(ifd, 259, 1);
    add_short(ifd, 262, 32803);
    add_short(ifd, 277, 1);
    add_long(ifd, 278, raw.height);
    add_long(ifd, 279, pixels * 2);
    add_short(ifd, 284, 1);
    assert(ifd@ =~= old(ifd)@ + image_entries(*raw));
}

fn add_origin(ifd: &mut Ifd, model: &str, rotation: i32, datetime: &str)
    requires
        vstd::utf8::encode_utf8(model@).len() < u32::MAX,
        vstd::utf8::encode_utf8(datetime@).len() < u32::MAX,
    ensures
        final(ifd)@ == old(ifd)@ + origin_entries(model@, rotation as int, datetime@),
{
    let turn: i32 = device::turned(rotation as i64);
    let orientation: u16 = if turn == 90 {
        6
    } else if turn == 180 {
        3
    } else if turn == 270 {
        8
    } else {
        1
    };
    proof {
        reveal_strlit("Obscura");
        lemma_encoded_length("Obscura"@);
    }
    ifd.ascii(271, "Obscura");
    ifd.ascii(272, model);
    add_short(ifd, 274, orientation);
    ifd.ascii(305, "Obscura");
    ifd.ascii(306, datetime);
    ifd.ascii(50708, model);
    assert(ifd@ =~= old(ifd)@ + origin_entries(model@, rotation as int, datetime@));
}

fn add_raw(ifd: &mut Ifd, l: &Layout, levels: &Vec<Number>, d: &Development)
    requires
        l.bits < 32,
        levels@.len() > 0 ==> l.bits <= 16,
    ensures
        final(ifd)@ == old(ifd)@ + raw_entries(*l, levels@, *d),
{
    let white: u32 = two_to(l.bits) - 1;
    let black: [u32; 4] = [level_at(l, levels, 0), level_at(l, levels, 1), level_at(l, levels, 2), level_at(l, levels, 3)];
    let cell: [u16; 2] = [2, 2];
    let version: [u8; 4] = [1, 4, 0, 0];
    let backward: [u8; 4] = [1, 1, 0, 0];
    assert(black@ =~= black_levels(*l, levels@));
    assert(cell@ =~= seq![2u16, 2]);
    assert(version@ =~= seq![1u8, 4, 0, 0]);
    assert(backward@ =~= seq![1u8, 1, 0, 0]);
    ifd.short(33421, cell.as_slice());
    ifd.byte(33422, l.cfa.as_slice());
    ifd.byte(50706, version.as_slice());
    ifd.byte(50707, backward.as_slice());
    ifd.short(50713, cell.as_slice());
    ifd.long(50714, black.as_slice());
    add_long(ifd, 50717, white);
    ifd.srational(50721, d.colour_matrix.as_slice());
    ifd.rational(50728, d.neutral.as_slice());
    add_short(ifd, 50778, 21);
    assert(ifd@ =~= old(ifd)@ + raw_entries(*l, levels@, *d));
}

fn main_directory(raw: &RawImage, l: &Layout, levels: &Vec<Number>, model: &str, rotation: i32, d: &Development) -> (ifd: Ifd)
    requires
        file_fits(*raw, *l, levels@, model@, rotation as int, *d),
    ensures
        ifd@ == main_entries(*raw, *l, levels@, model@, rotation as int, *d),
{
    let mut ifd: Ifd = Ifd::new();
    add_image(&mut ifd, raw);
    add_origin(&mut ifd, model, rotation, d.datetime.as_str());
    add_raw(&mut ifd, l, levels, d);
    proof {
        reveal(main_entries);
        assert(ifd@ =~= main_entries(*raw, *l, levels@, model@, rotation as int, *d));
    }
    ifd
}

/// The bytes of a DNG file for the raw image of a still.
pub fn write(raw: &RawImage, still: &Still, d: &Development) -> (r: Result<Vec<u8>, DngError>)
    requires
        layout_of(raw.format@) matches Some((cfa, bits, packed)) ==> forall|l: Layout|
            l.cfa@ == cfa && l.bits == bits && l.packed == packed ==> #[trigger] writable(
                *raw,
                l,
                sensor_levels(still.metadata@),
                still.info.model@,
                still.info.rotation as int,
                *d,
            ),
    ensures
        match r {
            Ok(bytes) => exists|l: Layout|
                {
                    &&& layout_of(raw.format@) == Some((l.cfa@, l.bits, l.packed))
                    &&& unpacks(*raw, l)
                    &&& bytes@ == #[trigger] dng_file(
                        main_entries(*raw, l, sensor_levels(still.metadata@), still.info.model@, still.info.rotation as int, *d),
                        exif_entries(*d),
                        pixels(*raw, l, raw.height as nat),
                    )
                },
            Err(DngError::NotBayer(format)) => layout_of(raw.format@) is None && format@ == raw.format@,
            Err(DngError::Short(y)) => {
                &&& layout_of(raw.format@) matches Some((cfa, bits, packed)) && (y == 0 || !packed || bits == 8 || bits
                    == 10 || bits == 12)
                &&& first_short(*raw, y as int)
            },
            Err(DngError::UnsupportedLayout) => {
                &&& layout_of(raw.format@) matches Some((cfa, bits, packed)) && packed && bits != 8 && bits != 10 && bits
                    != 12
                &&& raw.height > 0
                &&& !starts_past(*raw, 0)
            },
        },
{
    let l: Layout = match layout(raw.format.as_str()) {
        Some(l) => l,
        None => return Err(DngError::NotBayer(raw.format.clone())),
    };
    let levels: Vec<Number> = match still.metadata.all("SensorBlackLevels") {
        Some(v) => crate::settings::copied(v),
        None => Vec::new(),
    };
    assert(levels@ =~= sensor_levels(still.metadata@));
    assert(writable(*raw, l, sensor_levels(still.metadata@), still.info.model@, still.info.rotation as int, *d));
    let strip: Vec<u16> = match unpack(raw, &l) {
        Ok(p) => p,
        Err(e) => return Err(e),
    };
    let mut ifd: Ifd = main_directory(raw, &l, &levels, still.info.model.as_str(), still.info.rotation, d);
    let ghost main = ifd@;
    let mut exif: Ifd = exif_directory(d);
    let ghost (e, s) = (exif_place(main), strip_place(main, exif@));
    let ghost exif_all = exif@;
    proof {
        lemma_main_size(main, s, e);
        lemma_long_value(273, s as u32);
        lemma_long_value(34665, e as u32);
        lemma_spilled_append(main, offset_entries(s, e));
        law_offsets_point_right(main, exif@, strip@);
    }
    let exif_at: u32 = MAIN_AT + ifd.size() + 24;
    let strip_at: u32 = exif_at + exif.size();
    add_long(&mut ifd, 273, strip_at);
    add_long(&mut ifd, 34665, exif_at);
    assert(ifd@ =~= main + offset_entries(s, e));
    let mut f: Vec<u8> = Vec::new();
    f.push(0x49);
    f.push(0x49);
    f.push(0x2a);
    f.push(0);
    push32(&mut f, MAIN_AT);
    let first: Vec<u8> = ifd.bytes(MAIN_AT, 0);
    push_all(&mut f, first.as_slice());
    let second: Vec<u8> = exif.bytes(exif_at, 0);
    push_all(&mut f, second.as_slice());
    let ghost front = f@;
    let mut i: usize = 0;
    assert(strip@.take(0).len() == 0);
    assert(front + all16(strip@.take(0)) =~= front);
    while i < strip.len()
        invariant
            i <= strip@.len(),
            f@ == front + all16(strip@.take(i as int)),
        decreases strip@.len() - i,
    {
        assert(strip@.take(i + 1).drop_last() =~= strip@.take(i as int));
        push16(&mut f, strip[i]);
        assert(f@ =~= front + all16(strip@.take(i + 1)));
        i = i + 1;
    }
    assert(strip@.take(i as int) =~= strip@);
    assert(f@ =~= dng_file(main, exif_all, strip@));
    Ok(f)
}

/// Two bytes, low first, stand for each of the values that `all16` lays out.
proof fn lemma_all16_at(v: Seq<u16>, i: int)
    requires
        0 <= i < v.len(),
    ensures
        all16(v).len() == 2 * v.len(),
        all16(v)[2 * i] + 256 * all16(v)[2 * i + 1] == v[i],
    decreases v.len(),
{
    lemma_all16_length(v);
    lemma_all16_length(v.drop_last());
    if i < v.len() - 1 {
        lemma_all16_at(v.drop_last(), i);
    }
}

/// Values of two bytes each, low byte first, are the pixels of a row that is
/// not packed; what follows them in the row does not matter.
pub proof fn law_unpacked_pixels_come_back(l: Layout, row: Seq<u8>, p: Seq<u16>)
    requires
        !l.packed,
        l.bits != 8,
        2 * p.len() <= row.len(),
        row.take(2 * p.len() as int) == all16(p),
    ensures
        row_pixels(l, row, p.len()) == p,
        forall|x: int|
            0 <= x < p.len() ==> #[trigger] p[x] % 256 == row[2 * x] && p[x] / 256 == row[2 * x + 1],
{
    let r = row_pixels(l, row, p.len());
    assert forall|x: int| 0 <= x < p.len() implies r[x] == #[trigger] p[x] && p[x] % 256 == row[2 * x] && p[x] / 256 == row[2 * x
        + 1] by {
        lemma_all16_at(p, x);
        assert(row.take(2 * p.len() as int)[2 * x] == row[2 * x]);
        assert(row.take(2 * p.len() as int)[2 * x + 1] == row[2 * x + 1]);
    }
    assert(r =~= p);
}

/// Bytes are the pixels of a row of 8 bits.
pub proof fn law_bytes_are_pixels(l: Layout, row: Seq<u8>, n: nat, x: int)
    requires
        l.bits == 8,
        0 <= x < n <= row.len(),
    ensures
        row_pixels(l, row, n)[x] == row[x],
{
}

/// Byte `i` of row `y` stands `i` bytes after as many strides as there are
/// rows before, and a row ends with its stride or with the data.
pub proof fn law_rows_stand_at_strides(raw: RawImage, y: int, i: int)
    requires
        0 <= y,
        0 <= i < raw.stride,
        y * raw.stride + i < raw.data@.len(),
    ensures
        i < row_of(raw, y).len() <= raw.stride,
        row_of(raw, y)[i] == raw.data@[y * raw.stride + i],
        row_of(raw, y).len() == raw.stride || y * raw.stride + row_of(raw, y).len() == raw.data@.len(),
{
    assert(0 <= y * raw.stride) by (nonlinear_arith)
        requires
            0 <= y,
            0 <= raw.stride,
    ;
}

/// A frame of rows that each hold values of two bytes, and padding up to the
/// stride, unpacks to the values, one row after the other.
pub proof fn law_unpacked_frame_comes_back(raw: RawImage, l: Layout, rows: Seq<Seq<u16>>, x: int, y: int)
    requires
        !l.packed,
        l.bits != 8,
        0 <= y < rows.len(),
        0 <= x < raw.width,
        rows[y].len() == raw.width,
        2 * raw.width <= raw.stride,
        y * raw.stride + 2 * raw.width <= raw.data@.len(),
        raw.data@.subrange(y * raw.stride, y * raw.stride + 2 * raw.width) == all16(rows[y]),
    ensures
        pixels(raw, l, rows.len())[y * raw.width + x] == rows[y][x],
{
    let row = row_of(raw, y);
    assert(0 <= y * raw.stride) by (nonlinear_arith)
        requires
            0 <= y,
            0 <= raw.stride,
    ;
    assert(row.take(2 * raw.width as int) =~= raw.data@.subrange(y * raw.stride, y * raw.stride + 2 * raw.width));
    law_unpacked_pixels_come_back(l, row, rows[y]);
    law_pixels_stand_in_rows(raw, l, rows.len(), x, y);
    assert(row_pixels(l, row, raw.width as nat)[x] == rows[y][x]);
}

/// The bytes a row takes hold its last pixel, and would not without their
/// last one.
pub proof fn law_row_bytes_are_tight(l: Layout, w: int)
    requires
        readable(l),
        w > 0,
    ensures
        l.bits == 8 ==> row_bytes(l, w) * 8 == w * l.bits,
        l.bits != 8 && !l.packed ==> row_bytes(l, w) * 8 == w * 16,
        l.packed && (l.bits == 10 || l.bits == 12) ==> w * l.bits <= row_bytes(l, w) * 8,
        l.packed && l.bits == 10 ==> row_bytes(l, w) * 8 < w * 10 + 40 && row_bytes(l, w) % 5 == 0,
        l.packed && l.bits == 12 ==> row_bytes(l, w) * 8 < w * 12 + 24 && row_bytes(l, w) % 3 == 0,
{
    if l.packed && l.bits == 10 {
        assert(row_bytes(l, w) == 5 * ((w - 1) / 4 + 1));
    }
    if l.packed && l.bits == 12 {
        assert(row_bytes(l, w) == 3 * ((w - 1) / 2 + 1));
    }
}

/// The number that stands for a colour's letter in a Bayer order.
pub open spec fn colour_number(c: char) -> int {
    if c == 'R' {
        0
    } else if c == 'G' {
        1
    } else {
        2
    }
}

/// The colours of an order are those of its letters, two of them green and
/// on a diagonal.
pub proof fn law_colours_follow_the_letters(order: Seq<char>)
    ensures
        colours(order) matches Some(cfa) ==> {
            &&& order.len() == 4 && cfa.len() == 4
            &&& forall|i: int| 0 <= i < 4 ==> cfa[i] == colour_number(#[trigger] order[i])
            &&& (order[0] == 'G' && order[3] == 'G') || (order[1] == 'G' && order[2] == 'G')
        },
        order == seq!['R', 'G', 'G', 'B'] || order == seq!['G', 'R', 'B', 'G'] || order == seq!['G', 'B', 'R', 'G'] || order
            == seq!['B', 'G', 'G', 'R'] <==> colours(order) is Some,
{
    let all = seq![seq!['R', 'G', 'G', 'B'], seq!['G', 'R', 'B', 'G'], seq!['G', 'B', 'R', 'G'], seq!['B', 'G', 'G', 'R']];
    assert(all[0][0] == 'R' && all[0][1] == 'G' && all[0][2] == 'G' && all[0][3] == 'B');
    assert(all[1][0] == 'G' && all[1][1] == 'R' && all[1][2] == 'B' && all[1][3] == 'G');
    assert(all[2][0] == 'G' && all[2][1] == 'B' && all[2][2] == 'R' && all[2][3] == 'G');
    assert(all[3][0] == 'B' && all[3][1] == 'G' && all[3][2] == 'G' && all[3][3] == 'R');
}

proof fn lemma_digits_of(d: Seq<char>, tail: Seq<char>)
    requires
        text::all_digits(d),
        tail.len() == 0 || !text::is_digit(tail[0]),
    ensures
        digits_ahead(d + tail) == d.len(),
{
    let s = d + tail;
    assert forall|i: int| 0 <= i < d.len() implies text::is_digit(#[trigger] s[i]) by {
        assert(s[i] == d[i]);
    }
    if tail.len() > 0 {
        assert(s[d.len() as int] == tail[0]);
    }
    lemma_digits_ahead(s, d.len() as int);
}

/// A format's name says what it is made of: an S, a Bayer order, the bits in
/// decimal, and a tail that names the packing.
pub proof fn law_layout_reads_back(order: Seq<char>, bits: u32, tail: Seq<char>)
    requires
        colours(order) is Some,
        tail.len() == 0 || !text::is_digit(tail[0]),
    ensures
        layout_of(seq!['S'] + order + text::decimal(bits as nat) + tail) == Some(
            (colours(order)->0, bits, text::contained(text::decimal(bits as nat) + tail, "CSI2P"@)),
        ),
        layout_of(order + text::decimal(bits as nat) + tail) is None,
        layout_of(seq!['S'] + order) is None,
{
    law_colours_follow_the_letters(order);
    let d = text::decimal(bits as nat);
    let f = seq!['S'] + order + d + tail;
    text::law_decimal_reads_back(bits as nat);
    lemma_digits_of(d, tail);
    assert(f.subrange(1, 5) =~= order);
    assert(f.skip(5) =~= d + tail);
    assert((d + tail).take(d.len() as int) =~= d);
    assert((order + d + tail)[0] == order[0]);
    let bare = seq!['S'] + order;
    assert(bare.skip(5).len() == 0);
    assert(bare.skip(5).take(0).len() == 0);
    assert(order[0] != 'S');
}

/// Two bytes give back the number they were made from.
pub proof fn law_le16_reads_back(x: int)
    requires
        0 <= x <= u16::MAX,
    ensures
        le16(x).len() == 2,
        le16(x)[0] + 256 * le16(x)[1] == x,
{
}

/// A fraction is its numerator and, four bytes on, a million.
pub proof fn law_fractions_read_back(v: Seq<u32>, i: int)
    requires
        0 <= i < v.len(),
    ensures
        fractions(v).len() == 8 * v.len(),
        from_le32(fractions(v).subrange(8 * i, 8 * i + 4)) == v[i],
        from_le32(fractions(v).subrange(8 * i + 4, 8 * i + 8)) == 1_000_000,
    decreases v.len(),
{
    let (t, last) = (v.drop_last(), v.last());
    if v.len() > 1 {
        law_fractions_read_back(t, if i < t.len() { i } else { 0 });
    } else {
        assert(fractions(t).len() == 0);
    }
    law_le32_reads_back(last as int);
    law_le32_reads_back(MILLION as int);
    if i == v.len() - 1 {
        assert(fractions(v).subrange(8 * i, 8 * i + 4) =~= le32(last as int));
        assert(fractions(v).subrange(8 * i + 4, 8 * i + 8) =~= le32(MILLION as int));
    } else {
        assert(fractions(v).subrange(8 * i, 8 * i + 4) =~= fractions(t).subrange(8 * i, 8 * i + 4));
        assert(fractions(v).subrange(8 * i + 4, 8 * i + 8) =~= fractions(t).subrange(8 * i + 4, 8 * i + 8));
    }
}

/// The same of signed fractions: a numerator above the highest positive one
/// stands for a negative one.
pub proof fn law_signed_fractions_read_back(v: Seq<i32>, i: int)
    requires
        0 <= i < v.len(),
    ensures
        signed_fractions(v).len() == 8 * v.len(),
        ({
            let n = from_le32(signed_fractions(v).subrange(8 * i, 8 * i + 4));
            v[i] == if n <= i32::MAX {
                n
            } else {
                n - 0x1_0000_0000
            }
        }),
        from_le32(signed_fractions(v).subrange(8 * i + 4, 8 * i + 8)) == 1_000_000,
    decreases v.len(),
{
    let (t, last) = (v.drop_last(), v.last());
    if v.len() > 1 {
        law_signed_fractions_read_back(t, if i < t.len() { i } else { 0 });
    } else {
        assert(signed_fractions(t).len() == 0);
    }
    law_le32_reads_back(twos(last as int));
    law_le32_reads_back(MILLION as int);
    if i == v.len() - 1 {
        assert(signed_fractions(v).subrange(8 * i, 8 * i + 4) =~= le32(twos(last as int)));
        assert(signed_fractions(v).subrange(8 * i + 4, 8 * i + 8) =~= le32(MILLION as int));
    } else {
        assert(signed_fractions(v).subrange(8 * i, 8 * i + 4) =~= signed_fractions(t).subrange(8 * i, 8 * i + 4));
        assert(signed_fractions(v).subrange(8 * i + 4, 8 * i + 8) =~= signed_fractions(t).subrange(8 * i + 4, 8 * i + 8));
    }
}

/// How many bytes a value of a TIFF type takes.
pub open spec fn type_bytes(ty: u16) -> int {
    if ty == 1 || ty == 2 {
        1
    } else if ty == 3 {
        2
    } else if ty == 4 {
        4
    } else {
        8
    }
}

/// An entry is as long as its type and count say.
pub open spec fn counts(e: Entry) -> bool {
    e.value.len() == e.count * type_bytes(e.ty)
}

/// Entries of every type are as long as they say, under the tag asked for,
/// and text ends with its only zero byte past its characters.
pub proof fn law_entries_count_their_values(
    tag: u16,
    shorts: Seq<u16>,
    longs: Seq<u32>,
    bytes: Seq<u8>,
    text: Seq<char>,
    signed: Seq<i32>,
)
    requires
        shorts.len() <= u32::MAX,
        longs.len() <= u32::MAX,
        bytes.len() <= u32::MAX,
        signed.len() <= u32::MAX,
        vstd::utf8::encode_utf8(text).len() < u32::MAX,
    ensures
        counts(short_entry(tag, shorts)) && short_entry(tag, shorts).tag == tag && short_entry(tag, shorts).ty == 3,
        counts(long_entry(tag, longs)) && long_entry(tag, longs).tag == tag && long_entry(tag, longs).ty == 4,
        counts(byte_entry(tag, bytes)) && byte_entry(tag, bytes).tag == tag && byte_entry(tag, bytes).ty == 1,
        counts(ascii_entry(tag, text)) && ascii_entry(tag, text).tag == tag && ascii_entry(tag, text).ty == 2,
        ascii_entry(tag, text).value.last() == 0 && ascii_entry(tag, text).value.drop_last() == vstd::utf8::encode_utf8(text),
        counts(rational_entry(tag, longs)) && rational_entry(tag, longs).tag == tag && rational_entry(tag, longs).ty == 5,
        counts(srational_entry(tag, signed)) && srational_entry(tag, signed).tag == tag && srational_entry(tag, signed).ty == 10,
{
    lemma_all16_length(shorts);
    lemma_all32_length(longs);
    if longs.len() > 0 {
        law_fractions_read_back(longs, 0);
    }
    if signed.len() > 0 {
        law_signed_fractions_read_back(signed, 0);
    }
    assert(ascii_entry(tag, text).value.drop_last() =~= vstd::utf8::encode_utf8(text));
}

/// The levels come in the order red, green beside red, green beside blue and
/// blue: each corner of a Bayer cell takes a level of its own colour, and no
/// two corners the same one.
pub proof fn law_channels_follow_the_colours(order: Seq<char>, i: int, j: int)
    requires
        colours(order) is Some,
        0 <= i < 4,
        0 <= j < 4,
    ensures
        ({
            let cfa = colours(order)->0;
            let beside = order[if i % 2 == 0 { i + 1 } else { i - 1 }];
            &&& channel(cfa, i) == if order[i] == 'R' {
                0int
            } else if order[i] == 'B' {
                3
            } else if beside == 'R' {
                1
            } else {
                2
            }
            &&& i != j ==> channel(cfa, i) != channel(cfa, j)
        }),
{
    law_colours_follow_the_letters(order);
    let all = seq![seq!['R', 'G', 'G', 'B'], seq!['G', 'R', 'B', 'G'], seq!['G', 'B', 'R', 'G'], seq!['B', 'G', 'G', 'R']];
    assert(all[0][0] == 'R' && all[0][1] == 'G' && all[0][2] == 'G' && all[0][3] == 'B');
    assert(all[1][0] == 'G' && all[1][1] == 'R' && all[1][2] == 'B' && all[1][3] == 'G');
    assert(all[2][0] == 'G' && all[2][1] == 'B' && all[2][2] == 'R' && all[2][3] == 'G');
    assert(all[3][0] == 'B' && all[3][1] == 'G' && all[3][2] == 'G' && all[3][3] == 'R');
}

/// A black level is the sensor's, which is scaled to 16 bits, in the bits of
/// the image; a sensor that reports none has none.
pub proof fn law_black_levels_are_scaled(l: Layout, levels: Seq<Number>, pos: int)
    requires
        0 <= pos < 4,
        l.bits <= 16,
    ensures
        levels.len() == 0 ==> black_level(l, levels, pos) == 0,
        channel(l.cfa@, pos) < levels.len() ==> {
            let (b, u) = (black_level(l, levels, pos), pow2((16 - l.bits) as nat));
            b * u <= levels[channel(l.cfa@, pos)].whole() < (b + 1) * u
        },
{
    let c = channel(l.cfa@, pos);
    if c < levels.len() {
        let (w, u) = (levels[c].whole(), pow2((16 - l.bits) as nat) as int);
        lemma_pow2_pos((16 - l.bits) as nat);
        assert(0 <= w <= u32::MAX);
        vstd::arithmetic::div_mod::lemma_fundamental_div_mod(w, u);
        assert(0 <= w / u <= w && (w / u) * u <= w < (w / u + 1) * u) by (nonlinear_arith)
            requires
                w == u * (w / u) + w % u,
                0 <= w % u < u,
                0 <= w,
                u >= 1,
        ;
    }
}

/// Degrees that a viewer turns a picture clockwise for an orientation tag.
pub open spec fn viewer_turn(tag: u16) -> int {
    if tag == 6 {
        90
    } else if tag == 3 {
        180
    } else if tag == 8 {
        270
    } else {
        0
    }
}

/// A viewer turns the picture by as much as the buffer needs, a quarter turn
/// at a time.
pub proof fn law_orientation_turns_the_buffer(rotation: int)
    ensures
        rotation % 90 == 0 ==> viewer_turn(orientation_tag(rotation)) == rotation % 360,
        rotation % 90 != 0 ==> orientation_tag(rotation) == 1,
        rotation % 360 == 0 ==> orientation_tag(rotation) == 1,
{
}

/// The main directory tells a raw developer the image's size, layout, origin
/// and colours, under the tags of the format, and each once.
#[verifier::spinoff_prover]
#[verifier::rlimit(40)]
pub proof fn law_directory_describes_the_image(
    raw: RawImage,
    l: Layout,
    levels: Seq<Number>,
    model: Seq<char>,
    rotation: int,
    d: Development,
    i: int,
    j: int,
)
    ensures
        ({
            let m = main_entries(raw, l, levels, model, rotation, d);
            &&& m.len() == 26
            &&& m.contains(long_entry(254, seq![0])) && m.contains(long_entry(256, seq![raw.width]))
            &&& m.contains(long_entry(257, seq![raw.height])) && m.contains(short_entry(258, seq![16]))
            &&& m.contains(short_entry(259, seq![1])) && m.contains(short_entry(262, seq![32803]))
            &&& m.contains(short_entry(277, seq![1])) && m.contains(long_entry(278, seq![raw.height]))
            &&& m.contains(long_entry(279, seq![(2 * raw.width * raw.height) as u32])) && m.contains(short_entry(284, seq![1]))
            &&& m.contains(ascii_entry(271, "Obscura"@)) && m.contains(ascii_entry(272, model))
            &&& m.contains(short_entry(274, seq![orientation_tag(rotation)])) && m.contains(ascii_entry(305, "Obscura"@))
            &&& m.contains(ascii_entry(306, d.datetime@)) && m.contains(ascii_entry(50708, model))
            &&& m.contains(short_entry(33421, seq![2, 2])) && m.contains(byte_entry(33422, l.cfa@))
            &&& m.contains(byte_entry(50706, seq![1, 4, 0, 0])) && m.contains(byte_entry(50707, seq![1, 1, 0, 0]))
            &&& m.contains(short_entry(50713, seq![2, 2]))
            &&& m.contains(
                long_entry(
                    50714,
                    seq![
                        black_level(l, levels, 0),
                        black_level(l, levels, 1),
                        black_level(l, levels, 2),
                        black_level(l, levels, 3),
                    ],
                ),
            )
            &&& l.bits < 32 ==> m.contains(long_entry(50717, seq![(pow2(l.bits as nat) - 1) as u32]))
            &&& m.contains(srational_entry(50721, d.colour_matrix@)) && m.contains(rational_entry(50728, d.neutral@))
            &&& m.contains(short_entry(50778, seq![21]))
            &&& 0 <= i < j < m.len() ==> m[i].tag != m[j].tag
            &&& 0 <= i < m.len() ==> m[i].tag != 273 && m[i].tag != 34665
        }),
{
    reveal(main_entries);
    let m = main_entries(raw, l, levels, model, rotation, d);
    let (a, b, c) = (image_entries(raw), origin_entries(model, rotation, d.datetime@), raw_entries(l, levels, d));
    assert(raw.width * raw.height * 2 == 2 * raw.width * raw.height) by (nonlinear_arith);
    assert(m[0] == a[0] && m[1] == a[1] && m[2] == a[2] && m[3] == a[3] && m[4] == a[4]);
    assert(m[5] == a[5] && m[6] == a[6] && m[7] == a[7] && m[8] == a[8] && m[9] == a[9]);
    assert(m[10] == b[0] && m[11] == b[1] && m[12] == b[2] && m[13] == b[3] && m[14] == b[4] && m[15] == b[5]);
    assert(m[16] == c[0] && m[17] == c[1] && m[18] == c[2] && m[19] == c[3] && m[20] == c[4]);
    assert(m[21] == c[5] && m[22] == c[6] && m[23] == c[7] && m[24] == c[8] && m[25] == c[9]);
}

/// The exposure directory tells the exposure time and the sensitivity, where
/// they are known.
pub proof fn law_exposure_is_told(d: Development)
    ensures
        d.exposure matches Some(t) ==> exif_entries(d).contains(rational_entry(33434, seq![t])),
        d.iso matches Some(i) ==> exif_entries(d).contains(short_entry(34855, seq![i])),
        exif_entries(d).len() == (if d.exposure is Some {
            1int
        } else {
            0
        }) + (if d.iso is Some {
            1int
        } else {
            0
        }),
{
    let e = exif_entries(d);
    if d.exposure is Some {
        assert(e[0] == rational_entry(33434, seq![d.exposure->0]));
    }
    if d.iso is Some {
        assert(e[e.len() - 1] == short_entry(34855, seq![d.iso->0]));
    }
}

/// A file starts as a little-endian TIFF does, and its first directory
/// follows the header.
pub proof fn law_file_starts_as_tiff(main: Seq<Entry>, exif: Seq<Entry>, strip: Seq<u16>)
    ensures
        ({
            let f = dng_file(main, exif, strip);
            &&& f.len() >= 8
            &&& f[0] == 'I' as u8 && f[1] == 'I' as u8
            &&& f[2] == 42 && f[3] == 0
            &&& from_le32(f.subrange(4, 8)) == 8
            &&& MAIN_AT == 8
        }),
{
    let f = dng_file(main, exif, strip);
    law_le32_reads_back(MAIN_AT as int);
    assert(f.subrange(4, 8) =~= le32(MAIN_AT as int));
}

/// The row told to be short starts past the end of the data, and the one
/// before it does not.
pub proof fn law_first_short_row_is_told(raw: RawImage, y: int)
    requires
        first_short(raw, y),
    ensures
        0 <= y < raw.height,
        y * raw.stride > raw.data@.len(),
        y > 0,
        (y - 1) * raw.stride <= raw.data@.len(),
{
    assert(starts_past(raw, y));
    if y > 0 {
        assert(!starts_past(raw, y - 1));
    } else {
        assert(0 * raw.stride == 0) by (nonlinear_arith);
    }
}

/// The levels of a frame are those it reports under the sensor's name.
pub proof fn law_levels_are_the_sensors(meta: Map<Seq<char>, Seq<Number>>, levels: Seq<Number>)
    ensures
        sensor_levels(meta.insert("SensorBlackLevels"@, levels)) == levels,
        sensor_levels(Map::empty()).len() == 0,
{
}

} // verus!
