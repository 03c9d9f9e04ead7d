//! The application's state: what each message from the interface, the camera
//! and the desktop changes in it, and what is to be done in turn.

use crate::camera::{Camera, CameraInfo, Cmd, Facing, Session, Still, code_named};
use crate::device::{Display, upright, upright_turn};
use crate::modes::{Mode, has_mode, is_ratio_near, law_near_ratios_are_close, ratio_near, ratio_within};
use crate::number::{Number, law_integers_survive};
use crate::photo::{gather_rows, tight_rows};
use crate::portal::Access;
use crate::settings::{
    ControlDesc, Metadata, find_ending, find_named, first_ending, first_of_name, has_manual, index_named, lemma_first, manual, reading,
    value_ending,
};
use crate::text;
use vstd::prelude::*;

verus! {

/// A size as it is remembered, "4032x3024".
pub open spec fn size_in(m: Mode) -> Seq<char> {
    text::decimal(m.width as nat) + "x"@ + text::decimal(m.height as nat)
}

pub fn size_text(m: Mode) -> (s: String)
    ensures
        s@ == size_in(m),
{
    let mut s: String = String::new();
    text::push_decimal(&mut s, m.width as u64);
    s.append("x");
    text::push_decimal(&mut s, m.height as u64);
    assert(s@ =~= size_in(m));
    s
}

/// The size a text names: two numbers around the first "x".
pub open spec fn size_of(s: Seq<char>) -> Option<Mode> {
    let n = text::first_of(s, 'x');
    if n < s.len() {
        match (text::signed_number_in(s.take(n)), text::signed_number_in(s.skip(n + 1))) {
            (Some(width), Some(height)) => Some(Mode { width, height }),
            _ => None,
        }
    } else {
        None
    }
}

pub fn parse_size(s: &str) -> (m: Option<Mode>)
    ensures
        m == size_of(s@),
{
    let v: Vec<char> = text::chars(s);
    let n: usize = text::find(&v, 'x');
    if n >= v.len() {
        return None;
    }
    assert(s@.take(n as int) =~= s@.subrange(0, n as int));
    assert(s@.skip(n + 1) =~= s@.subrange(n + 1, s@.len() as int));
    match (text::parse_number(&v, 0, n), text::parse_number(&v, n + 1, v.len())) {
        (Some(width), Some(height)) => Some(Mode { width, height }),
        _ => None,
    }
}

proof fn lemma_digits_come_first(a: Seq<char>, b: Seq<char>)
    requires
        text::all_digits(a),
    ensures
        text::first_of(a + seq!['x'] + b, 'x') == a.len(),
    decreases a.len(),
{
    let s = a + seq!['x'] + b;
    if a.len() > 0 {
        assert(text::is_digit(a[0]));
        assert(s[0] == a[0]);
        let t = a.drop_first();
        assert forall|i: int| 0 <= i < t.len() implies text::is_digit(#[trigger] t[i]) by {
            assert(t[i] == a[i + 1]);
        }
        lemma_digits_come_first(t, b);
        assert(s.drop_first() =~= t + seq!['x'] + b);
    } else {
        assert(s[0] == 'x');
    }
}

/// A remembered size reads back as it was.
pub proof fn law_sizes_read_back(m: Mode)
    ensures
        size_of(size_in(m)) == Some(m),
{
    let (a, b) = (text::decimal(m.width as nat), text::decimal(m.height as nat));
    text::law_decimal_reads_back(m.width as nat);
    text::law_decimal_reads_back(m.height as nat);
    reveal_strlit("x");
    assert("x"@ =~= seq!['x']);
    lemma_digits_come_first(a, b);
    let s = size_in(m);
    assert(s.take(a.len() as int) =~= a);
    assert(s.skip(a.len() as int + 1) =~= b);
    assert(text::is_digit(a[0]) && text::is_digit(b[0]));
}

/// Where the entry of this key first stands, or the length.
pub open spec fn key_at(list: Seq<(String, String)>, key: Seq<char>) -> int
    decreases list.len(),
{
    if list.len() == 0 || list[0].0@ == key {
        0
    } else {
        1 + key_at(list.drop_first(), key)
    }
}

proof fn lemma_key_at(list: Seq<(String, String)>, key: Seq<char>, n: int)
    requires
        0 <= n <= list.len(),
        forall|i: int| 0 <= i < n ==> (#[trigger] list[i]).0@ != key,
        n == list.len() || list[n].0@ == key,
    ensures
        key_at(list, key) == n,
    decreases list.len(),
{
    if n > 0 {
        let t = list.drop_first();
        assert forall|i: int| 0 <= i < n - 1 implies (#[trigger] t[i]).0@ != key by {
            assert(t[i] == list[i + 1]);
        }
        assert(list[0].0@ != key);
        lemma_key_at(t, key, n - 1);
    }
}

/// The size remembered for a camera.
pub open spec fn remembered(list: Seq<(String, String)>, id: Seq<char>) -> Option<Mode> {
    let i = key_at(list, id);
    if i < list.len() {
        size_of(list[i].1@)
    } else {
        None
    }
}

/// Look up the size remembered for a camera, by its id.
pub fn saved_mode(list: &Vec<(String, String)>, id: &str) -> (m: Option<Mode>)
    ensures
        m == remembered(list@, id@),
{
    let mut i: usize = 0;
    while i < list.len() && !text::same(list[i].0.as_str(), id)
        invariant
            i <= list@.len(),
            forall|j: int| 0 <= j < i ==> (#[trigger] list@[j]).0@ != id@,
        decreases list@.len() - i,
    {
        i = i + 1;
    }
    proof {
        lemma_key_at(list@, id@, i as int);
    }
    if i < list.len() {
        parse_size(list[i].1.as_str())
    } else {
        None
    }
}

/// What a list of remembered sizes holds: ids and texts.
pub open spec fn entries(list: Seq<(String, String)>) -> Seq<(Seq<char>, Seq<char>)> {
    list.map_values(|e: (String, String)| (e.0@, e.1@))
}

/// `after` is `before` with a size remembered for a camera, in place of the
/// one there was.
pub open spec fn remembers(before: Seq<(String, String)>, after: Seq<(String, String)>, id: Seq<char>, m: Mode) -> bool {
    let i = key_at(before, id);
    entries(after) == if i < before.len() {
        entries(before).update(i, (id, size_in(m)))
    } else {
        entries(before).push((id, size_in(m)))
    }
}

/// Remember a size for a camera, by its id.
pub fn remember(list: &mut Vec<(String, String)>, id: &str, m: Mode)
    ensures
        remembers(old(list)@, final(list)@, id@, m),
{
    let ghost before = entries(list@);
    let mut i: usize = 0;
    while i < list.len() && !text::same(list[i].0.as_str(), id)
        invariant
            i <= list@.len(),
            list@ == old(list)@,
            forall|j: int| 0 <= j < i ==> (#[trigger] list@[j]).0@ != id@,
        decreases list@.len() - i,
    {
        i = i + 1;
    }
    proof {
        lemma_key_at(list@, id@, i as int);
    }
    let entry: (String, String) = (String::from_str(id), size_text(m));
    if i < list.len() {
        list.set(i, entry);
        assert(entries(list@) =~= before.update(i as int, (id@, size_in(m))));
    } else {
        list.push(entry);
        assert(entries(list@) =~= before.push((id@, size_in(m))));
    }
}

proof fn lemma_key_first(list: Seq<(String, String)>, key: Seq<char>)
    ensures
        0 <= key_at(list, key) <= list.len(),
        key_at(list, key) < list.len() ==> list[key_at(list, key)].0@ == key,
        forall|j: int| 0 <= j < key_at(list, key) ==> (#[trigger] list[j]).0@ != key,
    decreases list.len(),
{
    if list.len() > 0 && list[0].0@ != key {
        let t = list.drop_first();
        lemma_key_first(t, key);
        assert forall|j: int| 0 <= j < key_at(list, key) implies (#[trigger] list[j]).0@ != key by {
            if j > 0 {
                assert(t[j - 1] == list[j]);
            }
        }
    }
}

/// What was remembered for a camera is what is read back for it, and what is
/// remembered for the others stays.
pub proof fn law_remembered_size_comes_back(
    before: Seq<(String, String)>,
    after: Seq<(String, String)>,
    id: Seq<char>,
    m: Mode,
    other: Seq<char>,
)
    requires
        remembers(before, after, id, m),
    ensures
        remembered(after, id) == Some(m),
        other != id ==> remembered(after, other) == remembered(before, other),
{
    let i = key_at(before, id);
    lemma_key_first(before, id);
    let n = before.len();
    assert(entries(after).len() == after.len());
    assert forall|j: int| 0 <= j < n && j != i implies after[j].0@ == before[j].0@ && after[j].1@ == before[j].1@ by {
        assert(entries(after)[j] == entries(before)[j]);
    }
    assert(entries(after)[i] == (id, size_in(m)));
    assert(after[i].0@ == id && after[i].1@ == size_in(m));
    lemma_key_at(after, id, i);
    law_sizes_read_back(m);
    if other != id {
        let k = key_at(before, other);
        lemma_key_first(before, other);
        if k < n {
            lemma_key_at(after, other, k);
        } else {
            assert forall|j: int| 0 <= j < after.len() implies (#[trigger] after[j]).0@ != other by {
                if j != i {
                    assert(before[j].0@ != other);
                }
            }
            lemma_key_at(after, other, after.len() as int);
        }
    }
}

/// The shapes that have a name.
#[derive(Debug, Clone, Copy, PartialEq, Eq, Structural)]
pub enum Aspect {
    FourByThree,
    SixteenByNine,
    ThreeByTwo,
    Square,
    /// None of these: its ratio is its name.
    Other,
}

pub open spec fn aspect_of(m: Mode) -> Aspect {
    if ratio_near(m, 4, 3, 2) {
        Aspect::FourByThree
    } else if ratio_near(m, 16, 9, 3) {
        Aspect::SixteenByNine
    } else if ratio_near(m, 3, 2, 2) {
        Aspect::ThreeByTwo
    } else if ratio_near(m, 1, 1, 2) {
        Aspect::Square
    } else {
        Aspect::Other
    }
}

pub fn aspect(m: Mode) -> (a: Aspect)
    ensures
        a == aspect_of(m),
{
    if is_ratio_near(m, 4, 3, 2) {
        Aspect::FourByThree
    } else if is_ratio_near(m, 16, 9, 3) {
        Aspect::SixteenByNine
    } else if is_ratio_near(m, 3, 2, 2) {
        Aspect::ThreeByTwo
    } else if is_ratio_near(m, 1, 1, 2) {
        Aspect::Square
    } else {
        Aspect::Other
    }
}

/// A shape that video can use.
pub open spec fn is_wide(m: Mode) -> bool {
    ratio_near(m, 16, 9, 5)
}

pub fn wide(m: Mode) -> (w: bool)
    ensures
        w == is_wide(m),
{
    is_ratio_near(m, 16, 9, 5)
}

/// "4K", "1080p": what a recording at this sensor mode is called.
pub open spec fn video_name_of(m: Mode) -> Seq<char> {
    if m.width >= 3840 {
        "4K"@
    } else if m.width >= 1920 {
        "1080p"@
    } else if m.width >= 1280 {
        "720p"@
    } else {
        text::decimal(m.height as nat) + "p"@
    }
}

pub fn video_name(m: Mode) -> (s: String)
    ensures
        s@ == video_name_of(m),
{
    if m.width >= 3840 {
        String::from_str("4K")
    } else if m.width >= 1920 {
        String::from_str("1080p")
    } else if m.width >= 1280 {
        String::from_str("720p")
    } else {
        let mut s: String = String::new();
        text::push_decimal(&mut s, m.height as u64);
        s.append("p");
        assert(s@ =~= video_name_of(m));
        s
    }
}

/// `template` with every "{}" replaced.
pub open spec fn filled_in(template: Seq<char>, with: Seq<char>) -> Seq<char>
    decreases template.len(),
{
    if template.len() == 0 {
        template
    } else if template.len() >= 2 && template[0] == '{' && template[1] == '}' {
        with + filled_in(template.skip(2), with)
    } else {
        seq![template[0]] + filled_in(template.drop_first(), with)
    }
}

/// Put a number where a template says "{}".
pub fn fill(template: &str, n: u32) -> (s: String)
    ensures
        s@ == filled_in(template@, text::decimal(n as nat)),
{
    let v: Vec<char> = text::chars(template);
    let ghost with = text::decimal(n as nat);
    let mut s: String = String::new();
    let mut i: usize = 0;
    assert(v@.skip(0) =~= v@);
    assert(s@ + filled_in(v@, with) =~= filled_in(v@, with));
    while i < v.len()
        invariant
            i <= v@.len(),
            v@ == template@,
            with == text::decimal(n as nat),
            s@ + filled_in(v@.skip(i as int), with) == filled_in(template@, with),
        decreases v@.len() - i,
    {
        let ghost (before, rest) = (s@, v@.skip(i as int));
        assert(rest[0] == v@[i as int]);
        if v.len() - i >= 2 && v[i] == '{' && v[i + 1] == '}' {
            assert(rest[1] == v@[i + 1]);
            assert(rest.skip(2) =~= v@.skip(i + 2));
            text::push_decimal(&mut s, n as u64);
            assert(s@ + filled_in(v@.skip(i + 2), with) =~= before + filled_in(rest, with));
            i = i + 2;
        } else {
            assert(rest.len() >= 2 ==> rest[1] == v@[i + 1]);
            assert(rest.drop_first() =~= v@.skip(i + 1));
            s.push(v[i]);
            assert(s@ + filled_in(v@.skip(i + 1), with) =~= before + filled_in(rest, with));
            i = i + 1;
        }
    }
    assert(v@.skip(i as int) =~= Seq::empty());
    assert(s@ + Seq::<char>::empty() =~= s@);
    s
}

/// What the self-timer's button shows.
pub fn timer_label(seconds: u32) -> (s: String)
    ensures
        s@ == text::decimal(seconds as nat) + " s"@,
{
    let mut s: String = String::new();
    text::push_decimal(&mut s, seconds as u64);
    s.append(" s");
    assert(s@ =~= text::decimal(seconds as nat) + " s"@);
    s
}

/// A small picture in tight RGBA rows.
#[derive(Debug)]
pub struct Thumb {
    pub rgba: Vec<u8>,
    pub width: u32,
    pub height: u32,
    pub rotation: i32,
}

/// How wide thumbnails are.
pub const THUMB: u32 = 128;

/// How high the thumbnail of a still is.
pub open spec fn thumb_height(width: int, height: int) -> int {
    let h = THUMB * height / (if width == 0 {
        1
    } else {
        width
    });
    if h < 1 {
        1
    } else {
        h
    }
}

/// The pixels of these formats start with blue.
pub open spec fn blue_first(fourcc: u32) -> bool {
    fourcc == 0x3432_5258 || fourcc == 0x3432_5241
}

/// Where the sample for (x, y) of a thumbnail stands in the still.
pub open spec fn sample_at(still: Still, x: int, y: int) -> int {
    let th = thumb_height(still.width as int, still.height as int);
    y * still.height / th * still.stride + x * still.width / THUMB as int * 4
}

/// One pixel of a thumbnail: the still's, or black where that is short.
pub open spec fn sample(still: Still, x: int, y: int) -> Seq<u8> {
    let i = sample_at(still, x, y);
    let (a, b, c) = if i + 3 <= still.rgba@.len() {
        (still.rgba@[i], still.rgba@[i + 1], still.rgba@[i + 2])
    } else {
        (0, 0, 0)
    };
    if blue_first(still.fourcc) {
        seq![c, b, a, 255]
    } else {
        seq![a, b, c, 255]
    }
}

/// The first `n` pixels of a thumbnail, row by row.
pub open spec fn samples(still: Still, n: nat) -> Seq<u8>
    decreases n,
{
    if n == 0 {
        Seq::empty()
    } else {
        samples(still, (n - 1) as nat) + sample(still, (n - 1) % THUMB as int, (n - 1) / THUMB as int)
    }
}

/// The sizes a thumbnail can be made of.
pub open spec fn can_sample(width: int, height: int) -> bool {
    let th = thumb_height(width, height);
    &&& THUMB * height <= u32::MAX
    &&& (THUMB - 1) * width <= u32::MAX
    &&& (th - 1) * height <= u32::MAX
    &&& THUMB * th * 4 <= u32::MAX
}

/// A small RGBA thumbnail by point sampling the still.
pub fn thumbnail(still: &Still) -> (t: Thumb)
    requires
        can_sample(still.width as int, still.height as int),
    ensures
        t.width == THUMB,
        t.height == thumb_height(still.width as int, still.height as int),
        t.rotation == still.info.rotation,
        t.rgba@ == samples(*still, (t.width * t.height) as nat),
{
    let across: u32 = if still.width == 0 { 1 } else { still.width };
    let th: u32 = if THUMB * still.height / across < 1 { 1 } else { THUMB * still.height / across };
    assert(th == thumb_height(still.width as int, still.height as int));
    let blue: bool = still.fourcc == crate::camera::fourcc([0x58, 0x52, 0x32, 0x34]) || still.fourcc
        == crate::camera::fourcc([0x41, 0x52, 0x32, 0x34]);
    let len: u64 = still.rgba.len() as u64;
    let total: u32 = THUMB * th;
    let mut rgba: Vec<u8> = Vec::new();
    let mut n: u32 = 0;
    while n < total
        invariant
            n <= total,
            total == THUMB * th,
            th >= 1,
            th == thumb_height(still.width as int, still.height as int),
            can_sample(still.width as int, still.height as int),
            blue == blue_first(still.fourcc),
            len == still.rgba.len(),
            rgba@ == samples(*still, n as nat),
        decreases total - n,
    {
        let (x, y) = (n % THUMB, n / THUMB);
        proof {
            assert(y < th);
            assert(x * still.width <= (THUMB - 1) * still.width) by (nonlinear_arith)
                requires
                    x <= THUMB - 1,
                    0 <= still.width,
            ;
            assert(0 <= y * still.height <= (th - 1) * still.height) by (nonlinear_arith)
                requires
                    0 <= y <= th - 1,
                    0 <= still.height,
            ;
        }
        let column: u64 = (x * still.width / THUMB) as u64;
        let line: u64 = (y * still.height / th) as u64;
        proof {
            assert(0 <= line * still.stride <= 0xffff_ffff * 0xffff_ffff) by (nonlinear_arith)
                requires
                    0 <= line <= 0xffff_ffff,
                    0 <= still.stride <= 0xffff_ffff,
            ;
            assert(column <= 0x1ff_ffff);
        }
        let at: u64 = line * still.stride as u64 + column * 4;
        assert(at == sample_at(*still, x as int, y as int));
        let (a, b, c): (u8, u8, u8) = if at + 3 <= len {
            let i: usize = at as usize;
            (still.rgba[i], still.rgba[i + 1], still.rgba[i + 2])
        } else {
            (0, 0, 0)
        };
        let ghost before = rgba@;
        if blue {
            rgba.push(c);
            rgba.push(b);
            rgba.push(a);
        } else {
            rgba.push(a);
            rgba.push(b);
            rgba.push(c);
        }
        rgba.push(255);
        assert(rgba@ =~= before + sample(*still, x as int, y as int));
        n = n + 1;
    }
    Thumb { rgba, width: THUMB, height: th, rotation: still.info.rotation }
}

/// Pixel (x, y) of a thumbnail stands at `4 * (128 * y + x)`, and nothing
/// stands between the pixels.
pub proof fn law_thumbnail_is_tight(still: Still, n: nat, x: int, y: int)
    requires
        0 <= x < THUMB,
        0 <= y,
        THUMB * y + x < n,
    ensures
        samples(still, n).len() == 4 * n,
        samples(still, n).subrange(4 * (THUMB * y + x), 4 * (THUMB * y + x) + 4) == sample(still, x, y),
    decreases n,
{
    let m = (n - 1) as nat;
    let k = THUMB * y + x;
    lemma_sample_count(still, n);
    lemma_sample_count(still, m);
    if k < m {
        law_thumbnail_is_tight(still, m, x, y);
        assert(samples(still, n).subrange(4 * k, 4 * k + 4) =~= samples(still, m).subrange(4 * k, 4 * k + 4));
    } else {
        assert((n - 1) % THUMB as int == x && (n - 1) / THUMB as int == y);
        assert(samples(still, n).subrange(4 * k, 4 * k + 4) =~= sample(still, x, y));
    }
}

proof fn lemma_sample_count(still: Still, n: nat)
    ensures
        samples(still, n).len() == 4 * n,
    decreases n,
{
    if n > 0 {
        lemma_sample_count(still, (n - 1) as nat);
    }
}

/// The thumbnail of a picture read from a file, `stride` bytes from row to
/// row: it is upright as it is.
pub fn found_thumbnail(width: u32, height: u32, stride: usize, bytes: &[u8]) -> (t: Thumb)
    requires
        height > 0 ==> (height - 1) * stride + 4 * width <= bytes@.len(),
    ensures
        t.width == width,
        t.height == height,
        t.rotation == 0,
        t.rgba@ == tight_rows(bytes@, stride as int, 4 * width, height as nat),
{
    let len: usize = bytes.len();
    assert(height > 0 ==> 4 * width <= len) by {
        assert(height > 0 ==> (height - 1) * stride >= 0) by (nonlinear_arith);
    }
    let across: usize = if height > 0 { width as usize * 4 } else { 0 };
    let rgba: Vec<u8> = gather_rows(bytes, 0, stride, across, height);
    assert(bytes@.skip(0) =~= bytes@);
    Thumb { rgba, width, height, rotation: 0 }
}

/// A file of the pictures folder.
#[derive(Debug)]
pub struct Picture {
    pub extension: Option<String>,
    /// When it was written, in nanoseconds, where the system tells.
    pub modified: Option<i128>,
}

/// A letter, in either case.
pub open spec fn is_letter(c: char, lower: char, upper: char) -> bool {
    c == lower || c == upper
}

/// A photo, by its extension.
pub open spec fn is_photo(p: Picture) -> bool {
    p.extension matches Some(e) && {
        &&& e@.len() == 3
        &&& is_letter(e@[0], 'j', 'J')
        &&& is_letter(e@[1], 'p', 'P')
        &&& is_letter(e@[2], 'g', 'G')
    }
}

/// `a` was written no later than `b`; what has no time comes before all else.
pub open spec fn not_later(a: Picture, b: Picture) -> bool {
    match (a.modified, b.modified) {
        (None, _) => true,
        (Some(_), None) => false,
        (Some(x), Some(y)) => x <= y,
    }
}

/// The photo at `i` is the newest, the last of them where several are as new.
pub open spec fn newest(files: Seq<Picture>, i: int) -> bool {
    &&& 0 <= i < files.len()
    &&& is_photo(files[i])
    &&& forall|j: int| 0 <= j < files.len() && is_photo(#[trigger] files[j]) ==> not_later(files[j], files[i])
    &&& forall|j: int| i < j < files.len() && is_photo(#[trigger] files[j]) ==> !not_later(files[i], files[j])
}

fn photo_file(p: &Picture) -> (photo: bool)
    ensures
        photo == is_photo(*p),
{
    match &p.extension {
        Some(e) => {
            let v: Vec<char> = text::chars(e.as_str());
            v.len() == 3 && (v[0] == 'j' || v[0] == 'J') && (v[1] == 'p' || v[1] == 'P') && (v[2] == 'g' || v[2] == 'G')
        },
        None => false,
    }
}

fn older(a: &Picture, b: &Picture) -> (o: bool)
    ensures
        o == not_later(*a, *b),
{
    match (a.modified, b.modified) {
        (None, _) => true,
        (Some(_), None) => false,
        (Some(x), Some(y)) => x <= y,
    }
}

/// The newest photo among the files of a folder.
pub fn last_photo(files: &Vec<Picture>) -> (at: Option<usize>)
    ensures
        match at {
            Some(i) => newest(files@, i as int),
            None => forall|i: int| 0 <= i < files@.len() ==> !is_photo(#[trigger] files@[i]),
        },
{
    let mut best: Option<usize> = None;
    let mut i: usize = 0;
    while i < files.len()
        invariant
            i <= files@.len(),
            match best {
                Some(b) => {
                    &&& b < i
                    &&& is_photo(files@[b as int])
                    &&& forall|j: int| 0 <= j < i && is_photo(#[trigger] files@[j]) ==> not_later(files@[j], files@[b as int])
                    &&& forall|j: int| b < j < i && is_photo(#[trigger] files@[j]) ==> !not_later(files@[b as int], files@[j])
                },
                None => forall|j: int| 0 <= j < i ==> !is_photo(#[trigger] files@[j]),
            },
        decreases files@.len() - i,
    {
        if photo_file(&files[i]) {
            match best {
                Some(b) => {
                    if older(&files[b], &files[i]) {
                        best = Some(i);
                    }
                },
                None => {
                    best = Some(i);
                },
            }
        }
        i = i + 1;
    }
    best
}

/// The application's state.
#[derive(Debug)]
pub struct App {
    pub cameras: Vec<CameraInfo>,
    /// The camera open, or being opened.
    pub camera: usize,
    pub session: Option<Session>,
    pub copy_frames: bool,
    /// Fade the next frame in: the camera or mode just changed.
    pub awaiting_frame: bool,
    /// There is a last capture to show.
    pub captured: bool,
    pub saving: bool,
    pub video: bool,
    /// A recorder runs.
    pub recording: bool,
    /// A recording was asked for and has not ended.
    pub record_started: bool,
    pub frame_duration: Option<Number>,
    /// Self-timer seconds, 0 for off.
    pub timer: u32,
    pub countdown: Option<u32>,
    /// Bumped per tap, so a late hide does not hide a newer focus ring.
    pub focus_generation: u32,
    pub focusing: bool,
    /// The compositor says nobody can see the window: the camera is closed.
    pub suspended: bool,
    /// The portal said yes (or is not there): cameras may be opened.
    pub granted: bool,
    /// The photo path has been warmed up in the background.
    pub warmed: bool,
    /// Open the last capture as soon as it is written.
    pub open_pending: bool,
    pub last_meta: Metadata,
    /// AE/AF lock is on; with the exposure time it locked at, if it did.
    pub locked: bool,
    pub lock_exposure: Option<Number>,
    /// Device turn from the accelerometer, and the display turn it implies.
    pub display: Display,
    pub zoom: Number,
    pub zoom_start: Number,
}

/// What to do in turn.
#[derive(Debug)]
pub enum Step {
    Nothing,
    /// Send this to the camera.
    Send(Cmd),
    /// Say that the user did not allow the camera.
    NoAccess,
    /// Say that there is no camera.
    NoCamera,
    /// Ask for access again.
    AskAccess,
}

/// The state once a camera is to be opened. The new session's controls start
/// automatic, and a still requested from the closing session may never
/// arrive.
pub open spec fn reopening(a: App, index: usize) -> App {
    App {
        locked: false,
        lock_exposure: None,
        saving: false,
        session: None,
        awaiting_frame: true,
        camera: index,
        ..a
    }
}

/// The command that opens a camera: at the size asked for, else at the one
/// remembered for it.
pub open spec fn open_command(a: App, index: usize, mode: Option<Mode>, saved: Seq<(String, String)>) -> Cmd {
    Cmd::Open {
        camera: index,
        mode: match mode {
            Some(m) => Some(m),
            None => if index < a.cameras@.len() {
                remembered(saved, a.cameras@[index as int].id@)
            } else {
                None
            },
        },
        video: a.video,
    }
}

/// Where the first camera of this id is, or the length.
pub open spec fn camera_named(cameras: Seq<CameraInfo>, id: Seq<char>) -> int
    decreases cameras.len(),
{
    if cameras.len() == 0 || cameras[0].id@ == id {
        0
    } else {
        1 + camera_named(cameras.drop_first(), id)
    }
}

/// Where the first camera on the back is, or the length.
pub open spec fn camera_behind(cameras: Seq<CameraInfo>) -> int
    decreases cameras.len(),
{
    if cameras.len() == 0 || cameras[0].facing == Facing::Back {
        0
    } else {
        1 + camera_behind(cameras.drop_first())
    }
}

/// The camera to start with: the one used last, else one on the back, else
/// the first.
pub open spec fn preferred(cameras: Seq<CameraInfo>, wanted: Seq<char>) -> int {
    if camera_named(cameras, wanted) < cameras.len() {
        camera_named(cameras, wanted)
    } else if camera_behind(cameras) < cameras.len() {
        camera_behind(cameras)
    } else {
        0
    }
}

proof fn lemma_camera_named(cameras: Seq<CameraInfo>, id: Seq<char>, n: int)
    requires
        0 <= n <= cameras.len(),
        forall|i: int| 0 <= i < n ==> (#[trigger] cameras[i]).id@ != id,
        n == cameras.len() || cameras[n].id@ == id,
    ensures
        camera_named(cameras, id) == n,
    decreases cameras.len(),
{
    if n > 0 {
        let t = cameras.drop_first();
        assert forall|i: int| 0 <= i < n - 1 implies (#[trigger] t[i]).id@ != id by {
            assert(t[i] == cameras[i + 1]);
        }
        assert(cameras[0].id@ != id);
        lemma_camera_named(t, id, n - 1);
    }
}

proof fn lemma_camera_behind(cameras: Seq<CameraInfo>, n: int)
    requires
        0 <= n <= cameras.len(),
        forall|i: int| 0 <= i < n ==> (#[trigger] cameras[i]).facing != Facing::Back,
        n == cameras.len() || cameras[n].facing == Facing::Back,
    ensures
        camera_behind(cameras) == n,
    decreases cameras.len(),
{
    if n > 0 {
        let t = cameras.drop_first();
        assert forall|i: int| 0 <= i < n - 1 implies (#[trigger] t[i]).facing != Facing::Back by {
            assert(t[i] == cameras[i + 1]);
        }
        assert(cameras[0].facing != Facing::Back);
        lemma_camera_behind(t, n - 1);
    }
}

fn prefer(cameras: &Vec<CameraInfo>, wanted: &str) -> (index: usize)
    ensures
        index == preferred(cameras@, wanted@),
{
    let mut i: usize = 0;
    while i < cameras.len() && !text::same(cameras[i].id.as_str(), wanted)
        invariant
            i <= cameras@.len(),
            forall|j: int| 0 <= j < i ==> (#[trigger] cameras@[j]).id@ != wanted@,
        decreases cameras@.len() - i,
    {
        i = i + 1;
    }
    proof {
        lemma_camera_named(cameras@, wanted@, i as int);
    }
    if i < cameras.len() {
        return i;
    }
    let mut k: usize = 0;
    while k < cameras.len() && cameras[k].facing != Facing::Back
        invariant
            k <= cameras@.len(),
            forall|j: int| 0 <= j < k ==> (#[trigger] cameras@[j]).facing != Facing::Back,
        decreases cameras@.len() - k,
    {
        k = k + 1;
    }
    proof {
        lemma_camera_behind(cameras@, k as int);
    }
    if k < cameras.len() {
        k
    } else {
        0
    }
}

/// The self-timer that a setting asks for: off where it is missing or makes
/// no sense.
pub fn timer_of(setting: Option<i32>) -> (timer: u32)
    ensures
        timer == match setting {
            Some(s) if s > 0 => s as u32,
            _ => 0,
        },
{
    match setting {
        Some(s) => if s > 0 {
            s as u32
        } else {
            0
        },
        None => 0,
    }
}

/// Whether there is another camera to switch to.
pub fn shows_switch(cameras: &Vec<CameraInfo>) -> (shown: bool)
    ensures
        shown == (cameras@.len() >= 2),
{
    cameras.len() >= 2
}

impl App {
    /// This is the state at startup.
    pub open spec fn starts(self, timer: u32) -> bool {
        &&& self.cameras@.len() == 0
        &&& self.last_meta@ == Map::<Seq<char>, Seq<Number>>::empty()
        &&& self == (App {
            cameras: self.cameras,
            camera: 0,
            session: None,
            copy_frames: false,
            awaiting_frame: true,
            captured: false,
            saving: false,
            video: false,
            recording: false,
            record_started: false,
            frame_duration: None,
            timer,
            countdown: None,
            focus_generation: 0,
            focusing: false,
            suspended: false,
            granted: false,
            warmed: false,
            open_pending: false,
            last_meta: self.last_meta,
            locked: false,
            lock_exposure: None,
            display: (Display { device: 0, natural_landscape: None, rotation: 0 }),
            zoom: Number::of(1),
            zoom_start: Number::of(1),
        })
    }

    /// The state at startup.
    pub fn new(timer: u32) -> (a: App)
        ensures
            a.starts(timer),
    {
        App {
            cameras: Vec::new(),
            camera: 0,
            session: None,
            copy_frames: false,
            awaiting_frame: true,
            captured: false,
            saving: false,
            video: false,
            recording: false,
            record_started: false,
            frame_duration: None,
            timer,
            countdown: None,
            focus_generation: 0,
            focusing: false,
            suspended: false,
            granted: false,
            warmed: false,
            open_pending: false,
            last_meta: Metadata::new(),
            locked: false,
            lock_exposure: None,
            display: Display { device: 0, natural_landscape: None, rotation: 0 },
            zoom: Number::from_i64(1),
            zoom_start: Number::from_i64(1),
        }
    }

    /// Close the session and open camera `index`.
    pub fn reopen(&mut self, index: usize, mode: Option<Mode>, saved: &Vec<(String, String)>) -> (cmd: Cmd)
        ensures
            *final(self) == reopening(*old(self), index),
            cmd == open_command(*old(self), index, mode, saved@),
    {
        self.locked = false;
        self.lock_exposure = None;
        self.saving = false;
        self.session = None;
        self.awaiting_frame = true;
        self.camera = index;
        let mode: Option<Mode> = match mode {
            Some(m) => Some(m),
            None => if index < self.cameras.len() {
                saved_mode(saved, self.cameras[index].id.as_str())
            } else {
                None
            },
        };
        Cmd::Open { camera: index, mode, video: self.video }
    }

    /// The portal answered. Without one the cameras are used directly.
    pub fn access(&mut self, access: &Access, saved: &Vec<(String, String)>) -> (step: Step)
        ensures
            ({
                let granted = App { granted: true, ..*old(self) };
                match *access {
                    Access::Denied => step is NoAccess && *final(self) == *old(self),
                    _ => if old(self).cameras@.len() > 0 {
                        &&& *final(self) == reopening(granted, old(self).camera)
                        &&& step == Step::Send(open_command(granted, old(self).camera, None, saved@))
                    } else {
                        step is Nothing && *final(self) == granted
                    },
                }
            }),
    {
        match access {
            Access::Denied => Step::NoAccess,
            _ => {
                self.granted = true;
                if self.cameras.len() > 0 {
                    let index: usize = self.camera;
                    Step::Send(self.reopen(index, None, saved))
                } else {
                    Step::Nothing
                }
            },
        }
    }

    /// Try again, from wherever things stopped.
    pub fn retry(&mut self, saved: &Vec<(String, String)>) -> (step: Step)
        ensures
            if old(self).granted {
                &&& *final(self) == reopening(*old(self), old(self).camera)
                &&& step == Step::Send(open_command(*old(self), old(self).camera, None, saved@))
            } else {
                step is AskAccess && *final(self) == *old(self)
            },
    {
        if !self.granted {
            Step::AskAccess
        } else {
            let index: usize = self.camera;
            Step::Send(self.reopen(index, None, saved))
        }
    }

    /// Whether to say what the permission dialog is for, once the portal has
    /// taken a while: `waiting` tells whether the status page still spins.
    pub fn portal_slow(&self, waiting: bool) -> (say: bool)
        ensures
            say == (!self.granted && waiting),
    {
        !self.granted && waiting
    }

    /// The cameras are known. `wanted` is the one used last.
    pub fn found_cameras(&mut self, cameras: Vec<CameraInfo>, wanted: &str, saved: &Vec<(String, String)>) -> (step: Step)
        ensures
            if cameras@.len() == 0 {
                step is NoCamera && *final(self) == *old(self)
            } else {
                let index = preferred(cameras@, wanted@) as usize;
                let known = App { cameras, camera: index, ..*old(self) };
                if old(self).granted {
                    &&& *final(self) == reopening(known, index)
                    &&& step == Step::Send(open_command(known, index, None, saved@))
                } else {
                    step is Nothing && *final(self) == known
                }
            },
    {
        if cameras.len() == 0 {
            return Step::NoCamera;
        }
        let index: usize = prefer(&cameras, wanted);
        self.cameras = cameras;
        self.camera = index;
        if self.granted {
            Step::Send(self.reopen(index, None, saved))
        } else {
            Step::Nothing
        }
    }

    /// A session opened. While nobody can see the window it is closed again.
    pub fn opened(&mut self, session: Session) -> (step: Step)
        ensures
            if old(self).suspended {
                step == Step::Send(Cmd::Close) && *final(self) == *old(self)
            } else {
                step is Nothing && *final(self) == (App {
                    camera: session.camera,
                    session: Some(session),
                    ..*old(self)
                })
            },
    {
        if self.suspended {
            return Step::Send(Cmd::Close);
        }
        self.camera = session.camera;
        self.session = Some(session);
        Step::Nothing
    }
}

/// What a new frame leads to.
#[derive(Debug, Clone, Copy, PartialEq, Eq, Structural)]
pub struct FrameShown {
    /// The capture buffers cannot be shown: ask for copies.
    pub copies: bool,
    /// The first frame since the camera or mode changed.
    pub first: bool,
    /// Warm up the photo path.
    pub warm: bool,
}

/// How a focus scan ended.
#[derive(Debug, Clone, Copy, PartialEq, Eq, Structural)]
pub enum Focus {
    Focused,
    Failed,
}

/// What a frame says of focus.
pub open spec fn focus_in(meta: Map<Seq<char>, Seq<Number>>) -> Option<Focus> {
    match reading(meta, "AfState"@) {
        Some(s) => if s.integer() == 2 {
            Some(Focus::Focused)
        } else if s.integer() == 3 {
            Some(Focus::Failed)
        } else {
            None
        },
        None => None,
    }
}

/// What a new frame leads to: copies are asked for once, when a capture buffer
/// could not be shown.
pub open spec fn frame_shown(a: App, shown: bool, copied: bool) -> FrameShown {
    FrameShown {
        copies: !shown && !copied && !a.copy_frames,
        first: a.awaiting_frame,
        warm: a.awaiting_frame && !a.warmed,
    }
}

/// A front camera's pictures are mirrored.
pub open spec fn mirrors(facing: Facing) -> bool {
    facing == Facing::Front
}

/// The turn that makes a camera's pictures upright on a device turned so.
pub open spec fn turn_for(facing: Facing, rotation: i32, device: i32) -> i32 {
    upright_turn(rotation as int, mirrors(facing), device as int) as i32
}

impl App {
    /// A frame was taken from the slot. `shown` tells whether it became a
    /// texture, `copied` whether it had bytes of its own.
    pub fn frame_ready(&mut self, shown: bool, copied: bool) -> (f: FrameShown)
        ensures
            f == frame_shown(*old(self), shown, copied),
            *final(self) == (App {
                copy_frames: old(self).copy_frames || f.copies,
                awaiting_frame: false,
                warmed: old(self).warmed || f.first,
                ..*old(self)
            }),
    {
        let copies: bool = !shown && !copied && !self.copy_frames;
        if copies {
            self.copy_frames = true;
        }
        let first: bool = self.awaiting_frame;
        self.awaiting_frame = false;
        let warm: bool = first && !self.warmed;
        if first {
            self.warmed = true;
        }
        FrameShown { copies, first, warm }
    }

    /// A frame's metadata arrived. Returns how the focus scan ended, where
    /// one was on.
    pub fn metadata(&mut self, meta: Metadata) -> (settled: Option<Focus>)
        ensures
            settled == if old(self).focusing {
                focus_in(meta@)
            } else {
                None
            },
            *final(self) == (App {
                frame_duration: reading(meta@, "FrameDuration"@),
                last_meta: meta,
                focusing: old(self).focusing && settled is None,
                ..*old(self)
            }),
    {
        self.frame_duration = meta.get("FrameDuration");
        let seen: Option<Focus> = match meta.get("AfState") {
            Some(s) => {
                let state: i32 = s.to_integer();
                if state == 2 {
                    Some(Focus::Focused)
                } else if state == 3 {
                    Some(Focus::Failed)
                } else {
                    None
                }
            },
            None => None,
        };
        self.last_meta = meta;
        if self.focusing && seen.is_some() {
            self.focusing = false;
            seen
        } else {
            None
        }
    }

    /// A photo arrived: it is turned for the way the device is held, and
    /// cropped to the zoom when saved.
    pub fn still(&mut self, still: Still) -> (s: Still)
        requires
            turns_add(still.info, old(self).display.device),
        ensures
            s == (Still { info: s.info, zoom: old(self).zoom, ..still }),
            s.info@ == (Camera {
                rotation: turn_for(still.info.facing, still.info.rotation, old(self).display.device),
                ..still.info@
            }),
            *final(self) == (App { captured: true, ..*old(self) }),
    {
        let mut s = still;
        let front: bool = s.info.facing == Facing::Front;
        s.info.rotation = upright(s.info.rotation, front, self.display.device);
        s.zoom = self.zoom;
        self.captured = true;
        s
    }
}

/// What to say of an error.
#[derive(Debug)]
pub enum Complaint {
    /// Another application has the camera.
    Busy,
    Unavailable(String),
    /// A note over the running viewfinder.
    Note(String),
}

impl App {
    /// The camera reported an error.
    pub fn error(&self, e: String) -> (c: Complaint)
        ensures
            c == if self.session is Some {
                Complaint::Note(e)
            } else if text::contained(e@, "busy"@) {
                Complaint::Busy
            } else {
                Complaint::Unavailable(e)
            },
    {
        if self.session.is_some() {
            Complaint::Note(e)
        } else if text::contains(e.as_str(), "busy") {
            Complaint::Busy
        } else {
            Complaint::Unavailable(e)
        }
    }

    /// Go on to the next camera, not while one records.
    pub fn switch_camera(&mut self, saved: &Vec<(String, String)>) -> (step: Step)
        requires
            old(self).camera < usize::MAX,
        ensures
            if old(self).session is Some && !old(self).recording && old(self).cameras@.len() > 1 {
                let next = ((old(self).camera + 1) % old(self).cameras@.len() as int) as usize;
                &&& *final(self) == reopening(*old(self), next)
                &&& step == Step::Send(open_command(*old(self), next, None, saved@))
            } else {
                step is Nothing && *final(self) == *old(self)
            },
    {
        if self.session.is_some() && !self.recording && self.cameras.len() > 1 {
            let next: usize = (self.camera + 1) % self.cameras.len();
            Step::Send(self.reopen(next, None, saved))
        } else {
            Step::Nothing
        }
    }

    /// The mode at this place of the list.
    pub fn select_mode_index(&self, i: usize) -> (m: Option<Mode>)
        ensures
            m == match self.session {
                Some(s) if i < s.modes@.len() => Some(s.modes@[i as int]),
                _ => None,
            },
    {
        match &self.session {
            Some(s) => if i < s.modes.len() {
                Some(s.modes[i])
            } else {
                None
            },
            None => None,
        }
    }

    /// Change to another mode the camera has, not while it records.
    pub fn select_mode(&mut self, mode: Mode, saved: &Vec<(String, String)>) -> (step: Step)
        ensures
            match old(self).session {
                Some(s) if s.modes@.contains(mode) && mode != s.mode && !old(self).recording => {
                    &&& *final(self) == reopening(*old(self), s.camera)
                    &&& step == Step::Send(open_command(*old(self), s.camera, Some(mode), saved@))
                },
                _ => step is Nothing && *final(self) == *old(self),
            },
    {
        let camera: usize = match &self.session {
            Some(s) => {
                if !has_mode(&s.modes, mode) || mode == s.mode || self.recording {
                    return Step::Nothing;
                }
                s.camera
            },
            None => return Step::Nothing,
        };
        Step::Send(self.reopen(camera, Some(mode), saved))
    }
}

/// Where a recording's frame rate comes from.
#[derive(Debug, Clone, Copy)]
pub enum Rate {
    /// The duration of the last frame, in microseconds.
    Duration(Number),
    /// Frames per second.
    PerSecond(Number),
}

/// What pressing the shutter does.
#[derive(Debug)]
pub enum Shot {
    Nothing,
    /// Take a photo.
    Photo,
    /// Start a recording of this stream, turned by so much.
    Record { view: Mode, fourcc: u32, rotation: i32, rate: Rate },
    /// Stop the recording.
    Stop,
}

/// The rate to record at: that of the last frame, else the camera's fastest,
/// else thirty.
pub open spec fn rate_of(duration: Option<Number>, fps: Option<(Number, Number)>) -> Rate {
    match (duration, fps) {
        (Some(us), _) => Rate::Duration(us),
        (None, Some(f)) => Rate::PerSecond(f.1),
        (None, None) => Rate::PerSecond(Number::of(30)),
    }
}

/// What pressing the shutter for real does: a photo, or start or stop a
/// recording.
pub open spec fn shot_of(a: App) -> Shot {
    match a.session {
        None => Shot::Nothing,
        Some(s) => if a.video {
            if a.recording {
                Shot::Stop
            } else if !a.record_started {
                Shot::Record {
                    view: s.view,
                    fourcc: s.fourcc,
                    rotation: turn_for(s.info.facing, s.info.rotation, a.display.device),
                    rate: rate_of(a.frame_duration, s.fps),
                }
            } else {
                Shot::Nothing
            }
        } else if !a.saving {
            Shot::Photo
        } else {
            Shot::Nothing
        },
    }
}

/// The state once the shutter was pressed.
pub open spec fn after_shot(a: App) -> App {
    match shot_of(a) {
        Shot::Nothing => a,
        Shot::Photo => App { saving: true, ..a },
        Shot::Record { .. } => App { record_started: true, ..a },
        Shot::Stop => App { recording: false, ..a },
    }
}

/// The turns of a camera and of the device can be added up.
pub open spec fn turns_add(info: CameraInfo, device: i32) -> bool {
    if info.facing == Facing::Front {
        i32::MIN <= info.rotation - device <= i32::MAX
    } else {
        i32::MIN <= info.rotation + device <= i32::MAX
    }
}

/// Where a recording would start, the turns can be added up.
pub open spec fn turns_fit(a: App) -> bool {
    a.session is Some && a.video && !a.recording && !a.record_started ==> turns_add(a.session->0.info, a.display.device)
}

/// What the shutter button led to.
#[derive(Debug)]
pub enum Shutter {
    /// The countdown was called off.
    Cancelled,
    /// So many seconds are left.
    Counting(u32),
    Shoot(Shot),
    Nothing,
}

/// The state once a second of the countdown has passed.
pub open spec fn second(a: App) -> App {
    match a.countdown {
        None => a,
        Some(n) => if n > 1 {
            App { countdown: Some((n - 1) as u32), ..a }
        } else {
            after_shot(App { countdown: None, ..a })
        },
    }
}

/// The state once `n` seconds have passed.
pub open spec fn seconds(a: App, n: nat) -> App
    decreases n,
{
    if n == 0 {
        a
    } else {
        second(seconds(a, (n - 1) as nat))
    }
}

/// A self-timer starts, and with it a countdown.
pub open spec fn delays(a: App) -> bool {
    a.timer > 0 && a.session is Some && !a.recording && !a.record_started && !a.saving
}

/// One capture at a time: while a photo is saved no other is taken, and a
/// recording is started once, then stopped once.
pub proof fn law_one_capture_at_a_time(a: App)
    ensures
        shot_of(a) is Photo ==> shot_of(after_shot(a)) is Nothing,
        shot_of(a) is Record ==> shot_of(after_shot(a)) is Nothing && shot_of(App { recording: true, ..after_shot(a) }) is Stop,
        shot_of(a) is Stop && a.record_started ==> shot_of(after_shot(a)) is Nothing,
{
}

impl App {
    /// Press the shutter for real.
    pub fn shoot(&mut self) -> (shot: Shot)
        requires
            turns_fit(*old(self)),
        ensures
            shot == shot_of(*old(self)),
            *final(self) == after_shot(*old(self)),
    {
        if self.session.is_none() {
            return Shot::Nothing;
        }
        if !self.video {
            if self.saving {
                return Shot::Nothing;
            }
            self.saving = true;
            return Shot::Photo;
        }
        if self.recording {
            self.recording = false;
            return Shot::Stop;
        }
        if self.record_started {
            return Shot::Nothing;
        }
        match &self.session {
            None => Shot::Nothing,
            Some(s) => {
                let front: bool = s.info.facing == Facing::Front;
                let rate: Rate = match (self.frame_duration, s.fps) {
                    (Some(us), _) => Rate::Duration(us),
                    (None, Some(f)) => Rate::PerSecond(f.1),
                    (None, None) => Rate::PerSecond(Number::from_i64(30)),
                };
                let rotation: i32 = upright(s.info.rotation, front, self.display.device);
                let shot: Shot = Shot::Record { view: s.view, fourcc: s.fourcc, rotation, rate };
                self.record_started = true;
                shot
            },
        }
    }

    /// The shutter button: calls off a countdown, starts one where a timer is
    /// set, or shoots.
    pub fn capture(&mut self) -> (s: Shutter)
        requires
            turns_fit(*old(self)),
        ensures
            if old(self).countdown is Some {
                s is Cancelled && *final(self) == (App { countdown: None, ..*old(self) })
            } else if delays(*old(self)) {
                &&& s == Shutter::Counting(old(self).timer)
                &&& *final(self) == (App { countdown: Some(old(self).timer), ..*old(self) })
            } else {
                s == Shutter::Shoot(shot_of(*old(self))) && *final(self) == after_shot(*old(self))
            },
    {
        if self.countdown.is_some() {
            self.countdown = None;
            return Shutter::Cancelled;
        }
        if self.timer > 0 && self.session.is_some() && !self.recording && !self.record_started && !self.saving {
            self.countdown = Some(self.timer);
            return Shutter::Counting(self.timer);
        }
        Shutter::Shoot(self.shoot())
    }

    /// A second of the countdown has passed.
    pub fn count_down(&mut self) -> (s: Shutter)
        requires
            turns_fit(*old(self)),
        ensures
            *final(self) == second(*old(self)),
            s == match old(self).countdown {
                None => Shutter::Nothing,
                Some(n) => if n > 1 {
                    Shutter::Counting((n - 1) as u32)
                } else {
                    Shutter::Shoot(shot_of(App { countdown: None, ..*old(self) }))
                },
            },
    {
        match self.countdown {
            None => Shutter::Nothing,
            Some(n) => {
                if n > 1 {
                    self.countdown = Some(n - 1);
                    Shutter::Counting(n - 1)
                } else {
                    self.countdown = None;
                    Shutter::Shoot(self.shoot())
                }
            },
        }
    }

    /// Off, three seconds, ten seconds, off again.
    pub fn cycle_timer(&mut self)
        ensures
            *final(self) == (App { timer: next_timer(old(self).timer), ..*old(self) }),
    {
        self.timer = if self.timer == 0 {
            3
        } else if self.timer == 3 {
            10
        } else {
            0
        };
    }
}

pub open spec fn next_timer(seconds: u32) -> u32 {
    if seconds == 0 {
        3
    } else if seconds == 3 {
        10
    } else {
        0
    }
}

/// Three presses of the timer's button come back to where it was, and every
/// press leaves it off, at three seconds or at ten.
pub proof fn law_timer_cycles(s: u32)
    ensures
        s == 0 || s == 3 || s == 10 ==> next_timer(next_timer(next_timer(s))) == s,
        next_timer(s) == 0 || next_timer(s) == 3 || next_timer(s) == 10,
{
}

/// A countdown shoots when its seconds are over, and before that nothing
/// changes but the seconds left.
pub proof fn law_countdown_shoots_at_its_end(a: App, n: u32, k: nat)
    requires
        a.countdown == Some(n),
        n >= 1,
        k <= n,
    ensures
        k < n ==> seconds(a, k) == (App { countdown: Some((n - k) as u32), ..a }),
        k == n ==> seconds(a, k) == after_shot(App { countdown: None, ..a }),
    decreases k,
{
    if k > 0 {
        law_countdown_shoots_at_its_end(a, n, (k - 1) as nat);
        let before = seconds(a, (k - 1) as nat);
        assert(App { countdown: None::<u32>, ..before } == App { countdown: None::<u32>, ..a });
    }
}

/// A hidden window lets go of the camera, unless it records or counts down.
pub open spec fn lets_go(a: App) -> bool {
    !a.recording && a.countdown is None && a.cameras@.len() > 0
}

/// The state of a hidden window.
pub open spec fn put_away(a: App) -> App {
    App { suspended: true, session: None, ..a }
}

/// The state of a window that is seen again.
pub open spec fn brought_back(a: App) -> App {
    reopening(App { suspended: false, ..a }, a.camera)
}

/// A window that was hidden comes back to the camera it had, for photos or
/// for video as before.
pub proof fn law_window_comes_back_to_its_camera(a: App, saved: Seq<(String, String)>)
    ensures
        put_away(a).suspended,
        !brought_back(put_away(a)).suspended,
        brought_back(put_away(a)).camera == a.camera,
        open_command(App { suspended: false, ..put_away(a) }, a.camera, None, saved) == open_command(a, a.camera, None, saved),
{
}

impl App {
    /// The control that starts a focus scan, the value that starts it, and
    /// whether the scan can be pointed at a spot.
    pub open spec fn scan(self) -> Option<(u32, Number, bool)> {
        match self.session {
            Some(s) => {
                let i = index_named(s.controls@, "AfTrigger"@);
                if i < s.controls@.len() {
                    let start = match value_ending(s.controls@[i].enums@, "Start"@) {
                        Some(v) => v,
                        None => 0,
                    };
                    Some((s.controls@[i].id, Number::of(start as int), s.af_windows))
                } else {
                    None
                }
            },
            None => None,
        }
    }

    /// How a tap starts a focus scan, where the camera can.
    pub fn focus_trigger(&self) -> (t: Option<(u32, Number, bool)>)
        ensures
            t == self.scan(),
    {
        match &self.session {
            Some(s) => match find_named(&s.controls, "AfTrigger") {
                Some(i) => {
                    let start: i32 = match find_ending(&s.controls[i].enums, "Start") {
                        Some(v) => v,
                        None => 0,
                    };
                    Some((s.controls[i].id, Number::from_i64(start as i64), s.af_windows))
                },
                None => None,
            },
            None => None,
        }
    }

    /// A focus scan begins. Returns its number, for hiding its ring.
    pub fn tap_focus(&mut self) -> (generation: u32)
        requires
            old(self).focus_generation < u32::MAX,
        ensures
            generation == old(self).focus_generation + 1,
            *final(self) == (App { focusing: true, focus_generation: generation, ..*old(self) }),
    {
        self.focusing = true;
        self.focus_generation = self.focus_generation + 1;
        self.focus_generation
    }

    /// Hide the focus ring, unless a newer scan shows it.
    pub fn hide_focus(&mut self, generation: u32) -> (hide: bool)
        ensures
            hide == (generation == old(self).focus_generation),
            *final(self) == (App { focusing: old(self).focusing && !hide, ..*old(self) }),
    {
        if generation == self.focus_generation {
            self.focusing = false;
            true
        } else {
            false
        }
    }

    /// The window was hidden or shown. A hidden camera application should not
    /// keep the sensor, the battery and the camera itself busy, unless it
    /// records or counts down.
    pub fn suspend(&mut self, hidden: bool, saved: &Vec<(String, String)>) -> (step: Step)
        ensures
            if hidden && lets_go(*old(self)) {
                &&& step == Step::Send(Cmd::Close)
                &&& *final(self) == put_away(*old(self))
            } else if !hidden && old(self).suspended {
                &&& *final(self) == brought_back(*old(self))
                &&& step == Step::Send(open_command(App { suspended: false, ..*old(self) }, old(self).camera, None, saved@))
            } else {
                step is Nothing && *final(self) == *old(self)
            },
    {
        if hidden && !self.recording && self.countdown.is_none() && self.cameras.len() > 0 {
            self.suspended = true;
            self.session = None;
            Step::Send(Cmd::Close)
        } else if !hidden && self.suspended {
            self.suspended = false;
            let index: usize = self.camera;
            Step::Send(self.reopen(index, None, saved))
        } else {
            Step::Nothing
        }
    }

    /// The exposure and gain that a lock holds: what the camera chose last,
    /// where the panel has an exposure to set.
    pub fn lockable_exposure(&self, has_exposure: bool) -> (held: Option<(Number, Number)>)
        ensures
            held == exposure_held(self.last_meta@, has_exposure),
    {
        match (self.last_meta.get("ExposureTime"), self.last_meta.get("AnalogueGain")) {
            (Some(e), Some(g)) => if has_exposure {
                Some((e, g))
            } else {
                None
            },
            _ => None,
        }
    }

    /// The lens position that a lock holds: where the lens was last, where
    /// the panel has a lens to set and focus can be manual.
    pub fn lockable_lens(&self, has_lens: bool, controls: &Vec<ControlDesc>) -> (held: Option<Number>)
        ensures
            held == lens_held(self.last_meta@, has_lens && manual(controls@, "AfMode"@).len() > 0),
    {
        if has_lens && has_manual(controls, "AfMode") {
            self.last_meta.get("LensPosition")
        } else {
            None
        }
    }

    /// Hold exposure, focus or both: `exposure` is the time it is held at,
    /// `focus` tells whether the lens is. With neither nothing is locked.
    /// Returns what to call what is held.
    pub fn lock(&mut self, exposure: Option<Number>, focus: bool) -> (held: Option<&'static str>)
        requires
            old(self).focus_generation < u32::MAX,
        ensures
            match held {
                Some(h) => lock_name(exposure is Some, focus) == Some(h@) && *final(self) == locked_at(*old(self), exposure),
                None => lock_name(exposure is Some, focus) is None && *final(self) == *old(self),
            },
    {
        if exposure.is_none() && !focus {
            return None;
        }
        self.locked = true;
        self.focusing = false;
        self.focus_generation = self.focus_generation + 1;
        if exposure.is_some() {
            self.lock_exposure = exposure;
            if focus {
                Some("AE/AF")
            } else {
                Some("AE")
            }
        } else {
            Some("AF")
        }
    }

    /// Let go of a lock. Returns whether there was one.
    pub fn unlock(&mut self) -> (was: bool)
        ensures
            was == old(self).locked,
            *final(self) == if was {
                App { locked: false, lock_exposure: None, ..*old(self) }
            } else {
                *old(self)
            },
    {
        if self.locked {
            self.locked = false;
            self.lock_exposure = None;
            true
        } else {
            false
        }
    }

    /// The device was turned.
    pub fn orientation(&mut self, degrees: i32)
        ensures
            *final(self) == (App { display: (Display { device: degrees, ..old(self).display }), ..*old(self) }),
    {
        self.display.device = degrees;
    }

    /// The screen was seen, wider than high or not. Returns the turn and
    /// mirroring of the viewfinder, where the display's turn has changed.
    pub fn apply_orientation(&mut self, landscape: bool) -> (turn: Option<(i32, bool)>)
        requires
            ({
                let d = old(self).display.seen(landscape);
                old(self).session is Some && d.rotation != old(self).display.rotation ==> turns_add(
                    old(self).session->0.info,
                    d.rotation,
                )
            }),
        ensures
            *final(self) == (App { display: old(self).display.seen(landscape), ..*old(self) }),
            turn == match old(self).session {
                Some(s) if final(self).display.rotation != old(self).display.rotation => Some(
                    (turn_for(s.info.facing, s.info.rotation, final(self).display.rotation), mirrors(s.info.facing)),
                ),
                _ => None,
            },
    {
        if !self.display.update(landscape) {
            return None;
        }
        match &self.session {
            Some(s) => {
                let front: bool = s.info.facing == Facing::Front;
                Some((upright(s.info.rotation, front, self.display.rotation), front))
            },
            None => None,
        }
    }
}

/// The exposure and gain to hold: those of a frame that has both, where there
/// is an exposure to set.
pub open spec fn exposure_held(meta: Map<Seq<char>, Seq<Number>>, settable: bool) -> Option<(Number, Number)> {
    match (reading(meta, "ExposureTime"@), reading(meta, "AnalogueGain"@)) {
        (Some(e), Some(g)) => if settable {
            Some((e, g))
        } else {
            None
        },
        _ => None,
    }
}

/// The lens position to hold, where there is a lens to set.
pub open spec fn lens_held(meta: Map<Seq<char>, Seq<Number>>, settable: bool) -> Option<Number> {
    if settable {
        reading(meta, "LensPosition"@)
    } else {
        None
    }
}

/// What to call what a lock holds; nothing where it holds neither.
pub open spec fn lock_name(exposure: bool, focus: bool) -> Option<Seq<char>> {
    if !exposure && !focus {
        None
    } else if !exposure {
        Some("AF"@)
    } else if focus {
        Some("AE/AF"@)
    } else {
        Some("AE"@)
    }
}

/// The state once a lock is on, with the exposure time it holds where it
/// holds one.
pub open spec fn locked_at(a: App, exposure: Option<Number>) -> App {
    App {
        locked: true,
        lock_exposure: if exposure is Some {
            exposure
        } else {
            a.lock_exposure
        },
        focusing: false,
        focus_generation: (a.focus_generation + 1) as u32,
        ..a
    }
}

/// The state once a recorder started, or could not.
pub open spec fn recorder_started(a: App, ok: bool) -> App {
    App { recording: a.recording || ok, record_started: ok, ..a }
}

/// The state once a recording ended, with a file or without.
pub open spec fn recording_ended(a: App, ok: bool) -> App {
    App { record_started: false, captured: a.captured || ok, ..a }
}

/// The state once a photo was written, or could not be.
pub open spec fn photo_saved(a: App, ok: bool) -> App {
    App { saving: false, captured: a.captured || ok, open_pending: a.open_pending && !ok, ..a }
}

/// The last capture is there to be opened.
pub open spec fn can_open(a: App) -> bool {
    !a.saving && a.captured
}

/// 1.99 as a number.
pub const ALMOST_TWO: u64 = 0x3fff_d70a_3d70_a3d7;

/// 3.99 as a number.
pub const ALMOST_FOUR: u64 = 0x400f_eb85_1eb8_51ec;

/// A zoom within its limits, one to four times.
pub open spec fn limited(zoom: Number) -> Number {
    if zoom.below(Number::of(1)) {
        Number::of(1)
    } else if Number::of(4).below(zoom) {
        Number::of(4)
    } else {
        zoom
    }
}

/// The next zoom in turn: twice, four times, once.
pub open spec fn next_zoom(zoom: Number) -> Number {
    if zoom.below(Number { bits: ALMOST_TWO }) {
        Number::of(2)
    } else if zoom.below(Number { bits: ALMOST_FOUR }) {
        Number::of(4)
    } else {
        Number::of(1)
    }
}

impl App {
    /// Zoom, within the limits.
    pub fn set_zoom(&mut self, zoom: Number)
        ensures
            *final(self) == (App { zoom: limited(zoom), ..*old(self) }),
    {
        let (one, four) = (Number::from_i64(1), Number::from_i64(4));
        self.zoom = if zoom.is_below(one) {
            one
        } else if four.is_below(zoom) {
            four
        } else {
            zoom
        };
    }

    /// A pinch begins: it scales the zoom there is now.
    pub fn zoom_begin(&mut self)
        ensures
            *final(self) == (App { zoom_start: old(self).zoom, ..*old(self) }),
    {
        self.zoom_start = self.zoom;
    }

    /// Go on to the next zoom.
    pub fn cycle_zoom(&mut self)
        ensures
            *final(self) == (App { zoom: limited(next_zoom(old(self).zoom)), ..*old(self) }),
    {
        let next: Number = if self.zoom.is_below(Number { bits: ALMOST_TWO }) {
            Number::from_i64(2)
        } else if self.zoom.is_below(Number { bits: ALMOST_FOUR }) {
            Number::from_i64(4)
        } else {
            Number::from_i64(1)
        };
        self.set_zoom(next);
    }

    /// A recorder started, or could not.
    pub fn recording_started(&mut self, ok: bool)
        ensures
            *final(self) == recorder_started(*old(self), ok),
    {
        if ok {
            self.recording = true;
        }
        self.record_started = ok;
    }

    /// Whether the recording's clock runs.
    pub fn tick(&self) -> (runs: bool)
        ensures
            runs == (self.record_started && self.recording),
    {
        self.record_started && self.recording
    }

    /// A recording ended, with a file or without.
    pub fn recording_done(&mut self, ok: bool)
        ensures
            *final(self) == recording_ended(*old(self), ok),
    {
        self.record_started = false;
        if ok {
            self.captured = true;
        }
    }

    /// The newest photo on disk was found. Returns whether to show it: not
    /// over one taken since.
    pub fn found(&mut self) -> (show: bool)
        ensures
            show == !old(self).captured,
            *final(self) == (App { captured: true, ..*old(self) }),
    {
        let show: bool = !self.captured;
        self.captured = true;
        show
    }

    /// A photo was written, or could not be. Returns whether to open it.
    pub fn saved(&mut self, ok: bool) -> (open: bool)
        ensures
            open == (ok && old(self).open_pending),
            *final(self) == photo_saved(*old(self), ok),
    {
        self.saving = false;
        if !ok {
            return false;
        }
        self.captured = true;
        let open: bool = self.open_pending;
        self.open_pending = false;
        open
    }

    /// Open the last capture: now, or as soon as it is written.
    pub fn open_last(&mut self) -> (now: bool)
        ensures
            now == can_open(*old(self)),
            *final(self) == (App { open_pending: old(self).open_pending || old(self).saving, ..*old(self) }),
    {
        if self.saving {
            self.open_pending = true;
            false
        } else {
            self.captured
        }
    }
}

/// `m` is the narrowest wide mode of at least 1920, the first of them.
pub open spec fn narrowest_wide(modes: Seq<Mode>, m: Mode) -> bool {
    exists|i: int|
        {
            &&& 0 <= i < modes.len()
            &&& #[trigger] modes[i] == m
            &&& is_wide(m) && m.width >= 1920
            &&& forall|j: int|
                0 <= j < modes.len() && is_wide(#[trigger] modes[j]) && modes[j].width >= 1920 ==> m.width <= modes[j].width
            &&& forall|j: int|
                0 <= j < i && is_wide(#[trigger] modes[j]) && modes[j].width >= 1920 ==> m.width < modes[j].width
        }
}

/// `m` is the widest wide mode, the last of them.
pub open spec fn widest_wide(modes: Seq<Mode>, m: Mode) -> bool {
    exists|i: int|
        {
            &&& 0 <= i < modes.len()
            &&& #[trigger] modes[i] == m
            &&& is_wide(m)
            &&& forall|j: int| 0 <= j < modes.len() && is_wide(#[trigger] modes[j]) ==> modes[j].width <= m.width
            &&& forall|j: int| i < j < modes.len() && is_wide(#[trigger] modes[j]) ==> modes[j].width < m.width
        }
}

/// Some wide mode has at least this width.
pub open spec fn has_wide(modes: Seq<Mode>, width: u32) -> bool {
    exists|i: int| 0 <= i < modes.len() && is_wide(#[trigger] modes[i]) && modes[i].width >= width
}

/// The mode that photo or video opens with: video at 1080p (a fast, binned
/// mode where there is one), photos at the full sensor.
#[verifier::opaque]
pub open spec fn is_target(modes: Seq<Mode>, video: bool, m: Option<Mode>) -> bool {
    if !video {
        m == if modes.len() > 0 {
            Some(modes[0])
        } else {
            None
        }
    } else if has_wide(modes, 1920) {
        m is Some && narrowest_wide(modes, m->0)
    } else if has_wide(modes, 0) {
        m is Some && widest_wide(modes, m->0)
    } else {
        m is None
    }
}

fn find_narrowest_wide(modes: &Vec<Mode>) -> (r: Option<Mode>)
    ensures
        match r {
            Some(m) => narrowest_wide(modes@, m),
            None => !has_wide(modes@, 1920),
        },
{
    let mut best: Option<Mode> = None;
    let mut i: usize = 0;
    while i < modes.len()
        invariant
            i <= modes@.len(),
            best is None ==> forall|j: int| 0 <= j < i ==> !(is_wide(#[trigger] modes@[j]) && modes@[j].width >= 1920),
            best matches Some(b) ==> narrowest_wide(modes@.take(i as int), b),
        decreases modes@.len() - i,
    {
        let m: Mode = modes[i];
        let fits: bool = wide(m) && m.width >= 1920;
        let ghost before = modes@.take(i as int);
        let ghost after = modes@.take(i + 1);
        assert(after =~= before.push(m));
        match best {
            None => {
                if fits {
                    best = Some(m);
                    assert(after[i as int] == m);
                    assert forall|j: int| 0 <= j < i implies !(is_wide(#[trigger] after[j]) && after[j].width >= 1920) by {
                        assert(after[j] == modes@[j]);
                    }
                    assert(narrowest_wide(after, m));
                }
            },
            Some(b) => {
                let ghost k = choose|k: int|
                    {
                        &&& 0 <= k < before.len()
                        &&& #[trigger] before[k] == b
                        &&& is_wide(b) && b.width >= 1920
                        &&& forall|j: int|
                            0 <= j < before.len() && is_wide(#[trigger] before[j]) && before[j].width >= 1920 ==> b.width
                                <= before[j].width
                        &&& forall|j: int|
                            0 <= j < k && is_wide(#[trigger] before[j]) && before[j].width >= 1920 ==> b.width
                                < before[j].width
                    };
                assert forall|j: int| 0 <= j < i && is_wide(#[trigger] after[j]) && after[j].width >= 1920 implies b.width
                    <= after[j].width by {
                    assert(after[j] == before[j]);
                }
                if fits && m.width < b.width {
                    best = Some(m);
                    assert(after[i as int] == m);
                    assert(narrowest_wide(after, m));
                } else {
                    assert(after[k] == b);
                    assert forall|j: int| 0 <= j < k && is_wide(#[trigger] after[j]) && after[j].width >= 1920 implies b.width
                        < after[j].width by {
                        assert(after[j] == before[j]);
                    }
                    assert(narrowest_wide(after, b));
                }
            },
        }
        i = i + 1;
    }
    assert(modes@.take(i as int) =~= modes@);
    best
}

fn find_widest_wide(modes: &Vec<Mode>) -> (r: Option<Mode>)
    ensures
        match r {
            Some(m) => widest_wide(modes@, m),
            None => !has_wide(modes@, 0),
        },
{
    let mut best: Option<Mode> = None;
    let mut i: usize = 0;
    while i < modes.len()
        invariant
            i <= modes@.len(),
            best is None ==> forall|j: int| 0 <= j < i ==> !is_wide(#[trigger] modes@[j]),
            best matches Some(b) ==> widest_wide(modes@.take(i as int), b),
        decreases modes@.len() - i,
    {
        let m: Mode = modes[i];
        let fits: bool = wide(m);
        let ghost before = modes@.take(i as int);
        let ghost after = modes@.take(i + 1);
        assert(after =~= before.push(m));
        match best {
            None => {
                if fits {
                    best = Some(m);
                    assert(after[i as int] == m);
                    assert forall|j: int| 0 <= j < i implies !is_wide(#[trigger] after[j]) by {
                        assert(after[j] == modes@[j]);
                    }
                    assert(widest_wide(after, m));
                }
            },
            Some(b) => {
                let ghost k = choose|k: int|
                    {
                        &&& 0 <= k < before.len()
                        &&& #[trigger] before[k] == b
                        &&& is_wide(b)
                        &&& forall|j: int|
                            0 <= j < before.len() && is_wide(#[trigger] before[j]) ==> before[j].width <= b.width
                        &&& forall|j: int| k < j < before.len() && is_wide(#[trigger] before[j]) ==> before[j].width < b.width
                    };
                assert forall|j: int| 0 <= j < i && is_wide(#[trigger] after[j]) implies after[j].width <= b.width by {
                    assert(after[j] == before[j]);
                }
                if fits && m.width >= b.width {
                    best = Some(m);
                    assert(after[i as int] == m);
                    assert(widest_wide(after, m));
                } else {
                    assert(after[k] == b);
                    assert forall|j: int| k < j < after.len() && is_wide(#[trigger] after[j]) implies after[j].width < b.width by {
                        if j < i {
                            assert(after[j] == before[j]);
                        }
                    }
                    assert(widest_wide(after, b));
                }
            },
        }
        i = i + 1;
    }
    assert(modes@.take(i as int) =~= modes@);
    best
}

/// Video opens with a mode of the camera that is wide.
pub proof fn law_video_is_wide(modes: Seq<Mode>, m: Mode)
    requires
        is_target(modes, true, Some(m)),
    ensures
        modes.contains(m),
        is_wide(m),
{
    reveal(is_target);
}

/// The state for photos or for video.
pub open spec fn with_video(a: App, video: bool) -> App {
    App {
        video,
        zoom: if video {
            Number::of(1)
        } else {
            a.zoom
        },
        ..a
    }
}

/// The mode that photo or video opens with.
pub fn target_mode(modes: &Vec<Mode>, video: bool) -> (m: Option<Mode>)
    ensures
        is_target(modes@, video, m),
{
    reveal(is_target);
    if !video {
        return if modes.len() > 0 { Some(modes[0]) } else { None };
    }
    if let Some(m) = find_narrowest_wide(modes) {
        assert(has_wide(modes@, 1920)) by {
            let i = choose|i: int| 0 <= i < modes@.len() && modes@[i] == m;
            assert(is_wide(modes@[i]));
        }
        return Some(m);
    }
    match find_widest_wide(modes) {
        Some(m) => {
            assert(has_wide(modes@, 0)) by {
                let i = choose|i: int| 0 <= i < modes@.len() && modes@[i] == m;
                assert(is_wide(modes@[i]));
            }
            Some(m)
        },
        None => None,
    }
}

impl App {
    /// Change between photo and video. Video is not zoomed, and each opens
    /// the mode that suits it.
    #[verifier::spinoff_prover]
    pub fn set_video(&mut self, video: bool, saved: &Vec<(String, String)>) -> (step: Step)
        ensures
            match (old(self).session, step) {
                (Some(s), Step::Send(cmd)) => {
                    &&& *final(self) == reopening(with_video(*old(self), video), s.camera)
                    &&& cmd matches Cmd::Open { mode, .. } && mode is Some && is_target(s.modes@, video, mode) && cmd
                        == open_command(with_video(*old(self), video), s.camera, mode, saved@)
                },
                (Some(s), Step::Nothing) => {
                    &&& is_target(s.modes@, video, None)
                    &&& *final(self) == with_video(*old(self), video)
                },
                (None, step) => step is Nothing && *final(self) == with_video(*old(self), video),
                _ => false,
            },
    {
        self.video = video;
        if video {
            self.zoom = Number::from_i64(1);
        }
        let (camera, target): (usize, Option<Mode>) = match &self.session {
            Some(s) => (s.camera, target_mode(&s.modes, video)),
            None => return Step::Nothing,
        };
        match target {
            Some(m) => Step::Send(self.reopen(camera, Some(m), saved)),
            None => Step::Nothing,
        }
    }
}

/// What the focus chip shows.
#[derive(Debug, Clone, Copy)]
pub enum FocusChip {
    Locked,
    /// Manual focus, at this lens position.
    Manual(Number),
    /// A single scan after a tap.
    Single,
    Continuous,
}

pub open spec fn chip_of(locked: bool, manual: bool, single: bool, lens: Option<Number>) -> FocusChip {
    if manual && locked {
        FocusChip::Locked
    } else if manual && lens is Some {
        FocusChip::Manual(lens->0)
    } else if single {
        FocusChip::Single
    } else {
        FocusChip::Continuous
    }
}

impl App {
    /// What the focus chip shows: `manual` and `single` are the panel's focus
    /// modes, `lens` the position the camera reports.
    pub fn focus_chip(&self, manual: bool, single: bool, lens: Option<Number>) -> (c: FocusChip)
        ensures
            c == chip_of(self.locked, manual, single, lens),
    {
        if manual && self.locked {
            return FocusChip::Locked;
        }
        if let Some(d) = lens {
            if manual {
                return FocusChip::Manual(d);
            }
        }
        if single {
            FocusChip::Single
        } else {
            FocusChip::Continuous
        }
    }
}

/// The values shown over the viewfinder.
#[derive(Debug, Clone, Copy, PartialEq, Eq, Structural)]
pub struct Chips {
    pub iso: bool,
    pub shutter: bool,
    pub ev: bool,
    pub wb: bool,
    pub focus: bool,
    pub fps: bool,
}

/// One of the panel's rows is of this name.
pub open spec fn has_row(rows: Seq<String>, name: Seq<char>) -> bool {
    exists|i: int| 0 <= i < rows.len() && (#[trigger] rows[i])@ == name
}

fn row_named(rows: &Vec<String>, name: &str) -> (found: bool)
    ensures
        found == has_row(rows@, name@),
{
    let mut i: usize = 0;
    while i < rows.len()
        invariant
            i <= rows@.len(),
            forall|j: int| 0 <= j < i ==> (#[trigger] rows@[j])@ != name@,
        decreases rows@.len() - i,
    {
        if text::same(rows[i].as_str(), name) {
            return true;
        }
        i = i + 1;
    }
    false
}

/// The values there are rows for. Frame rate is a video decision; photos
/// leave it to exposure.
pub open spec fn chips_of(rows: Seq<String>, video: bool) -> Chips {
    Chips {
        iso: has_row(rows, "AnalogueGain"@) || has_row(rows, "AeEnable"@),
        shutter: has_row(rows, "ExposureTime"@) || has_row(rows, "AeEnable"@),
        ev: has_row(rows, "ExposureValue"@),
        wb: has_row(rows, "AwbMode"@) || has_row(rows, "AwbEnable"@) || has_row(rows, "ColourTemperature"@),
        focus: has_row(rows, "AfMode"@) || has_row(rows, "LensPosition"@),
        fps: video && has_row(rows, "FrameDurationLimits"@),
    }
}

pub fn chips(rows: &Vec<String>, video: bool) -> (c: Chips)
    ensures
        c == chips_of(rows@, video),
{
    Chips {
        iso: row_named(rows, "AnalogueGain") || row_named(rows, "AeEnable"),
        shutter: row_named(rows, "ExposureTime") || row_named(rows, "AeEnable"),
        ev: row_named(rows, "ExposureValue"),
        wb: row_named(rows, "AwbMode") || row_named(rows, "AwbEnable") || row_named(rows, "ColourTemperature"),
        focus: row_named(rows, "AfMode") || row_named(rows, "LensPosition"),
        fps: video && row_named(rows, "FrameDurationLimits"),
    }
}

/// The zoom stays between one and four times.
pub proof fn law_zoom_stays_in_limits(zoom: Number)
    requires
        !zoom.not_a_number(),
    ensures
        !limited(zoom).below(Number::of(1)),
        !Number::of(4).below(limited(zoom)),
        !limited(zoom).not_a_number(),
{
    reveal_with_fuel(crate::number::log2, 4);
    vstd::arithmetic::power2::lemma2_to64();
    assert(Number::of(1).bits == 0x3ff0_0000_0000_0000);
    assert(crate::number::round_even(4 * crate::number::UNIT, 4) == crate::number::UNIT);
    assert(Number::of(4).bits == 0x4010_0000_0000_0000);
}

/// Of the modes those that `video` can use: all for photos, the wide ones for
/// video.
pub open spec fn usable_modes(modes: Seq<Mode>, video: bool) -> Seq<Mode>
    decreases modes.len(),
{
    if modes.len() == 0 {
        modes
    } else if !video || is_wide(modes.last()) {
        usable_modes(modes.drop_last(), video).push(modes.last())
    } else {
        usable_modes(modes.drop_last(), video)
    }
}

/// The sizes that the resolution menu offers.
pub fn menu_modes(modes: &Vec<Mode>, video: bool) -> (out: Vec<Mode>)
    ensures
        out@ == usable_modes(modes@, video),
{
    let mut out: Vec<Mode> = Vec::new();
    let mut i: usize = 0;
    assert(modes@.take(0) =~= out@);
    while i < modes.len()
        invariant
            i <= modes@.len(),
            out@ == usable_modes(modes@.take(i as int), video),
        decreases modes@.len() - i,
    {
        assert(modes@.take(i + 1).drop_last() =~= modes@.take(i as int));
        if !video || wide(modes[i]) {
            out.push(modes[i]);
        }
        i = i + 1;
    }
    assert(modes@.take(i as int) =~= modes@);
    out
}

/// A shape goes by a name where its ratio is within two hundredths of it, or
/// three for 16:9, the first of the names that fit; and video can use what is
/// within five hundredths of 16:9.
pub proof fn law_shapes_are_named_by_ratio(m: Mode)
    ensures
        aspect_of(m) is FourByThree ==> ratio_within(m, 4, 3, 201),
        ratio_within(m, 4, 3, 199) ==> aspect_of(m) is FourByThree,
        aspect_of(m) is SixteenByNine ==> ratio_within(m, 16, 9, 301) && !ratio_within(m, 4, 3, 199),
        ratio_within(m, 16, 9, 299) && !ratio_within(m, 4, 3, 201) ==> aspect_of(m) is SixteenByNine,
        aspect_of(m) is ThreeByTwo ==> ratio_within(m, 3, 2, 201) && !ratio_within(m, 4, 3, 199),
        ratio_within(m, 3, 2, 199) && !ratio_within(m, 4, 3, 201) && !ratio_within(m, 16, 9, 301) ==> aspect_of(m) is ThreeByTwo,
        aspect_of(m) is Square ==> ratio_within(m, 1, 1, 201),
        ratio_within(m, 1, 1, 199) && !ratio_within(m, 4, 3, 201) && !ratio_within(m, 16, 9, 301) && !ratio_within(m, 3, 2, 201)
            ==> aspect_of(m) is Square,
        aspect_of(m) is Other ==> !ratio_within(m, 4, 3, 199) && !ratio_within(m, 16, 9, 299) && !ratio_within(m, 3, 2, 199)
            && !ratio_within(m, 1, 1, 199),
        is_wide(m) ==> ratio_within(m, 16, 9, 501),
        ratio_within(m, 16, 9, 499) ==> is_wide(m),
{
    law_near_ratios_are_close(m, 4, 3, 2);
    law_near_ratios_are_close(m, 16, 9, 3);
    law_near_ratios_are_close(m, 3, 2, 2);
    law_near_ratios_are_close(m, 1, 1, 2);
    law_near_ratios_are_close(m, 16, 9, 5);
}

/// A recording goes by the largest of the usual widths that its mode has, and
/// below them all by its own height.
pub proof fn law_recordings_go_by_width(m: Mode)
    ensures
        m.width >= 3840 <==> video_name_of(m) == "4K"@,
        1920 <= m.width < 3840 ==> video_name_of(m) == "1080p"@,
        1280 <= m.width < 1920 ==> video_name_of(m) == "720p"@,
        m.width < 1280 ==> video_name_of(m) == text::decimal(m.height as nat) + seq!['p'],
{
    reveal_strlit("4K");
    reveal_strlit("1080p");
    reveal_strlit("720p");
    reveal_strlit("p");
    assert("p"@ =~= seq!['p']);
    assert("4K"@[1] == 'K' && "4K"@.len() == 2);
    assert("1080p"@.len() == 5 && "720p"@.len() == 4);
    let s = text::decimal(m.height as nat) + "p"@;
    assert(s.last() == 'p');
    if s == "4K"@ {
        assert(s.last() == "4K"@[1]);
    }
}

/// A template is kept but for its places, each of which is filled.
pub proof fn law_templates_are_filled(a: Seq<char>, b: Seq<char>, with: Seq<char>)
    requires
        forall|i: int| 0 <= i < a.len() ==> #[trigger] a[i] != '{',
    ensures
        filled_in(a + seq!['{', '}'] + b, with) == a + with + filled_in(b, with),
        filled_in(a, with) == a,
    decreases a.len(),
{
    let s = a + seq!['{', '}'] + b;
    if a.len() == 0 {
        assert(s[0] == '{' && s[1] == '}');
        assert(s.skip(2) =~= b);
        assert(a + with =~= with);
        assert(filled_in(s, with) =~= a + with + filled_in(b, with));
    } else {
        let t = a.drop_first();
        assert forall|i: int| 0 <= i < t.len() implies #[trigger] t[i] != '{' by {
            assert(t[i] == a[i + 1]);
        }
        law_templates_are_filled(t, b, with);
        assert(s[0] == a[0] && a[0] != '{');
        assert(s.drop_first() =~= t + seq!['{', '}'] + b);
        assert(filled_in(s, with) =~= a + with + filled_in(b, with));
        assert(filled_in(a, with) =~= a);
    }
}

/// A thumbnail has the still's shape: as many rows as its width allows, and
/// one at least.
pub proof fn law_thumbnails_keep_the_shape(width: int, height: int)
    requires
        width > 0,
        height >= 0,
    ensures
        thumb_height(width, height) >= 1,
        128 * height >= width ==> {
            let h = thumb_height(width, height);
            h * width <= 128 * height < (h + 1) * width
        },
        128 * height < width ==> thumb_height(width, height) == 1,
{
    let h = THUMB * height / width;
    vstd::arithmetic::div_mod::lemma_fundamental_div_mod(THUMB * height, width);
    assert(width * h <= 128 * height < width * h + width);
    assert(h * width == width * h && (h + 1) * width == width * h + width) by (nonlinear_arith);
    if 128 * height >= width {
        assert(h >= 1) by (nonlinear_arith)
            requires
                128 * height >= width,
                128 * height < (h + 1) * width,
                width > 0,
        ;
    } else {
        assert(h <= 0) by (nonlinear_arith)
            requires
                h * width <= 128 * height,
                128 * height < width,
                width > 0,
        ;
    }
}

/// A thumbnail's pixel is the still's at the same part of its width and of
/// its height.
pub proof fn law_thumbnails_sample_in_proportion(still: Still, x: int, y: int, column: int, line: int)
    requires
        still.width > 0,
        0 <= x < 128,
        128 * column <= x * still.width < 128 * (column + 1),
        ({
            let h = thumb_height(still.width as int, still.height as int);
            line * h <= y * still.height < (line + 1) * h
        }),
    ensures
        sample_at(still, x, y) == line * still.stride + 4 * column,
{
    let h = thumb_height(still.width as int, still.height as int);
    let (a, b) = (x * still.width, y * still.height);
    law_thumbnails_keep_the_shape(still.width as int, still.height as int);
    assert((line + 1) * h == line * h + h) by (nonlinear_arith);
    vstd::arithmetic::div_mod::lemma_fundamental_div_mod_converse(a, 128, column, a - 128 * column);
    vstd::arithmetic::div_mod::lemma_fundamental_div_mod_converse(b, h, line, b - line * h);
}

/// The bytes of a pixel come out red first: formats that start with blue, by
/// their names, are turned around, and all others are not.
pub proof fn law_samples_come_out_red_first(still: Still, x: int, y: int)
    requires
        0 <= sample_at(still, x, y),
        sample_at(still, x, y) + 3 <= still.rgba@.len(),
    ensures
        ({
            let (i, s) = (sample_at(still, x, y), sample(still, x, y));
            let blue = still.fourcc == code_named("XR24"@) || still.fourcc == code_named("AR24"@);
            &&& s.len() == 4 && s[3] == 255
            &&& blue ==> s[0] == still.rgba@[i + 2] && s[1] == still.rgba@[i + 1] && s[2] == still.rgba@[i]
            &&& !blue ==> s[0] == still.rgba@[i] && s[1] == still.rgba@[i + 1] && s[2] == still.rgba@[i + 2]
        }),
{
    reveal_strlit("XR24");
    reveal_strlit("AR24");
}

/// The camera to start with is one of the cameras: of the id wanted where
/// there is one, else on the back where there is one.
pub proof fn law_preferred_camera_is_there(cameras: Seq<CameraInfo>, wanted: Seq<char>, i: int)
    requires
        0 <= i < cameras.len(),
    ensures
        0 <= preferred(cameras, wanted) < cameras.len(),
        cameras[i].id@ == wanted ==> cameras[preferred(cameras, wanted)].id@ == wanted && preferred(cameras, wanted) <= i,
        cameras[i].facing == Facing::Back && (forall|j: int| 0 <= j < cameras.len() ==> (#[trigger] cameras[j]).id@ != wanted)
            ==> cameras[preferred(cameras, wanted)].facing == Facing::Back && preferred(cameras, wanted) <= i,
{
    lemma_camera_search(cameras, wanted);
}

proof fn lemma_camera_search(cameras: Seq<CameraInfo>, wanted: Seq<char>)
    ensures
        0 <= camera_named(cameras, wanted) <= cameras.len(),
        0 <= camera_behind(cameras) <= cameras.len(),
        camera_named(cameras, wanted) < cameras.len() ==> cameras[camera_named(cameras, wanted)].id@ == wanted,
        camera_behind(cameras) < cameras.len() ==> cameras[camera_behind(cameras)].facing == Facing::Back,
        forall|j: int| 0 <= j < camera_named(cameras, wanted) ==> (#[trigger] cameras[j]).id@ != wanted,
        forall|j: int| 0 <= j < camera_behind(cameras) ==> (#[trigger] cameras[j]).facing != Facing::Back,
    decreases cameras.len(),
{
    if cameras.len() > 0 {
        let t = cameras.drop_first();
        lemma_camera_search(t, wanted);
        assert forall|j: int| 0 <= j < camera_named(cameras, wanted) implies (#[trigger] cameras[j]).id@ != wanted by {
            if j > 0 {
                assert(t[j - 1].id@ != wanted);
            }
        }
        assert forall|j: int| 0 <= j < camera_behind(cameras) implies (#[trigger] cameras[j]).facing != Facing::Back by {
            if j > 0 {
                assert(t[j - 1].facing != Facing::Back);
            }
        }
    }
}

/// Opening a camera forgets the lock, the photo under way and the old
/// session, fades the next frame in, and leaves everything else.
pub proof fn law_reopening_starts_over(a: App, index: usize)
    ensures
        ({
            let b = reopening(a, index);
            &&& b.camera == index && b.session is None && b.awaiting_frame
            &&& !b.locked && b.lock_exposure is None && !b.saving
            &&& b.cameras == a.cameras && b.video == a.video && b.zoom == a.zoom && b.timer == a.timer
            &&& b.countdown == a.countdown && b.display == a.display && b.granted == a.granted && b.suspended == a.suspended
            &&& b.copy_frames == a.copy_frames && b.captured == a.captured && b.recording == a.recording
            &&& b.record_started == a.record_started && b.warmed == a.warmed && b.open_pending == a.open_pending
        }),
{
}

/// A camera opens at the size asked for, else at the one remembered for its
/// id, for photos or for video as the application is set.
pub proof fn law_cameras_open_at_the_remembered_size(
    a: App,
    index: usize,
    asked: Mode,
    before: Seq<(String, String)>,
    saved: Seq<(String, String)>,
    m: Mode,
)
    requires
        index < a.cameras@.len(),
        remembers(before, saved, a.cameras@[index as int].id@, m),
    ensures
        open_command(a, index, Some(asked), saved) == (Cmd::Open { camera: index, mode: Some(asked), video: a.video }),
        open_command(a, index, None, saved) == (Cmd::Open { camera: index, mode: Some(m), video: a.video }),
{
    let id = a.cameras@[index as int].id@;
    law_remembered_size_comes_back(before, saved, id, m, id);
}

/// A scan has ended where the camera's state is two, in focus, or three, out
/// of it, and in no other state.
pub proof fn law_scans_end_in_two_states(meta: Map<Seq<char>, Seq<Number>>)
    ensures
        reading(meta, "AfState"@) is None ==> focus_in(meta) is None,
        reading(meta, "AfState"@) matches Some(s) ==> {
            &&& focus_in(meta) == Some(Focus::Focused) <==> s.integer() == 2
            &&& focus_in(meta) == Some(Focus::Failed) <==> s.integer() == 3
            &&& s.integer() < 2 || s.integer() > 3 ==> focus_in(meta) is None
        },
{
}

/// Pictures turn with the device, those of a front camera against it, and
/// only a front camera's are mirrored.
pub proof fn law_pictures_turn_with_their_side(facing: Facing, rotation: i32, device: i32)
    ensures
        0 <= turn_for(facing, rotation, device) < 360,
        facing == Facing::Front ==> (turn_for(facing, rotation, device) - rotation + device) % 360 == 0,
        facing == Facing::Back || facing == Facing::External ==> (turn_for(facing, rotation, device) - rotation - device) % 360 == 0,
        mirrors(facing) <==> facing == Facing::Front,
{
}

/// The shutter shoots what the application is set to, of the session that
/// runs, and nothing without one: a photo unless one is being saved; a
/// recording of the viewfinder's stream, upright for the device, unless one
/// was started; and the end of the recording that runs.
pub proof fn law_shutter_shoots_what_is_set(a: App)
    ensures
        a.session is None ==> shot_of(a) is Nothing,
        shot_of(a) is Photo <==> a.session is Some && !a.video && !a.saving,
        shot_of(a) is Stop <==> a.session is Some && a.video && a.recording,
        shot_of(a) is Record <==> a.session is Some && a.video && !a.recording && !a.record_started,
        shot_of(a) matches Shot::Record { view, fourcc, rotation, rate } ==> {
            let s = a.session->0;
            &&& view == s.view && fourcc == s.fourcc
            &&& rotation == turn_for(s.info.facing, s.info.rotation, a.display.device)
            &&& a.frame_duration matches Some(us) ==> rate == Rate::Duration(us)
            &&& a.frame_duration is None ==> match s.fps {
                Some((slow, fast)) => rate == Rate::PerSecond(fast),
                None => rate matches Rate::PerSecond(r) && r.rounded() == 30,
            }
        },
        after_shot(a).saving == (a.saving || shot_of(a) is Photo),
        after_shot(a).record_started == (a.record_started || shot_of(a) is Record),
        after_shot(a).recording == (a.recording && shot_of(a) !is Stop),
        after_shot(a).session == a.session && after_shot(a).video == a.video && after_shot(a).countdown == a.countdown,
{
    law_integers_survive(30);
}

/// A countdown starts only with a timer and a session, and not while
/// something is captured.
pub proof fn law_countdowns_wait_for_captures(a: App)
    ensures
        a.saving || a.recording || a.record_started || a.session is None || a.timer == 0 ==> !delays(a),
        a.session is Some && a.timer > 0 && !a.saving && !a.recording && !a.record_started ==> delays(a),
{
}

/// A hidden window keeps the camera while it records or counts down, and has
/// none to let go of where there are no cameras.
pub proof fn law_hidden_windows_let_go(a: App)
    ensures
        a.recording || a.countdown is Some || a.cameras@.len() == 0 ==> !lets_go(a),
        !a.recording && a.countdown is None && a.cameras@.len() > 0 ==> lets_go(a),
        put_away(a).session is None && put_away(a).cameras == a.cameras && put_away(a).video == a.video,
        brought_back(a).awaiting_frame && brought_back(a).camera == a.camera && brought_back(a).video == a.video,
{
}

/// A scan is started by the trigger's label for it, or by 0 where it has
/// none, and can be pointed at a spot where the session says so.
pub proof fn law_taps_start_a_scan(a: App, k: int, m: int)
    requires
        a.session is Some,
        first_of_name(a.session->0.controls@, k),
        a.session->0.controls@[k].name@ == "AfTrigger"@,
    ensures
        ({
            let s = a.session->0;
            &&& a.scan() matches Some((id, start, spot))
            &&& id == s.controls@[k].id && spot == s.af_windows
            &&& first_ending(s.controls@[k].enums@, m, "Start"@) ==> start.rounded() == s.controls@[k].enums@[m].0
            &&& s.controls@[k].enums@.len() == 0 ==> start.rounded() == 0
        }),
{
    let c = a.session->0.controls@;
    lemma_first(c, k, m, "AfTrigger"@, "Start"@, Seq::empty());
    law_integers_survive(c[k].enums@[m].0 as int);
    law_integers_survive(0);
}

/// Photos open the camera's first mode. Video opens the narrowest wide one of
/// 1920 or more; where none is as wide, the widest wide one; and none where
/// no mode is wide.
pub proof fn law_targets_suit_their_use(modes: Seq<Mode>, video: bool, m: Option<Mode>, i: int)
    requires
        is_target(modes, video, m),
        0 <= i < modes.len(),
    ensures
        !video ==> m == Some(modes[0]),
        video && is_wide(modes[i]) ==> m is Some && is_wide(m->0) && modes.contains(m->0),
        video && is_wide(modes[i]) && modes[i].width >= 1920 ==> 1920 <= m->0.width <= modes[i].width,
        video && is_wide(modes[i]) && modes[i].width < 1920 ==> m->0.width >= modes[i].width,
        video && m is None ==> !is_wide(modes[i]),
{
    reveal(is_target);
    if video && is_wide(modes[i]) {
        assert(has_wide(modes, 0));
        if modes[i].width >= 1920 {
            assert(has_wide(modes, 1920));
        }
        if has_wide(modes, 1920) {
            assert(narrowest_wide(modes, m->0));
        } else {
            assert(widest_wide(modes, m->0));
        }
    }
}

/// Video is not zoomed, and going back to photos keeps what zoom there is.
pub proof fn law_video_is_not_zoomed(a: App)
    ensures
        with_video(a, true).video && with_video(a, true).zoom.rounded() == 1,
        !with_video(a, false).video && with_video(a, false).zoom == a.zoom,
        with_video(a, true).session == a.session && with_video(a, true).camera == a.camera,
{
    law_integers_survive(1);
}

/// A zoom between one and four times stays, and the next one in turn is two,
/// four and one again.
pub proof fn law_zoom_goes_round(zoom: Number)
    ensures
        !zoom.below(Number::of(1)) && !Number::of(4).below(zoom) ==> limited(zoom) == zoom,
        zoom.below(Number::of(1)) ==> limited(zoom).rounded() == 1,
        next_zoom(Number::of(1)) == Number::of(2),
        next_zoom(Number::of(2)) == Number::of(4),
        next_zoom(Number::of(4)) == Number::of(1),
{
    law_integers_survive(1);
    reveal_with_fuel(crate::number::log2, 4);
    vstd::arithmetic::power2::lemma2_to64();
    assert(Number::of(1).bits == 0x3ff0_0000_0000_0000);
    assert(crate::number::round_even(2 * crate::number::UNIT, 2) == crate::number::UNIT);
    assert(crate::number::round_even(4 * crate::number::UNIT, 4) == crate::number::UNIT);
    assert(Number::of(2).bits == 0x4000_0000_0000_0000);
    assert(Number::of(4).bits == 0x4010_0000_0000_0000);
}

/// A value is shown where one of its rows is there, and frame rate in video
/// only.
pub proof fn law_values_follow_their_rows(rows: Seq<String>, video: bool)
    ensures
        has_row(rows, "AnalogueGain"@) ==> chips_of(rows, video).iso,
        has_row(rows, "ExposureTime"@) ==> chips_of(rows, video).shutter,
        has_row(rows, "AeEnable"@) ==> chips_of(rows, video).iso && chips_of(rows, video).shutter,
        has_row(rows, "ExposureValue"@) <==> chips_of(rows, video).ev,
        has_row(rows, "AwbMode"@) || has_row(rows, "AwbEnable"@) || has_row(rows, "ColourTemperature"@) <==> chips_of(rows, video).wb,
        has_row(rows, "AfMode"@) || has_row(rows, "LensPosition"@) <==> chips_of(rows, video).focus,
        chips_of(rows, true).fps <==> has_row(rows, "FrameDurationLimits"@),
        !chips_of(rows, false).fps,
        rows.len() == 0 ==> !chips_of(rows, video).iso && !chips_of(rows, video).shutter && !chips_of(rows, video).wb,
{
}

/// The resolution menu has every mode for photos, and for video exactly the
/// wide ones.
pub proof fn law_menu_has_the_usable_modes(modes: Seq<Mode>, m: Mode)
    ensures
        usable_modes(modes, false) == modes,
        usable_modes(modes, true).contains(m) <==> modes.contains(m) && is_wide(m),
    decreases modes.len(),
{
    if modes.len() > 0 {
        let t = modes.drop_last();
        law_menu_has_the_usable_modes(t, m);
        assert(t.push(modes.last()) =~= modes);
        let (u, v) = (usable_modes(t, true), usable_modes(modes, true));
        if t.contains(m) {
            let i = choose|i: int| 0 <= i < t.len() && t[i] == m;
            assert(modes[i] == m);
        }
        if modes.contains(m) && modes.last() != m {
            let i = choose|i: int| 0 <= i < modes.len() && modes[i] == m;
            assert(t[i] == m);
        }
        if modes.last() == m {
            assert(modes[modes.len() - 1] == m);
            if is_wide(m) {
                assert(v[u.len() as int] == m);
            }
        }
        if u.contains(m) {
            let i = choose|i: int| 0 <= i < u.len() && u[i] == m;
            assert(v[i] == m);
        }
        if v.contains(m) {
            let i = choose|i: int| 0 <= i < v.len() && v[i] == m;
            if i < u.len() {
                assert(u[i] == m);
            }
        }
    }
}

/// A photo is known by its extension in either case, the newest one is no
/// older than any other, and one without a time is the newest only among
/// such.
pub proof fn law_newest_photo_is_no_older(files: Seq<Picture>, i: int, j: int)
    requires
        newest(files, i),
        0 <= j < files.len(),
        is_photo(files[j]),
    ensures
        files[j].modified matches Some(t) ==> files[i].modified matches Some(u) && t <= u,
        files[j].modified == files[i].modified ==> j <= i,
        is_photo(files[i]),
{
    assert(not_later(files[j], files[i]));
    if j > i {
        assert(!not_later(files[i], files[j]));
    }
}

/// Copies are asked for where a frame could not be shown that had no bytes of
/// its own, and not again once they were; only the first frame after a change
/// fades in, and only the first of all warms anything up.
pub proof fn law_copies_are_asked_for_once(a: App, copied: bool)
    ensures
        !frame_shown(a, true, copied).copies,
        !frame_shown(a, false, true).copies,
        frame_shown(a, false, false).copies <==> !a.copy_frames,
        frame_shown(a, false, copied).first == a.awaiting_frame,
        frame_shown(a, true, copied).warm <==> a.awaiting_frame && !a.warmed,
{
}

/// A lock is called by what it holds, AE for exposure and AF for focus. It
/// ends the scan under way, and one of focus alone keeps the exposure that
/// was locked.
pub proof fn law_locks_are_called_by_what_they_hold(a: App, e: Number)
    requires
        a.focus_generation < u32::MAX,
    ensures
        lock_name(true, true) == Some("AE/AF"@) && lock_name(true, false) == Some("AE"@),
        lock_name(false, true) == Some("AF"@) && lock_name(false, false) is None,
        locked_at(a, Some(e)).locked && locked_at(a, None).locked,
        locked_at(a, Some(e)).lock_exposure == Some(e) && locked_at(a, None).lock_exposure == a.lock_exposure,
        !locked_at(a, Some(e)).focusing && locked_at(a, Some(e)).focus_generation == a.focus_generation + 1,
        locked_at(a, Some(e)).session == a.session && locked_at(a, Some(e)).last_meta == a.last_meta,
{
}

/// The focus chip tells of a lock and of the lens only while focus is manual,
/// and otherwise of the one scan or the continuous one.
pub proof fn law_focus_chip_tells_the_mode(locked: bool, single: bool, lens: Number)
    ensures
        chip_of(true, true, single, Some(lens)) is Locked && chip_of(true, true, single, None) is Locked,
        chip_of(false, true, single, Some(lens)) == FocusChip::Manual(lens),
        chip_of(locked, false, true, Some(lens)) is Single && chip_of(locked, false, true, None) is Single,
        chip_of(locked, false, false, Some(lens)) is Continuous && chip_of(locked, false, false, None) is Continuous,
        chip_of(false, true, false, None) is Continuous && chip_of(false, true, true, None) is Single,
{
}

/// A recording that starts runs until it is stopped, and one that cannot
/// start does not; a capture is there to open once a file was written, and
/// none that failed is.
pub proof fn law_captures_are_there_once_written(a: App)
    ensures
        recorder_started(a, true).recording && recorder_started(a, true).record_started,
        !recorder_started(a, false).record_started && recorder_started(a, false).recording == a.recording,
        !recording_ended(a, true).record_started && recording_ended(a, true).captured,
        !recording_ended(a, false).record_started && recording_ended(a, false).captured == a.captured,
        recording_ended(a, true).recording == a.recording && recording_ended(a, true).saving == a.saving,
        !photo_saved(a, true).saving && photo_saved(a, true).captured && !photo_saved(a, true).open_pending,
        !photo_saved(a, false).saving && photo_saved(a, false).captured == a.captured,
        photo_saved(a, false).open_pending == a.open_pending,
        can_open(photo_saved(a, true)),
        a.saving || !a.captured ==> !can_open(a),
{
}

/// The application starts with nothing open, allowed, captured or locked,
/// for photos, without zoom, and with the timer as it was set.
pub proof fn law_application_starts_afresh(a: App, timer: u32)
    requires
        a.starts(timer),
    ensures
        a.cameras@.len() == 0 && a.camera == 0 && a.session is None && a.timer == timer && a.countdown is None,
        !a.granted && !a.suspended && !a.copy_frames && a.awaiting_frame && !a.warmed,
        !a.captured && !a.saving && !a.open_pending && !a.video && !a.recording && !a.record_started,
        !a.locked && a.lock_exposure is None && !a.focusing && a.focus_generation == 0 && a.frame_duration is None,
        a.zoom.rounded() == 1 && a.zoom_start == a.zoom,
        a.display.device == 0 && a.display.rotation == 0 && a.display.natural_landscape is None,
        a.last_meta@.dom().is_empty(),
{
    law_integers_survive(1);
    assert(a.last_meta@.dom() =~= Set::empty());
}

/// A lock holds the exposure time with its gain or not at all, and each only
/// as the last frame had it.
pub proof fn law_locks_hold_what_was_read(meta: Map<Seq<char>, Seq<Number>>)
    ensures
        exposure_held(meta, false) is None && lens_held(meta, false) is None,
        reading(meta, "ExposureTime"@) is None || reading(meta, "AnalogueGain"@) is None ==> exposure_held(meta, true) is None,
        exposure_held(meta, true) matches Some((e, g)) ==> meta["ExposureTime"@][0] == e && meta["AnalogueGain"@][0] == g,
        reading(meta, "ExposureTime"@) is Some && reading(meta, "AnalogueGain"@) is Some ==> exposure_held(meta, true) is Some,
        lens_held(meta, true) == reading(meta, "LensPosition"@),
{
}

/// A photo is a file whose extension reads "jpg", however it is written.
pub proof fn law_photos_go_by_extension(p: Picture)
    ensures
        p.extension is None ==> !is_photo(p),
        p.extension matches Some(e) ==> (is_photo(p) <==> {
            &&& e@.len() == 3
            &&& e@[0] as int == 106 || e@[0] as int == 74
            &&& e@[1] as int == 112 || e@[1] as int == 80
            &&& e@[2] as int == 103 || e@[2] as int == 71
        }),
{
}

} // verus!
