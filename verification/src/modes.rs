//! Frame sizes: what a camera offers, in order, and which of them serves the
//! viewfinder.

use crate::rounding::{Scaled, absolute, combine, divide, is_at_most, law_rounding_is_close, lemma_nearest_positive, nearest, quotient};
use vstd::arithmetic::power2::{lemma2_to64, lemma_pow2_adds, lemma_pow2_strictly_increases, pow2};
use vstd::prelude::*;

verus! {

/// A frame size.
#[derive(Debug, Clone, Copy, PartialEq, Eq, Structural)]
pub struct Mode {
    pub width: u32,
    pub height: u32,
}

impl Mode {
    pub open spec fn spec_area(self) -> int {
        self.width * self.height
    }

    /// How many pixels.
    pub fn area(self) -> (a: u64)
        ensures
            a == self.spec_area(),
    {
        assert(0 <= self.width * self.height <= 0xffff_ffff * 0xffff_ffff) by (nonlinear_arith)
            requires
                0 <= self.width <= 0xffff_ffff,
                0 <= self.height <= 0xffff_ffff,
        ;
        self.width as u64 * self.height as u64
    }

    /// The height, counted as 1 where it is 0.
    pub open spec fn rows(self) -> int {
        if self.height == 0 {
            1
        } else {
            self.height as int
        }
    }
}

/// The ratio of `m` differs from `p / q` by less than `n` hundredths, in
/// binary64: both ratios, their difference and the bound are rounded.
pub open spec fn ratio_near(m: Mode, p: int, q: int, n: int) -> bool {
    nearest(absolute(quotient(m.width as int, m.rows()) - quotient(p, q)), 1) < quotient(n, 100)
}

/// Whether width over height is within `n` hundredths of `p / q`.
pub fn is_ratio_near(m: Mode, p: u32, q: u32, n: u32) -> (near: bool)
    requires
        q >= 1,
    ensures
        near == ratio_near(m, p as int, q as int, n as int),
{
    let rows: u32 = if m.height == 0 { 1 } else { m.height };
    let apart: Scaled = combine(divide(m.width, rows), divide(p, q), true);
    !is_at_most(divide(n, 100), apart)
}

/// A mode that can stand in for `photo` in the viewfinder: of its shape, no
/// wider, and still sharp on a screen.
pub open spec fn stands_in(m: Mode, photo: Mode) -> bool {
    &&& ratio_near(m, photo.width as int, photo.rows(), 3)
    &&& m.width <= photo.width
    &&& m.width >= photo.width || m.width >= 1920
}

/// `m` is the narrowest of `modes` that stands in for `photo`, the first of
/// them where several are as narrow.
pub open spec fn narrowest(modes: Seq<Mode>, photo: Mode, m: Mode) -> bool {
    exists|i: int|
        {
            &&& 0 <= i < modes.len()
            &&& #[trigger] modes[i] == m
            &&& stands_in(m, photo)
            &&& forall|j: int| 0 <= j < modes.len() && stands_in(#[trigger] modes[j], photo) ==> m.width <= modes[j].width
            &&& forall|j: int| 0 <= j < i && stands_in(#[trigger] modes[j], photo) ==> m.width < modes[j].width
        }
}

/// `m` is the viewfinder's mode for photos of `photo`'s size: the narrowest
/// that stands in for it, or itself where none does.
pub open spec fn serves(modes: Seq<Mode>, photo: Mode, m: Mode) -> bool {
    &&& (exists|i: int| 0 <= i < modes.len() && stands_in(#[trigger] modes[i], photo)) ==> narrowest(modes, photo, m)
    &&& (forall|i: int| 0 <= i < modes.len() ==> !stands_in(#[trigger] modes[i], photo)) ==> m == photo
}

/// The smallest mode of `photo`'s shape that is still sharp on a phone or
/// laptop screen; binned modes also run faster.
pub fn viewfinder_mode(modes: &[Mode], photo: Mode) -> (view: Mode)
    ensures
        serves(modes@, photo, view),
{
    let rows: u32 = if photo.height == 0 { 1 } else { photo.height };
    let mut best: Option<Mode> = None;
    let mut i: usize = 0;
    while i < modes.len()
        invariant
            i <= modes@.len(),
            rows == photo.rows(),
            best is None ==> forall|j: int| 0 <= j < i ==> !stands_in(#[trigger] modes@[j], photo),
            best matches Some(b) ==> narrowest(modes@.take(i as int), photo, b),
        decreases modes@.len() - i,
    {
        let m: Mode = modes[i];
        let fits: bool = is_ratio_near(m, photo.width, rows, 3) && m.width <= photo.width && (m.width >= photo.width
            || m.width >= 1920);
        assert(fits == stands_in(m, photo));
        let ghost before = modes@.take(i as int);
        let ghost after = modes@.take(i + 1);
        assert(after =~= before.push(m));
        match best {
            None => {
                if fits {
                    best = Some(m);
                    assert(after[i as int] == m);
                    assert forall|j: int| 0 <= j < i implies !stands_in(#[trigger] after[j], photo) by {
                        assert(after[j] == modes@[j]);
                    }
                    assert(narrowest(after, photo, m));
                }
            },
            Some(b) => {
                let ghost k = choose|k: int|
                    {
                        &&& 0 <= k < before.len()
                        &&& #[trigger] before[k] == b
                        &&& stands_in(b, photo)
                        &&& forall|j: int| 0 <= j < before.len() && stands_in(#[trigger] before[j], photo) ==> b.width <= before[j].width
                        &&& forall|j: int| 0 <= j < k && stands_in(#[trigger] before[j], photo) ==> b.width < before[j].width
                    };
                assert forall|j: int| 0 <= j < i && stands_in(#[trigger] after[j], photo) implies b.width <= after[j].width by {
                    assert(after[j] == before[j]);
                }
                if fits && m.width < b.width {
                    best = Some(m);
                    assert(after[i as int] == m);
                    assert(narrowest(after, photo, m));
                } else {
                    assert(after[k] == b);
                    assert forall|j: int| 0 <= j < k && stands_in(#[trigger] after[j], photo) implies b.width < after[j].width by {
                        assert(after[j] == before[j]);
                    }
                    assert(narrowest(after, photo, b));
                }
            },
        }
        i = i + 1;
    }
    assert(modes@.take(modes@.len() as int) =~= modes@);
    match best {
        Some(b) => b,
        None => photo,
    }
}

/// A photo size the camera has is served by one of its modes, no wider than
/// the photo and of its shape.
pub proof fn law_viewfinder_is_a_mode(modes: Seq<Mode>, photo: Mode, m: Mode)
    requires
        modes.contains(photo),
        serves(modes, photo, m),
    ensures
        modes.contains(m),
        m.width <= photo.width,
        ratio_near(m, photo.width as int, photo.rows(), 3),
{
    let i = choose|i: int| 0 <= i < modes.len() && modes[i] == photo;
    assert(ratio_near(photo, photo.width as int, photo.rows(), 3)) by {
        lemma2_to64();
        lemma_pow2_strictly_increases(7, 84);
        lemma_nearest_positive(3 * pow2(84) as int, 100);
        lemma_nearest_positive(0, 1);
    }
    assert(stands_in(modes[i], photo));
}

/// Only one mode serves.
pub proof fn law_viewfinder_is_unique(modes: Seq<Mode>, photo: Mode, a: Mode, b: Mode)
    requires
        serves(modes, photo, a),
        serves(modes, photo, b),
    ensures
        a == b,
{
    if exists|i: int| 0 <= i < modes.len() && stands_in(#[trigger] modes[i], photo) {
        let i = choose|i: int|
            {
                &&& 0 <= i < modes.len()
                &&& #[trigger] modes[i] == a
                &&& stands_in(a, photo)
                &&& forall|j: int| 0 <= j < modes.len() && stands_in(#[trigger] modes[j], photo) ==> a.width <= modes[j].width
                &&& forall|j: int| 0 <= j < i && stands_in(#[trigger] modes[j], photo) ==> a.width < modes[j].width
            };
        let k = choose|k: int|
            {
                &&& 0 <= k < modes.len()
                &&& #[trigger] modes[k] == b
                &&& stands_in(b, photo)
                &&& forall|j: int| 0 <= j < modes.len() && stands_in(#[trigger] modes[j], photo) ==> b.width <= modes[j].width
                &&& forall|j: int| 0 <= j < k && stands_in(#[trigger] modes[j], photo) ==> b.width < modes[j].width
            };
        assert(stands_in(modes[i], photo));
        assert(stands_in(modes[k], photo));
    }
}

/// The modes of `s`, each where it first occurs.
pub open spec fn distinct(s: Seq<Mode>) -> Seq<Mode>
    decreases s.len(),
{
    if s.len() == 0 {
        s
    } else if distinct(s.drop_last()).contains(s.last()) {
        distinct(s.drop_last())
    } else {
        distinct(s.drop_last()).push(s.last())
    }
}

/// Whether `m` is among `modes`.
pub fn has_mode(modes: &Vec<Mode>, m: Mode) -> (found: bool)
    ensures
        found == modes@.contains(m),
{
    let mut i: usize = 0;
    while i < modes.len()
        invariant
            i <= modes@.len(),
            forall|j: int| 0 <= j < i ==> modes@[j] != m,
        decreases modes@.len() - i,
    {
        if modes[i] == m {
            return true;
        }
        i = i + 1;
    }
    false
}

/// Add `m` where it is new.
fn add_distinct(modes: &mut Vec<Mode>, m: Mode, Ghost(seen): Ghost<Seq<Mode>>)
    requires
        old(modes)@ == distinct(seen),
    ensures
        final(modes)@ == distinct(seen.push(m)),
{
    assert(seen.push(m).drop_last() =~= seen);
    if !has_mode(modes, m) {
        modes.push(m);
    }
}

/// Where a mode of `area` pixels goes among modes that shrink: before the
/// first smaller one.
pub open spec fn place(s: Seq<Mode>, area: int) -> int
    decreases s.len(),
{
    if s.len() == 0 || s[0].spec_area() < area {
        0
    } else {
        1 + place(s.drop_first(), area)
    }
}

/// The modes of `s`, largest first; those of one size stay in order.
pub open spec fn by_area(s: Seq<Mode>) -> Seq<Mode>
    decreases s.len(),
{
    if s.len() == 0 {
        s
    } else {
        let rest = by_area(s.drop_last());
        rest.insert(place(rest, s.last().spec_area()), s.last())
    }
}

pub open spec fn largest_first(s: Seq<Mode>) -> bool {
    forall|i: int, j: int| 0 <= i <= j < s.len() ==> #[trigger] s[i].spec_area() >= #[trigger] s[j].spec_area()
}

proof fn lemma_place(s: Seq<Mode>, area: int)
    ensures
        0 <= place(s, area) <= s.len(),
        forall|i: int| 0 <= i < place(s, area) ==> #[trigger] s[i].spec_area() >= area,
        place(s, area) < s.len() ==> s[place(s, area)].spec_area() < area,
    decreases s.len(),
{
    if s.len() > 0 && s[0].spec_area() >= area {
        let t = s.drop_first();
        lemma_place(t, area);
        assert forall|i: int| 0 <= i < place(s, area) implies #[trigger] s[i].spec_area() >= area by {
            if i > 0 {
                assert(t[i - 1].spec_area() >= area);
            }
        }
    }
}

proof fn lemma_place_is(s: Seq<Mode>, area: int, n: int)
    requires
        0 <= n <= s.len(),
        forall|i: int| 0 <= i < n ==> #[trigger] s[i].spec_area() >= area,
        n < s.len() ==> s[n].spec_area() < area,
    ensures
        place(s, area) == n,
{
    lemma_place(s, area);
    if n < place(s, area) {
        assert(s[n].spec_area() >= area);
    }
    if place(s, area) < n {
        assert(s[place(s, area)].spec_area() >= area);
    }
}

/// Ordering by size loses and invents nothing, and puts larger modes first.
pub proof fn law_by_area_orders(s: Seq<Mode>)
    ensures
        by_area(s).len() == s.len(),
        by_area(s).to_multiset() == s.to_multiset(),
        largest_first(by_area(s)),
    decreases s.len(),
{
    broadcast use vstd::seq_lib::group_to_multiset_ensures;

    if s.len() > 0 {
        let t = s.drop_last();
        let m = s.last();
        law_by_area_orders(t);
        let r = by_area(t);
        let n = place(r, m.spec_area());
        lemma_place(r, m.spec_area());
        assert(s =~= t.push(m));
        assert(r.insert(n, m).to_multiset() =~= r.to_multiset().insert(m)) by {
            vstd::seq_lib::to_multiset_insert(r, n, m);
        }
        let w = r.insert(n, m);
        assert forall|i: int, j: int| 0 <= i <= j < w.len() implies #[trigger] w[i].spec_area() >= #[trigger] w[j].spec_area() by {
            if j == n {
                if i < n {
                    assert(r[i].spec_area() >= m.spec_area());
                }
            } else if i == n {
                assert(r[n].spec_area() >= r[j - 1].spec_area());
            } else {
                let (a, b) = (if i < n { i } else { i - 1 }, if j < n { j } else { j - 1 });
                assert(r[a].spec_area() >= r[b].spec_area());
            }
        }
    }
}

/// No mode is listed twice.
pub proof fn law_distinct_has_no_duplicates(s: Seq<Mode>)
    ensures
        distinct(s).no_duplicates(),
        forall|m: Mode| distinct(s).contains(m) <==> s.contains(m),
    decreases s.len(),
{
    if s.len() > 0 {
        law_distinct_has_no_duplicates(s.drop_last());
        let d = distinct(s.drop_last());
        assert forall|m: Mode| distinct(s).contains(m) <==> s.contains(m) by {
            if s.contains(m) {
                let i = choose|i: int| 0 <= i < s.len() && s[i] == m;
                if i < s.len() - 1 {
                    assert(s.drop_last()[i] == m);
                    assert(s.drop_last().contains(m));
                    assert(d.contains(m));
                    let j = choose|j: int| 0 <= j < d.len() && d[j] == m;
                    assert(distinct(s)[j] == m);
                } else if !d.contains(m) {
                    assert(distinct(s)[d.len() as int] == m);
                }
            }
            if distinct(s).contains(m) {
                let j = choose|j: int| 0 <= j < distinct(s).len() && distinct(s)[j] == m;
                if j < d.len() {
                    assert(d[j] == m);
                    assert(d.contains(m));
                    assert(s.drop_last().contains(m));
                    let i = choose|i: int| 0 <= i < s.drop_last().len() && s.drop_last()[i] == m;
                    assert(s[i] == m);
                } else {
                    assert(s[s.len() - 1] == m);
                }
            }
        }
    }
}

/// Ordering keeps a list free of duplicates.
pub proof fn law_by_area_keeps_distinct(s: Seq<Mode>)
    requires
        s.no_duplicates(),
    ensures
        by_area(s).no_duplicates(),
        forall|m: Mode| by_area(s).contains(m) <==> s.contains(m),
{
    law_by_area_orders(s);
    s.lemma_multiset_has_no_duplicates();
    by_area(s).lemma_multiset_has_no_duplicates_conv();
    assert forall|m: Mode| by_area(s).contains(m) <==> s.contains(m) by {
        broadcast use vstd::seq_lib::group_to_multiset_ensures;
        assert(s.contains(m) <==> s.to_multiset().count(m) > 0);
        assert(by_area(s).contains(m) <==> by_area(s).to_multiset().count(m) > 0);
    }
}

/// Order modes, largest first.
pub fn sort_by_area(modes: &Vec<Mode>) -> (sorted: Vec<Mode>)
    ensures
        sorted@ == by_area(modes@),
        largest_first(sorted@),
        sorted@.to_multiset() == modes@.to_multiset(),
{
    let mut out: Vec<Mode> = Vec::new();
    let mut i: usize = 0;
    assert(modes@.take(0).len() == 0);
    while i < modes.len()
        invariant
            i <= modes@.len(),
            out@ == by_area(modes@.take(i as int)),
        decreases modes@.len() - i,
    {
        let m: Mode = modes[i];
        let area: u64 = m.area();
        let mut n: usize = 0;
        while n < out.len() && out[n].area() >= area
            invariant
                n <= out@.len(),
                forall|j: int| 0 <= j < n ==> #[trigger] out@[j].spec_area() >= area,
            decreases out@.len() - n,
        {
            n = n + 1;
        }
        proof {
            lemma_place_is(out@, area as int, n as int);
            assert(modes@.take(i + 1).drop_last() =~= modes@.take(i as int));
        }
        out.insert(n, m);
        i = i + 1;
    }
    proof {
        assert(modes@.take(modes@.len() as int) =~= modes@);
        law_by_area_orders(modes@);
    }
    out
}

/// One pixel format of a stream role: the sizes listed for it, and the
/// largest its range allows.
#[derive(Debug)]
pub struct Format {
    pub sizes: Vec<Mode>,
    pub max: Mode,
}

pub open spec fn even(x: int) -> int {
    x - x % 2
}

/// Half of a size, in even numbers: a binned mode.
pub open spec fn half(m: Mode) -> Mode {
    Mode { width: even(m.width as int / 2) as u32, height: even(m.height as int / 2) as u32 }
}

/// The 16:9 size of the same width, of an even height.
pub open spec fn widescreen(m: Mode) -> Mode {
    Mode { width: m.width, height: even(m.width * 9 / 16) as u32 }
}

/// What a format may offer. A range lists common sizes inside it, not what
/// the camera can do: its largest counts too, with its half (a binned mode)
/// and 16:9 of both.
pub open spec fn offered(f: Format) -> Seq<Mode> {
    if f.max.width > 0 {
        f.sizes@ + seq![f.max, half(f.max), widescreen(f.max), widescreen(half(f.max))]
    } else {
        f.sizes@
    }
}

pub open spec fn all_offered(formats: Seq<Format>) -> Seq<Mode>
    decreases formats.len(),
{
    if formats.len() == 0 {
        Seq::empty()
    } else {
        all_offered(formats.drop_last()) + offered(formats.last())
    }
}

/// The widths that 16:9 heights can be computed for.
pub open spec fn ranges_fit(formats: Seq<Format>) -> bool {
    forall|i: int| 0 <= i < formats.len() ==> (#[trigger] formats[i]).max.width <= u32::MAX / 9
}

/// The distinct sizes a role's formats may offer, in the order found.
pub fn candidate_modes(formats: &Vec<Format>) -> (modes: Vec<Mode>)
    requires
        ranges_fit(formats@),
    ensures
        modes@ == distinct(all_offered(formats@)),
        modes@.no_duplicates(),
{
    let mut out: Vec<Mode> = Vec::new();
    let mut i: usize = 0;
    let ghost mut seen: Seq<Mode> = Seq::empty();
    assert(formats@.take(0).len() == 0);
    while i < formats.len()
        invariant
            i <= formats@.len(),
            ranges_fit(formats@),
            seen == all_offered(formats@.take(i as int)),
            out@ == distinct(seen),
        decreases formats@.len() - i,
    {
        let f: &Format = &formats[i];
        let ghost start = seen;
        let mut j: usize = 0;
        assert(start + f.sizes@.take(0) =~= start);
        while j < f.sizes.len()
            invariant
                j <= f.sizes@.len(),
                seen == start + f.sizes@.take(j as int),
                out@ == distinct(seen),
            decreases f.sizes@.len() - j,
        {
            let m: Mode = f.sizes[j];
            add_distinct(&mut out, m, Ghost(seen));
            proof {
                seen = seen.push(m);
                assert(seen =~= start + f.sizes@.take(j + 1));
            }
            j = j + 1;
        }
        assert(f.sizes@.take(f.sizes@.len() as int) =~= f.sizes@);
        let max: Mode = f.max;
        if max.width > 0 {
            let (w, h) = (max.width / 2, max.height / 2);
            let small: Mode = Mode { width: w - w % 2, height: h - h % 2 };
            let tall: u32 = max.width * 9 / 16;
            let low: u32 = small.width * 9 / 16;
            let wide_max: Mode = Mode { width: max.width, height: tall - tall % 2 };
            let wide_half: Mode = Mode { width: small.width, height: low - low % 2 };
            add_distinct(&mut out, max, Ghost(seen));
            add_distinct(&mut out, small, Ghost(seen.push(max)));
            add_distinct(&mut out, wide_max, Ghost(seen.push(max).push(small)));
            add_distinct(&mut out, wide_half, Ghost(seen.push(max).push(small).push(wide_max)));
            proof {
                seen = seen.push(max).push(small).push(wide_max).push(wide_half);
            }
        }
        proof {
            assert(formats@.take(i + 1).drop_last() =~= formats@.take(i as int));
            assert(seen =~= start + offered(*f));
        }
        i = i + 1;
    }
    proof {
        assert(formats@.take(formats@.len() as int) =~= formats@);
        law_distinct_has_no_duplicates(all_offered(formats@));
    }
    out
}

/// The modes of `s` whose flag is set.
pub open spec fn flagged(s: Seq<Mode>, flags: Seq<bool>) -> Seq<Mode>
    decreases s.len(),
{
    if s.len() == 0 {
        s
    } else if flags[s.len() - 1] {
        flagged(s.drop_last(), flags).push(s.last())
    } else {
        flagged(s.drop_last(), flags)
    }
}

/// Distinct sensor output sizes, largest first: those of the raw role, or
/// where it has none, those of the viewfinder role that configure as asked.
pub fn sensor_modes(raw: &Vec<Mode>, view: &Vec<Mode>, configures: &Vec<bool>) -> (modes: Vec<Mode>)
    requires
        configures@.len() == view@.len(),
    ensures
        modes@ == by_area(if raw@.len() > 0 { raw@ } else { flagged(view@, configures@) }),
        largest_first(modes@),
        raw@.no_duplicates() && view@.no_duplicates() ==> modes@.no_duplicates(),
{
    if raw.len() > 0 {
        proof {
            if raw@.no_duplicates() {
                law_by_area_keeps_distinct(raw@);
            }
        }
        return sort_by_area(raw);
    }
    let mut kept: Vec<Mode> = Vec::new();
    let mut i: usize = 0;
    assert(view@.take(0).len() == 0);
    while i < view.len()
        invariant
            i <= view@.len(),
            configures@.len() == view@.len(),
            kept@ == flagged(view@.take(i as int), configures@),
        decreases view@.len() - i,
    {
        assert(view@.take(i + 1).drop_last() =~= view@.take(i as int));
        if configures[i] {
            kept.push(view[i]);
        }
        i = i + 1;
    }
    proof {
        assert(view@.take(view@.len() as int) =~= view@);
        if view@.no_duplicates() {
            lemma_flagged(view@, configures@);
            law_by_area_keeps_distinct(kept@);
        }
    }
    sort_by_area(&kept)
}

proof fn lemma_flagged(s: Seq<Mode>, flags: Seq<bool>)
    requires
        s.no_duplicates(),
    ensures
        flagged(s, flags).no_duplicates(),
        forall|m: Mode| flagged(s, flags).contains(m) ==> s.contains(m),
    decreases s.len(),
{
    if s.len() > 0 {
        let t = s.drop_last();
        lemma_flagged(t, flags);
        let f = flagged(t, flags);
        assert forall|m: Mode| flagged(s, flags).contains(m) implies s.contains(m) by {
            let i = choose|i: int| 0 <= i < flagged(s, flags).len() && flagged(s, flags)[i] == m;
            if i < f.len() {
                assert(f[i] == m);
                assert(t.contains(m));
                let j = choose|j: int| 0 <= j < t.len() && t[j] == m;
                assert(s[j] == m);
            } else {
                assert(s[s.len() - 1] == m);
            }
        }
        if f.contains(s.last()) {
            assert(t.contains(s.last()));
            let j = choose|j: int| 0 <= j < t.len() && t[j] == s.last();
            assert(s[j] == s[s.len() - 1]);
        }
    }
}

/// A binned mode has even sides, and twice it falls short of the whole by
/// less than four pixels either way.
pub proof fn law_half_is_even_and_close(m: Mode)
    ensures
        half(m).width % 2 == 0 && half(m).height % 2 == 0,
        2 * half(m).width <= m.width < 2 * half(m).width + 4,
        2 * half(m).height <= m.height < 2 * half(m).height + 4,
{
}

/// A widescreen size is as wide, of an even height, and no other even height
/// is nearer to 16:9 from below.
pub proof fn law_widescreen_is_16_to_9(m: Mode)
    requires
        m.width <= u32::MAX / 9,
    ensures
        widescreen(m).width == m.width,
        widescreen(m).height % 2 == 0,
        16 * widescreen(m).height <= 9 * m.width < 16 * (widescreen(m).height + 2),
{
}

/// A range's largest size, its half and 16:9 of both are candidates, beside
/// what it lists; and an empty range adds nothing.
pub proof fn law_ranges_offer_their_largest(formats: Seq<Format>, f: Format, i: int)
    ensures
        ({
            let all = all_offered(formats.push(f));
            &&& f.max.width > 0 ==> all.contains(f.max) && all.contains(half(f.max)) && all.contains(widescreen(f.max))
                && all.contains(widescreen(half(f.max)))
            &&& 0 <= i < f.sizes@.len() ==> all.contains(f.sizes@[i])
            &&& f.max.width == 0 ==> all == all_offered(formats) + f.sizes@
            &&& 0 <= i < all_offered(formats).len() ==> all.contains(all_offered(formats)[i])
            &&& all.len() <= all_offered(formats).len() + f.sizes@.len() + 4
        }),
{
    let before = all_offered(formats);
    let all = all_offered(formats.push(f));
    assert(formats.push(f).drop_last() =~= formats);
    let n = before.len() as int + f.sizes@.len();
    if f.max.width > 0 {
        assert(all[n] == f.max);
        assert(all[n + 1] == half(f.max));
        assert(all[n + 2] == widescreen(f.max));
        assert(all[n + 3] == widescreen(half(f.max)));
    }
    if 0 <= i < f.sizes@.len() {
        assert(all[before.len() + i] == f.sizes@[i]);
    }
    if 0 <= i < before.len() {
        assert(all[i] == before[i]);
    }
}

/// Candidates are what was found, without repeats.
pub proof fn law_distinct_keeps_each(s: Seq<Mode>, m: Mode)
    ensures
        distinct(s).contains(m) <==> s.contains(m),
    decreases s.len(),
{
    if s.len() > 0 {
        let t = s.drop_last();
        law_distinct_keeps_each(t, m);
        let d = distinct(t);
        if d.contains(s.last()) {
            law_distinct_keeps_each(t, s.last());
        }
        if t.contains(m) {
            let j = choose|j: int| 0 <= j < t.len() && t[j] == m;
            assert(s[j] == m);
            let k = choose|k: int| 0 <= k < d.len() && d[k] == m;
            assert(!d.contains(s.last()) ==> distinct(s)[k] == m);
        }
        if s.last() == m {
            assert(s[s.len() - 1] == m);
            if !d.contains(m) {
                assert(distinct(s)[d.len() as int] == m);
            }
        }
        if s.contains(m) && s.last() != m {
            let j = choose|j: int| 0 <= j < s.len() && s[j] == m;
            assert(t[j] == m);
        }
        if distinct(s).contains(m) && !d.contains(s.last()) {
            let k = choose|k: int| 0 <= k < distinct(s).len() && distinct(s)[k] == m;
            if k < d.len() {
                assert(d[k] == m);
            }
        }
    }
}

/// Without raw sizes, a size of the viewfinder role counts exactly where it
/// configured as asked.
pub proof fn law_sizes_that_configure_are_kept(s: Seq<Mode>, flags: Seq<bool>, m: Mode)
    requires
        flags.len() >= s.len(),
    ensures
        flagged(s, flags).contains(m) <==> exists|i: int| 0 <= i < s.len() && #[trigger] s[i] == m && flags[i],
    decreases s.len(),
{
    if s.len() > 0 {
        let t = s.drop_last();
        law_sizes_that_configure_are_kept(t, flags, m);
        let (f, g) = (flagged(t, flags), flagged(s, flags));
        if f.contains(m) {
            let k = choose|k: int| 0 <= k < f.len() && f[k] == m;
            assert(g[k] == m);
            let i = choose|i: int| 0 <= i < t.len() && #[trigger] t[i] == m && flags[i];
            assert(s[i] == m);
        }
        if flags[s.len() - 1] && s.last() == m {
            assert(g[f.len() as int] == m);
            assert(s[s.len() - 1] == m);
        }
        if g.contains(m) {
            let k = choose|k: int| 0 <= k < g.len() && g[k] == m;
            if k < f.len() {
                assert(f[k] == m);
            } else {
                assert(s[s.len() - 1] == m);
            }
        }
        if exists|i: int| 0 <= i < s.len() && #[trigger] s[i] == m && flags[i] {
            let i = choose|i: int| 0 <= i < s.len() && #[trigger] s[i] == m && flags[i];
            if i < t.len() {
                assert(t[i] == m);
            }
        }
    }
}

/// The viewfinder's mode is sharp: 1920 wide or more, unless it is as wide as
/// the photo; and no narrower mode of the photo's shape is.
pub proof fn law_viewfinder_is_sharp_and_narrow(modes: Seq<Mode>, photo: Mode, m: Mode, i: int)
    requires
        serves(modes, photo, m),
        0 <= i < modes.len(),
    ensures
        m.width >= 1920 || m.width >= photo.width,
        1920 <= modes[i].width <= photo.width && ratio_near(modes[i], photo.width as int, photo.rows(), 3) ==> m.width <= modes[i].width,
{
    if exists|j: int| 0 <= j < modes.len() && stands_in(#[trigger] modes[j], photo) {
        assert(narrowest(modes, photo, m));
        if stands_in(modes[i], photo) {
            assert(m.width <= modes[i].width);
        }
    } else {
        assert(!stands_in(modes[i], photo));
    }
}

/// `m`'s ratio lies within `n` hundredths of a hundredth of `p / q`.
pub open spec fn ratio_within(m: Mode, p: int, q: int, n: int) -> bool {
    10000 * absolute(m.width * q - p * m.rows()) <= n * (m.rows() * q)
}

proof fn lemma_quotient_close(a: int, b: int)
    requires
        0 <= a <= 0x1_0000_0000,
        0 < b <= 0x1_0000_0000,
    ensures
        absolute(quotient(a, b) * b - a * pow2(84)) <= 0x1_0000_0000_0000_0000,
{
    lemma2_to64();
    lemma_pow2_adds(64, 20);
    let one = 0x10_0000_0000_0000_0000_0000int;
    assert(pow2(84) == one);
    assert(0 <= a * one <= 0x1_0000_0000 * one) by (nonlinear_arith)
        requires
            0 <= a <= 0x1_0000_0000,
            one == 0x10_0000_0000_0000_0000_0000int,
    ;
    law_rounding_is_close(a * one, b);
}

/// A ratio is near another where the two differ by less than so many
/// hundredths, but for what rounding moves.
pub proof fn law_near_ratios_are_close(m: Mode, p: int, q: int, n: int)
    requires
        0 <= p <= 0x1_0000_0000,
        0 < q <= 0x1_0000_0000,
        1 <= n <= 100,
    ensures
        ratio_near(m, p, q, n) ==> ratio_within(m, p, q, 100 * n + 1),
        ratio_within(m, p, q, 100 * n - 1) ==> ratio_near(m, p, q, n),
{
    let (w, h) = (m.width as int, m.rows());
    let one = 0x10_0000_0000_0000_0000_0000int;
    lemma2_to64();
    lemma_pow2_adds(64, 20);
    assert(pow2(84) == one);
    lemma_quotient_close(w, h);
    lemma_quotient_close(p, q);
    lemma_quotient_close(n, 100);
    let (a, b) = (quotient(w, h), quotient(p, q));
    let (e, f) = (a * h - w * one, b * q - p * one);
    let y = h * q;
    let x = w * q - p * h;
    let far = 0x2_0000_0000_0000_0000int;
    assert(y >= 1) by (nonlinear_arith)
        requires
            y == h * q,
            h >= 1,
            q >= 1,
    ;
    assert(e * q == a * y - (w * q) * one) by (nonlinear_arith)
        requires
            y == h * q,
            e == a * h - w * one,
    ;
    assert(f * h == b * y - (p * h) * one) by (nonlinear_arith)
        requires
            y == h * q,
            f == b * q - p * one,
    ;
    assert((a - b) * y == a * y - b * y) by (nonlinear_arith);
    assert(x * one == (w * q) * one - (p * h) * one) by (nonlinear_arith)
        requires
            x == w * q - p * h,
    ;
    assert((a - b) * y == x * one + (e * q - f * h));
    assert(-far * y <= e * q - f * h <= far * y) by (nonlinear_arith)
        requires
            -0x1_0000_0000_0000_0000 <= e <= 0x1_0000_0000_0000_0000,
            -0x1_0000_0000_0000_0000 <= f <= 0x1_0000_0000_0000_0000,
            h >= 1,
            q >= 1,
            y == h * q,
            far == 0x2_0000_0000_0000_0000int,
    ;
    let d = absolute(a - b);
    let gap = absolute(x);
    assert(-far * y <= d * y - gap * one <= far * y) by (nonlinear_arith)
        requires
            (a - b) * y == x * one + (e * q - f * h),
            -far * y <= e * q - f * h <= far * y,
            d == absolute(a - b),
            gap == absolute(x),
            y >= 1,
            one >= 1,
    ;
    law_rounding_is_close(d, 1);
    let bound = quotient(n, 100);
    let r = nearest(d, 1);
    if r < bound {
        assert(100 * d <= n * one + 0x8_0000_0000_0000_0000);
        assert(10000 * gap <= (100 * n + 1) * y) by (nonlinear_arith)
            requires
                100 * d <= n * one + 0x8_0000_0000_0000_0000,
                gap * one <= d * y + far * y,
                far == 0x2_0000_0000_0000_0000int,
                one == 0x10_0000_0000_0000_0000_0000int,
                y >= 1,
                n >= 1,
        ;
    }
    if 10000 * gap <= (100 * n - 1) * y {
        assert(10000 * d <= (100 * n - 1) * one + 10000 * far) by (nonlinear_arith)
            requires
                10000 * gap <= (100 * n - 1) * y,
                d * y <= gap * one + far * y,
                y >= 1,
                one >= 1,
        ;
        assert(r < bound);
    }
}

} // verus!
