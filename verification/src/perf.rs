//! Opt-in timing: whether it is on, and the numbers it reads from the
//! system's own texts.

use crate::text;
use vstd::prelude::*;

verus! {

/// Whether milestones are reported.
#[derive(Debug, Clone, Copy, PartialEq, Eq, Structural)]
pub struct Timing {
    pub enabled: bool,
}

impl Timing {
    /// Off, until the environment asks for it.
    pub fn new() -> (t: Timing)
        ensures
            !t.enabled,
    {
        Timing { enabled: false }
    }
}

/// Turn timing on where the environment asks for it: `variable` tells whether
/// OBSCURA_PERF is set. What is on stays on.
pub fn init(t: &mut Timing, variable: bool)
    ensures
        final(t).enabled == (old(t).enabled || variable),
{
    if variable {
        t.enabled = true;
    }
}

/// Timing after calls of [`init`] with these variables.
pub open spec fn switched(t: Timing, variables: Seq<bool>) -> Timing
    decreases variables.len(),
{
    if variables.len() == 0 {
        t
    } else {
        Timing { enabled: switched(t, variables.drop_last()).enabled || variables.last() }
    }
}

/// Timing is on exactly where it was, or where the environment asked for it
/// at any time since.
pub proof fn law_timing_stays_on(t: Timing, variables: Seq<bool>)
    ensures
        switched(t, variables).enabled <==> t.enabled || variables.contains(true),
    decreases variables.len(),
{
    if variables.len() > 0 {
        let rest = variables.drop_last();
        law_timing_stays_on(t, rest);
        if rest.contains(true) {
            let i = choose|i: int| 0 <= i < rest.len() && rest[i];
            assert(variables[i]);
        }
        if variables.last() {
            assert(variables[variables.len() - 1]);
        }
        if variables.contains(true) && !variables.last() {
            let i = choose|i: int| 0 <= i < variables.len() && variables[i];
            assert(rest[i]);
        }
    }
}

pub fn on(t: &Timing) -> (enabled: bool)
    ensures
        enabled == t.enabled,
{
    t.enabled
}

/// White space.
pub open spec fn is_space(c: char) -> bool {
    '\u{9}' <= c <= '\u{d}' || c == '\u{85}' || crate::camera::is_blank(c)
}

fn space(c: char) -> (r: bool)
    ensures
        r == is_space(c),
{
    ('\u{9}' <= c && c <= '\u{d}') || c == ' ' || c == '\u{85}' || c == '\u{a0}' || c == '\u{1680}' || ('\u{2000}' <= c
        && c <= '\u{200a}') || c == '\u{2028}' || c == '\u{2029}' || c == '\u{202f}' || c == '\u{205f}' || c == '\u{3000}'
}

/// How much white space `s` starts with.
pub open spec fn blank_ahead(s: Seq<char>) -> nat
    decreases s.len(),
{
    if s.len() == 0 || !is_space(s[0]) {
        0
    } else {
        1 + blank_ahead(s.drop_first())
    }
}

/// How long the word is that `s` starts with.
pub open spec fn word_ahead(s: Seq<char>) -> nat
    decreases s.len(),
{
    if s.len() == 0 || is_space(s[0]) {
        0
    } else {
        1 + word_ahead(s.drop_first())
    }
}

/// Word `n` of a text, counted from 0, in words parted by white space.
pub open spec fn word(s: Seq<char>, n: nat) -> Option<Seq<char>>
    decreases n,
{
    let rest = s.skip(blank_ahead(s) as int);
    let len = word_ahead(rest) as int;
    if len == 0 {
        None
    } else if n == 0 {
        Some(rest.take(len))
    } else {
        word(rest.skip(len), (n - 1) as nat)
    }
}

fn skip_blank(v: &Vec<char>, from: usize) -> (at: usize)
    requires
        from <= v@.len(),
    ensures
        from <= at <= v@.len(),
        at - from == blank_ahead(v@.skip(from as int)),
{
    let mut at: usize = from;
    while at < v.len() && space(v[at])
        invariant
            from <= at <= v@.len(),
            (at - from) + blank_ahead(v@.skip(at as int)) == blank_ahead(v@.skip(from as int)),
        decreases v@.len() - at,
    {
        assert(v@.skip(at as int).drop_first() =~= v@.skip(at + 1));
        at = at + 1;
    }
    at
}

fn skip_word(v: &Vec<char>, from: usize) -> (at: usize)
    requires
        from <= v@.len(),
    ensures
        from <= at <= v@.len(),
        at - from == word_ahead(v@.skip(from as int)),
{
    let mut at: usize = from;
    while at < v.len() && !space(v[at])
        invariant
            from <= at <= v@.len(),
            (at - from) + word_ahead(v@.skip(at as int)) == word_ahead(v@.skip(from as int)),
        decreases v@.len() - at,
    {
        assert(v@.skip(at as int).drop_first() =~= v@.skip(at + 1));
        at = at + 1;
    }
    at
}

fn nth_word(v: &Vec<char>, from: usize, n: u32) -> (w: Option<String>)
    requires
        from <= v@.len(),
    ensures
        match w {
            Some(w) => word(v@.skip(from as int), n as nat) == Some(w@),
            None => word(v@.skip(from as int), n as nat) is None,
        },
    decreases n,
{
    let ghost s = v@.skip(from as int);
    let start: usize = skip_blank(v, from);
    assert(s.skip(start - from) =~= v@.skip(start as int));
    let end: usize = skip_word(v, start);
    if end == start {
        return None;
    }
    if n == 0 {
        assert(v@.skip(start as int).take(end - start) =~= v@.subrange(start as int, end as int));
        return Some(text::gather(v, start, end));
    }
    assert(v@.skip(start as int).skip(end - start) =~= v@.skip(end as int));
    nth_word(v, end, n - 1)
}

/// Where the last closing bracket is, or -1.
pub open spec fn last_bracket(s: Seq<char>) -> int
    decreases s.len(),
{
    if s.len() == 0 {
        -1
    } else if s.last() == ')' {
        s.len() - 1
    } else {
        last_bracket(s.drop_last())
    }
}

/// When the process started, in ticks, from the text of /proc/self/stat: the
/// twentieth word after the bracketed command name.
pub open spec fn start_in(stat: Seq<char>) -> Option<Seq<char>> {
    if last_bracket(stat) < 0 {
        None
    } else {
        word(stat.skip(last_bracket(stat) + 1), 19)
    }
}

pub fn start_ticks(stat: &str) -> (w: Option<String>)
    ensures
        match w {
            Some(w) => start_in(stat@) == Some(w@),
            None => start_in(stat@) is None,
        },
{
    let v: Vec<char> = text::chars(stat);
    let mut end: usize = v.len();
    assert(v@.take(v@.len() as int) =~= v@);
    while end > 0 && v[end - 1] != ')'
        invariant
            end <= v@.len(),
            last_bracket(v@) == last_bracket(v@.take(end as int)),
        decreases end,
    {
        assert(v@.take(end as int).drop_last() =~= v@.take(end - 1));
        end = end - 1;
    }
    if end == 0 {
        return None;
    }
    nth_word(&v, end, 19)
}

/// The first word of a text.
pub fn first_word(s: &str) -> (w: Option<String>)
    ensures
        match w {
            Some(w) => word(s@, 0) == Some(w@),
            None => word(s@, 0) is None,
        },
{
    let v: Vec<char> = text::chars(s);
    assert(v@.skip(0) =~= v@);
    nth_word(&v, 0, 0)
}

/// What follows `key` in the first line that starts with it.
pub open spec fn line_after(s: Seq<char>, key: Seq<char>) -> Option<Seq<char>>
    decreases s.len(),
{
    let n = text::first_of(s, '\n');
    let line = s.take(n);
    if text::holds_at(line, 0, key) {
        Some(line.skip(key.len() as int))
    } else if n < 0 || n >= s.len() {
        None
    } else {
        line_after(s.skip(n + 1), key)
    }
}

/// How much white space `s` ends with.
pub open spec fn blank_behind(s: Seq<char>) -> nat
    decreases s.len(),
{
    if s.len() == 0 || !is_space(s.last()) {
        0
    } else {
        1 + blank_behind(s.drop_last())
    }
}

pub open spec fn trimmed(s: Seq<char>) -> Seq<char> {
    let t = s.skip(blank_ahead(s) as int);
    t.take(t.len() - blank_behind(t))
}

/// `s` without the units at its end.
pub open spec fn without_units(s: Seq<char>) -> Seq<char>
    decreases s.len(),
{
    if s.len() >= 2 && s[s.len() - 2] == 'k' && s[s.len() - 1] == 'B' {
        without_units(s.take(s.len() - 2))
    } else {
        s
    }
}

/// Resident memory in KiB, from the text of /proc/self/status.
pub open spec fn resident_in(status: Seq<char>) -> Option<Seq<char>> {
    match line_after(status, "VmRSS:"@) {
        Some(v) => Some(trimmed(without_units(trimmed(v)))),
        None => None,
    }
}

/// The characters `v[from..to]` without white space around them.
fn trim(v: &Vec<char>, from: usize, to: usize) -> (r: (usize, usize))
    requires
        from <= to <= v@.len(),
    ensures
        from <= r.0 <= r.1 <= to,
        v@.subrange(r.0 as int, r.1 as int) == trimmed(v@.subrange(from as int, to as int)),
{
    let ghost s = v@.subrange(from as int, to as int);
    let mut start: usize = from;
    assert(s.skip(0) =~= s);
    while start < to && space(v[start])
        invariant
            from <= start <= to <= v@.len(),
            s == v@.subrange(from as int, to as int),
            (start - from) + blank_ahead(s.skip(start - from)) == blank_ahead(s),
        decreases to - start,
    {
        assert(s.skip(start - from)[0] == v@[start as int]);
        assert(s.skip(start - from).drop_first() =~= s.skip(start + 1 - from));
        start = start + 1;
    }
    assert(blank_ahead(s.skip(start - from)) == 0) by {
        if start < to {
            assert(s.skip(start - from)[0] == v@[start as int]);
        }
    }
    let ghost t = s.skip(start - from);
    let mut end: usize = to;
    assert(t.take(t.len() as int) =~= t);
    while end > start && space(v[end - 1])
        invariant
            from <= start <= end <= to <= v@.len(),
            s == v@.subrange(from as int, to as int),
            t == s.skip(start - from),
            (to - end) + blank_behind(t.take(end - start)) == blank_behind(t),
        decreases end - start,
    {
        assert(t.take(end - start).last() == v@[end - 1]);
        assert(t.take(end - start).drop_last() =~= t.take(end - 1 - start));
        end = end - 1;
    }
    assert(blank_behind(t.take(end - start)) == 0) by {
        if end > start {
            assert(t.take(end - start).last() == v@[end - 1]);
        }
    }
    assert(v@.subrange(start as int, end as int) =~= t.take(t.len() - blank_behind(t)));
    (start, end)
}

/// Whether `v` holds `w` from `at` on, up to `to`.
fn starts_with(v: &Vec<char>, at: usize, to: usize, w: &Vec<char>) -> (r: bool)
    requires
        at <= to <= v@.len(),
    ensures
        r == text::holds_at(v@.subrange(at as int, to as int), 0, w@),
{
    let ghost line = v@.subrange(at as int, to as int);
    if w.len() > to - at {
        return false;
    }
    let mut i: usize = 0;
    while i < w.len()
        invariant
            at <= to <= v@.len(),
            at + w.len() <= to,
            i <= w@.len(),
            line == v@.subrange(at as int, to as int),
            forall|j: int| 0 <= j < i ==> v@[at + j] == w@[j],
        decreases w@.len() - i,
    {
        if v[at + i] != w[i] {
            assert(line.subrange(0, w@.len() as int)[i as int] == v@[at + i]);
            return false;
        }
        i = i + 1;
    }
    assert(line.subrange(0, w@.len() as int) =~= w@);
    true
}

/// Resident memory in KiB, as the kernel writes it.
pub fn resident(status: &str) -> (kib: Option<String>)
    ensures
        match kib {
            Some(k) => resident_in(status@) == Some(k@),
            None => resident_in(status@) is None,
        },
{
    let v: Vec<char> = text::chars(status);
    let key: Vec<char> = text::chars("VmRSS:");
    let mut at: usize = 0;
    assert(v@.skip(0) =~= v@);
    loop
        invariant
            v@ == status@,
            key@ == "VmRSS:"@,
            at <= v@.len(),
            line_after(v@, key@) == line_after(v@.skip(at as int), key@),
        decreases v@.len() - at,
    {
        let ghost s = v@.skip(at as int);
        let mut n: usize = at;
        assert(s.skip(0) =~= s);
        while n < v.len() && v[n] != '\n'
            invariant
                at <= n <= v@.len(),
                s == v@.skip(at as int),
                (n - at) + text::first_of(s.skip(n - at), '\n') == text::first_of(s, '\n'),
            decreases v@.len() - n,
        {
            assert(s.skip(n - at)[0] == v@[n as int]);
            assert(s.skip(n - at).drop_first() =~= s.skip(n + 1 - at));
            n = n + 1;
        }
        assert(text::first_of(s, '\n') == n - at) by {
            if n < v@.len() {
                assert(s.skip(n - at)[0] == v@[n as int]);
            }
        }
        assert(s.take(n - at) =~= v@.subrange(at as int, n as int));
        if starts_with(&v, at, n, &key) {
            assert(s.take(n - at).skip(key@.len() as int) =~= v@.subrange(at + key@.len(), n as int));
            let (a, b) = trim(&v, at + key.len(), n);
            let ghost whole = v@.subrange(a as int, b as int);
            let mut end: usize = b;
            while end - a >= 2 && v[end - 2] == 'k' && v[end - 1] == 'B'
                invariant
                    a <= end <= b <= v@.len(),
                    without_units(whole) == without_units(v@.subrange(a as int, end as int)),
                decreases end,
            {
                assert(v@.subrange(a as int, end as int).take(end - a - 2) =~= v@.subrange(a as int, end - 2));
                end = end - 2;
            }
            let (c, d) = trim(&v, a, end);
            return Some(text::gather(&v, c, d));
        }
        if n >= v.len() {
            return None;
        }
        assert(s.skip(n - at + 1) =~= v@.skip(n + 1));
        at = n + 1;
    }
}

/// Viewfinder counters.
#[derive(Debug, Clone, Copy, PartialEq, Eq, Structural)]
pub struct PerfStats {
    pub delivered: u32,
    pub presented: u32,
    pub dropped: u32,
    pub set_since_paint: u32,
    pub main_ns: u64,
    pub main_max_ns: u64,
}

/// How long counters run before they are reported, in nanoseconds.
pub const WINDOW: u64 = 2_000_000_000;

impl PerfStats {
    pub fn new() -> (p: PerfStats)
        ensures
            p == (PerfStats {
                delivered: 0,
                presented: 0,
                dropped: 0,
                set_since_paint: 0,
                main_ns: 0,
                main_max_ns: 0,
            }),
    {
        PerfStats { delivered: 0, presented: 0, dropped: 0, set_since_paint: 0, main_ns: 0, main_max_ns: 0 }
    }

    /// Nothing counted would pass its type's limit.
    pub open spec fn has_room(self, replaced: u32, ns: u64) -> bool {
        &&& self.delivered < u32::MAX
        &&& self.dropped + replaced <= u32::MAX
        &&& self.set_since_paint < u32::MAX
        &&& self.main_ns + ns <= u64::MAX
    }

    /// The counters with one more frame delivered.
    pub open spec fn after_delivery(self, replaced: u32, ns: u64) -> PerfStats {
        PerfStats {
            delivered: (self.delivered + 1) as u32,
            dropped: (self.dropped + replaced) as u32,
            set_since_paint: (self.set_since_paint + 1) as u32,
            main_ns: (self.main_ns + ns) as u64,
            main_max_ns: if ns > self.main_max_ns {
                ns
            } else {
                self.main_max_ns
            },
            ..self
        }
    }

    /// A frame was handed to the viewfinder in `ns`, with so many replaced
    /// before it.
    pub fn delivered(&mut self, replaced: u32, ns: u64)
        requires
            old(self).has_room(replaced, ns),
        ensures
            *final(self) == old(self).after_delivery(replaced, ns),
    {
        self.delivered = self.delivered + 1;
        self.dropped = self.dropped + replaced;
        self.set_since_paint = self.set_since_paint + 1;
        self.main_ns = self.main_ns + ns;
        if ns > self.main_max_ns {
            self.main_max_ns = ns;
        }
    }

    /// The window was painted, with the newest of the frames set since; the
    /// others were never seen.
    pub open spec fn after_paint(self) -> PerfStats {
        if self.set_since_paint == 0 {
            self
        } else {
            PerfStats {
                presented: (self.presented + 1) as u32,
                dropped: (self.dropped + (self.set_since_paint - 1)) as u32,
                set_since_paint: 0,
                ..self
            }
        }
    }

    /// The window was painted, `elapsed` nanoseconds into the counters' run.
    /// Returns the counters to report, where their time is over; they start
    /// from nothing then.
    pub fn painted(&mut self, elapsed: u64) -> (report: Option<PerfStats>)
        requires
            old(self).presented < u32::MAX,
            old(self).dropped + old(self).set_since_paint <= u32::MAX,
        ensures
            if old(self).set_since_paint > 0 && elapsed >= WINDOW {
                &&& report == Some(old(self).after_paint())
                &&& *final(self) == (PerfStats {
                    delivered: 0,
                    presented: 0,
                    dropped: 0,
                    set_since_paint: 0,
                    main_ns: 0,
                    main_max_ns: 0,
                })
            } else {
                report is None && *final(self) == old(self).after_paint()
            },
    {
        if self.set_since_paint == 0 {
            return None;
        }
        self.presented = self.presented + 1;
        self.dropped = self.dropped + (self.set_since_paint - 1);
        self.set_since_paint = 0;
        if elapsed >= WINDOW {
            let report: PerfStats = *self;
            *self = PerfStats::new();
            Some(report)
        } else {
            None
        }
    }
}

/// Every frame, of `seen` delivered to the viewfinder or replaced before, was
/// presented, dropped, or waits for a paint.
pub open spec fn accounted(p: PerfStats, seen: int) -> bool {
    seen == p.presented + p.dropped + p.set_since_paint
}

/// Every frame is accounted for, whatever is delivered and painted.
pub proof fn law_frames_are_accounted_for(p: PerfStats, replaced: u32, ns: u64, seen: int)
    requires
        accounted(p, seen),
        p.has_room(replaced, ns),
        p.dropped + p.set_since_paint <= u32::MAX,
        p.presented < u32::MAX,
    ensures
        accounted(p.after_delivery(replaced, ns), seen + replaced + 1),
        accounted(p.after_paint(), seen),
{
}

/// White space, by the codes of its characters.
pub proof fn law_space_goes_by_code(c: char)
    ensures
        (c as int) < 0x80 ==> (is_space(c) <==> 9 <= c as int <= 13 || c as int == 32),
        0x80 <= c as int ==> (is_space(c) <==> {
            let n = c as int;
            n == 0x85 || n == 0xa0 || n == 0x1680 || 0x2000 <= n <= 0x200a || n == 0x2028 || n == 0x2029 || n == 0x202f || n == 0x205f
                || n == 0x3000
        }),
{
}

/// Words are parted by white space: the first one of a text is what stands
/// before its first space, the others are those of what follows, and space
/// before them does not count.
pub proof fn law_words_are_parted_by_space(w: Seq<char>, c: char, rest: Seq<char>, n: nat)
    requires
        w.len() > 0,
        forall|i: int| 0 <= i < w.len() ==> !is_space(#[trigger] w[i]),
        is_space(c),
    ensures
        word(w + seq![c] + rest, 0) == Some(w),
        word(w, 0) == Some(w),
        word(w + seq![c] + rest, n + 1) == word(seq![c] + rest, n),
        word(seq![c] + rest, n) == word(rest, n),
        word(Seq::empty(), n) is None,
{
    let s = w + seq![c] + rest;
    assert(s[0] == w[0]);
    assert(blank_ahead(s) == 0);
    assert(s.skip(0) =~= s);
    lemma_word_ahead(w, seq![c] + rest);
    assert(s =~= w + (seq![c] + rest));
    assert(s.take(w.len() as int) =~= w);
    assert(s.skip(w.len() as int) =~= seq![c] + rest);
    lemma_word_ahead(w, Seq::empty());
    assert(w + Seq::<char>::empty() =~= w);
    assert(w.skip(0) =~= w);
    assert(w.take(w.len() as int) =~= w);
    assert(blank_ahead(w) == 0);
    let t = seq![c] + rest;
    assert(t.drop_first() =~= rest);
    assert(blank_ahead(t) == 1 + blank_ahead(rest));
    lemma_blank_bounded(rest);
    assert(t.skip(blank_ahead(t) as int) =~= rest.skip(blank_ahead(rest) as int));
    assert(Seq::<char>::empty().skip(0) =~= Seq::empty());
}

proof fn lemma_blank_bounded(s: Seq<char>)
    ensures
        blank_ahead(s) <= s.len(),
    decreases s.len(),
{
    if s.len() > 0 && is_space(s[0]) {
        lemma_blank_bounded(s.drop_first());
    }
}

proof fn lemma_word_ahead(w: Seq<char>, rest: Seq<char>)
    requires
        forall|i: int| 0 <= i < w.len() ==> !is_space(#[trigger] w[i]),
        rest.len() == 0 || is_space(rest[0]),
    ensures
        word_ahead(w + rest) == w.len(),
    decreases w.len(),
{
    let s = w + rest;
    if w.len() == 0 {
        assert(s =~= rest);
    } else {
        let t = w.drop_first();
        assert forall|i: int| 0 <= i < t.len() implies !is_space(#[trigger] t[i]) by {
            assert(t[i] == w[i + 1]);
        }
        lemma_word_ahead(t, rest);
        assert(s[0] == w[0]);
        assert(s.drop_first() =~= t + rest);
    }
}

/// A delivered frame counts once, with those it replaced and the time it
/// took; a paint presents one of the frames set since and drops the others,
/// and without any changes nothing. Counters run for two seconds.
pub proof fn law_counters_tell_what_happened(p: PerfStats, replaced: u32, ns: u64)
    requires
        p.has_room(replaced, ns),
        p.dropped + p.set_since_paint <= u32::MAX,
        p.presented < u32::MAX,
    ensures
        ({
            let d = p.after_delivery(replaced, ns);
            &&& d.delivered == p.delivered + 1 && d.set_since_paint == p.set_since_paint + 1
            &&& d.dropped == p.dropped + replaced && d.presented == p.presented
            &&& d.main_ns == p.main_ns + ns
            &&& d.main_max_ns >= ns && d.main_max_ns >= p.main_max_ns
            &&& d.main_max_ns == ns || d.main_max_ns == p.main_max_ns
        }),
        ({
            let q = p.after_paint();
            &&& q.set_since_paint == 0
            &&& p.set_since_paint == 0 ==> q == p
            &&& p.set_since_paint > 0 ==> q.presented == p.presented + 1 && q.dropped == p.dropped + p.set_since_paint - 1
            &&& q.delivered == p.delivered && q.main_ns == p.main_ns && q.main_max_ns == p.main_max_ns
        }),
        WINDOW == 2 * 1_000_000_000,
{
}

/// Units and space around a number are taken off, and the number stays.
pub proof fn law_units_are_taken_off(number: Seq<char>)
    requires
        number.len() > 0,
        !is_space(number[0]),
        !is_space(number.last()),
        number.last() != 'B',
    ensures
        without_units(number) == number,
        without_units(number + seq!['k', 'B']) == number,
        trimmed(number) == number,
        trimmed(seq![' '] + number + seq![' ']) == number,
{
    let s = number + seq!['k', 'B'];
    assert(s[s.len() - 2] == 'k' && s[s.len() - 1] == 'B');
    assert(s.take(s.len() - 2) =~= number);
    assert(number.skip(0) =~= number);
    assert(number.take(number.len() as int) =~= number);
    let t = seq![' '] + number + seq![' '];
    let u = number + seq![' '];
    assert(t.drop_first() =~= u);
    assert(u[0] == number[0]);
    assert(blank_ahead(u) == 0);
    assert(blank_ahead(t) == 1);
    assert(t.skip(1) =~= u);
    assert(u.drop_last() =~= number);
    assert(blank_behind(number) == 0);
    assert(u.last() == ' ');
    assert(blank_behind(u) == 1);
    assert(u.take(u.len() - 1) =~= number);
}

proof fn lemma_last_bracket(a: Seq<char>, b: Seq<char>)
    requires
        forall|i: int| 0 <= i < b.len() ==> #[trigger] b[i] != ')',
    ensures
        last_bracket(a + seq![')'] + b) == a.len(),
        last_bracket(b) == -1,
    decreases b.len(),
{
    let s = a + seq![')'] + b;
    if b.len() == 0 {
        assert(s.last() == ')');
    } else {
        let t = b.drop_last();
        assert forall|i: int| 0 <= i < t.len() implies #[trigger] t[i] != ')' by {
            assert(t[i] == b[i]);
        }
        lemma_last_bracket(a, t);
        assert(s.last() == b.last());
        assert(s.drop_last() =~= a + seq![')'] + t);
    }
}

/// The start time is the twentieth word after the last closing bracket,
/// whatever the command's name holds; without a bracket there is none.
pub proof fn law_start_follows_the_name(name: Seq<char>, rest: Seq<char>)
    requires
        forall|i: int| 0 <= i < rest.len() ==> #[trigger] rest[i] != ')',
    ensures
        start_in(name + seq![')'] + rest) == word(rest, 19),
        start_in(rest) is None,
{
    lemma_last_bracket(name, rest);
    let s = name + seq![')'] + rest;
    assert(s.skip(name.len() as int + 1) =~= rest);
}

proof fn lemma_line_end(line: Seq<char>, rest: Seq<char>)
    requires
        forall|i: int| 0 <= i < line.len() ==> #[trigger] line[i] != '\n',
    ensures
        text::first_of(line + seq!['\n'] + rest, '\n') == line.len(),
    decreases line.len(),
{
    let s = line + seq!['\n'] + rest;
    if line.len() == 0 {
        assert(s[0] == '\n');
    } else {
        let t = line.drop_first();
        assert forall|i: int| 0 <= i < t.len() implies #[trigger] t[i] != '\n' by {
            assert(t[i] == line[i + 1]);
        }
        lemma_line_end(t, rest);
        assert(s[0] == line[0]);
        assert(s.drop_first() =~= t + seq!['\n'] + rest);
    }
}

/// A value is what follows its key in the first line that starts with it:
/// lines that do not are passed over.
pub proof fn law_first_line_of_the_key_counts(key: Seq<char>, value: Seq<char>, other: Seq<char>, rest: Seq<char>)
    requires
        forall|i: int| 0 <= i < key.len() ==> #[trigger] key[i] != '\n',
        forall|i: int| 0 <= i < value.len() ==> #[trigger] value[i] != '\n',
        forall|i: int| 0 <= i < other.len() ==> #[trigger] other[i] != '\n',
        !text::holds_at(other, 0, key),
    ensures
        line_after(key + value + seq!['\n'] + rest, key) == Some(value),
        line_after(other + seq!['\n'] + rest, key) == line_after(rest, key),
{
    let line = key + value;
    assert forall|i: int| 0 <= i < line.len() implies #[trigger] line[i] != '\n' by {
        if i < key.len() {
            assert(line[i] == key[i]);
        } else {
            assert(line[i] == value[i - key.len()]);
        }
    }
    lemma_line_end(line, rest);
    lemma_line_end(other, rest);
    let s = line + seq!['\n'] + rest;
    assert(s.take(line.len() as int) =~= line);
    assert(line.subrange(0, key.len() as int) =~= key);
    assert(line.skip(key.len() as int) =~= value);
    let t = other + seq!['\n'] + rest;
    assert(t.take(other.len() as int) =~= other);
    assert(t.skip(other.len() as int + 1) =~= rest);
}

/// Resident memory is read from the kernel's own line.
pub proof fn law_resident_is_the_line_of_its_key(status: Seq<char>, value: Seq<char>)
    ensures
        line_after(status, "VmRSS:"@) == Some(value) ==> resident_in(status) == Some(trimmed(without_units(trimmed(value)))),
        line_after(status, "VmRSS:"@) is None ==> resident_in(status) is None,
{
}

} // verus!
