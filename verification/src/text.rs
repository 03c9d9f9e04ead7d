//! Text as sequences of characters: comparing, searching, and decimal
//! numbers written and read.

use vstd::prelude::*;

verus! {

/// `String::push` appends the character.
pub assume_specification[ String::push ](s: &mut String, c: char)
    ensures
        final(s)@ == old(s)@.push(c),
;

/// The characters of a string.
pub fn chars(s: &str) -> (v: Vec<char>)
    ensures
        v@ == s@,
{
    let mut v: Vec<char> = Vec::new();
    for c in it: s.chars()
        invariant
            it.seq() == s@,
            v@ == s@.take(it.index()),
    {
        assert(s@.take(it.index()).push(s@[it.index()]) =~= s@.take(it.index() + 1));
        v.push(c);
    }
    assert(s@.take(s@.len() as int) =~= s@);
    v
}

/// Whether `v` holds `w` from `at` on.
pub open spec fn holds_at(v: Seq<char>, at: int, w: Seq<char>) -> bool {
    0 <= at && at + w.len() <= v.len() && v.subrange(at, at + w.len()) == w
}

pub open spec fn contained(v: Seq<char>, w: Seq<char>) -> bool {
    exists|at: int| holds_at(v, at, w)
}

pub open spec fn ends(v: Seq<char>, w: Seq<char>) -> bool {
    holds_at(v, v.len() - w.len(), w)
}

fn found_at(v: &Vec<char>, at: usize, w: &Vec<char>) -> (found: bool)
    requires
        at + w@.len() <= v@.len(),
    ensures
        found == holds_at(v@, at as int, w@),
{
    let mut i: usize = 0;
    while i < w.len()
        invariant
            at + w.len() <= v.len(),
            i <= w@.len(),
            forall|j: int| 0 <= j < i ==> v@[at + j] == w@[j],
        decreases w@.len() - i,
    {
        if v[at + i] != w[i] {
            assert(v@.subrange(at as int, at + w@.len())[i as int] != w@[i as int]);
            return false;
        }
        i = i + 1;
    }
    assert(v@.subrange(at as int, at + w@.len()) =~= w@);
    true
}

/// Whether two strings hold the same characters.
pub fn same(a: &str, b: &str) -> (r: bool)
    ensures
        r == (a@ == b@),
{
    let (v, w) = (chars(a), chars(b));
    if v.len() != w.len() {
        return false;
    }
    proof {
        assert(v@.subrange(0, w@.len() as int) =~= v@);
    }
    found_at(&v, 0, &w)
}

/// Whether `a` ends with `b`.
pub fn ends_with(a: &str, b: &str) -> (r: bool)
    ensures
        r == ends(a@, b@),
{
    let (v, w) = (chars(a), chars(b));
    if w.len() > v.len() {
        return false;
    }
    found_at(&v, v.len() - w.len(), &w)
}

/// Whether `b` occurs somewhere in `a`.
pub fn contains(a: &str, b: &str) -> (r: bool)
    ensures
        r == contained(a@, b@),
{
    let (v, w) = (chars(a), chars(b));
    if w.len() > v.len() {
        return false;
    }
    let last: usize = v.len() - w.len();
    let mut at: usize = 0;
    while at <= last
        invariant
            last + w@.len() == v@.len(),
            at <= last + 1,
            v@ == a@,
            w@ == b@,
            forall|i: int| 0 <= i < at ==> !holds_at(a@, i, b@),
        decreases last + 1 - at,
    {
        if found_at(&v, at, &w) {
            return true;
        }
        if at == last {
            assert forall|i: int| !holds_at(a@, i, b@) by {}
            return false;
        }
        at = at + 1;
    }
    false
}

/// The characters from `from` up to `to`, as a string.
pub fn gather(v: &Vec<char>, from: usize, to: usize) -> (s: String)
    requires
        from <= to <= v@.len(),
    ensures
        s@ == v@.subrange(from as int, to as int),
{
    let mut s: String = String::new();
    let mut i: usize = from;
    while i < to
        invariant
            from <= i <= to <= v@.len(),
            s@ == v@.subrange(from as int, i as int),
        decreases to - i,
    {
        assert(v@.subrange(from as int, i as int).push(v@[i as int]) =~= v@.subrange(from as int, i + 1));
        s.push(v[i]);
        i = i + 1;
    }
    s
}

/// The decimal digit `d`.
pub open spec fn digit(d: int) -> char {
    (48 + d) as char
}

/// `n` in decimal, without leading zeros.
pub open spec fn decimal(n: nat) -> Seq<char>
    decreases n,
{
    if n < 10 {
        seq![digit(n as int)]
    } else {
        decimal(n / 10).push(digit((n % 10) as int))
    }
}

/// Append `n` in decimal.
pub fn push_decimal(s: &mut String, n: u64)
    ensures
        final(s)@ == old(s)@ + decimal(n as nat),
    decreases n,
{
    if n >= 10 {
        push_decimal(s, n / 10);
    }
    let d: u8 = (n % 10) as u8;
    s.push((48 + d) as char);
    assert(s@ =~= old(s)@ + decimal(n as nat));
}

pub open spec fn is_digit(c: char) -> bool {
    '0' <= c <= '9'
}

pub open spec fn all_digits(s: Seq<char>) -> bool {
    forall|i: int| 0 <= i < s.len() ==> is_digit(#[trigger] s[i])
}

/// What a run of decimal digits stands for.
pub open spec fn natural(s: Seq<char>) -> nat
    decreases s.len(),
{
    if s.len() == 0 {
        0
    } else {
        (natural(s.drop_last()) * 10 + (s.last() as int - 48)) as nat
    }
}

/// A 32-bit number in decimal digits: nothing else, and at least one of them.
pub open spec fn number_in(s: Seq<char>) -> Option<u32> {
    if s.len() > 0 && all_digits(s) && natural(s) <= u32::MAX {
        Some(natural(s) as u32)
    } else {
        None
    }
}

/// The same, where a plus sign may lead.
pub open spec fn signed_number_in(s: Seq<char>) -> Option<u32> {
    if s.len() > 0 && s[0] == '+' {
        number_in(s.drop_first())
    } else {
        number_in(s)
    }
}

/// Digits in front only make a number larger.
proof fn lemma_natural_grows(s: Seq<char>, n: int)
    requires
        0 <= n <= s.len(),
        all_digits(s),
    ensures
        natural(s.take(n)) <= natural(s),
    decreases s.len() - n,
{
    if n < s.len() {
        lemma_natural_grows(s, n + 1);
        assert(s.take(n + 1).drop_last() =~= s.take(n));
        assert(is_digit(s[n]));
    } else {
        assert(s.take(n) =~= s);
    }
}

/// Read the digits `v[from..to]`.
pub fn parse_digits(v: &Vec<char>, from: usize, to: usize) -> (r: Option<u32>)
    requires
        from <= to <= v@.len(),
    ensures
        r == number_in(v@.subrange(from as int, to as int)),
{
    let ghost s = v@.subrange(from as int, to as int);
    if from == to {
        return None;
    }
    let mut n: u32 = 0;
    let mut i: usize = from;
    assert(s.take(0).len() == 0);
    while i < to
        invariant
            from <= i <= to <= v@.len(),
            from < to,
            s == v@.subrange(from as int, to as int),
            n == natural(s.take(i - from)),
            forall|j: int| 0 <= j < i - from ==> is_digit(#[trigger] s[j]),
        decreases to - i,
    {
        let c: char = v[i];
        assert(s[i - from] == c);
        if !('0' <= c && c <= '9') {
            return None;
        }
        let d: u32 = c as u32 - 48;
        assert(s.take(i - from + 1).drop_last() =~= s.take(i - from));
        assert(natural(s.take(i - from + 1)) == n * 10 + d);
        if n > 429_496_729 || (n == 429_496_729 && d > 5) {
            proof {
                if all_digits(s) {
                    lemma_natural_grows(s, i - from + 1);
                }
            }
            return None;
        }
        n = n * 10 + d;
        i = i + 1;
    }
    assert(s.take(to - from) =~= s);
    Some(n)
}

/// Read a number that may start with a plus sign.
pub fn parse_number(v: &Vec<char>, from: usize, to: usize) -> (r: Option<u32>)
    requires
        from <= to <= v@.len(),
    ensures
        r == signed_number_in(v@.subrange(from as int, to as int)),
{
    let ghost s = v@.subrange(from as int, to as int);
    if from < to && v[from] == '+' {
        assert(s.drop_first() =~= v@.subrange(from + 1, to as int));
        parse_digits(v, from + 1, to)
    } else {
        parse_digits(v, from, to)
    }
}

/// Where `c` first occurs, or the length.
pub open spec fn first_of(s: Seq<char>, c: char) -> int
    decreases s.len(),
{
    if s.len() == 0 || s[0] == c {
        0
    } else {
        1 + first_of(s.drop_first(), c)
    }
}

proof fn lemma_first_of(s: Seq<char>, c: char, n: int)
    requires
        0 <= n <= s.len(),
        forall|i: int| 0 <= i < n ==> s[i] != c,
        n == s.len() || s[n] == c,
    ensures
        first_of(s, c) == n,
    decreases s.len(),
{
    if n > 0 {
        lemma_first_of(s.drop_first(), c, n - 1);
    }
}

/// Where `c` first occurs in `v`.
pub fn find(v: &Vec<char>, c: char) -> (at: usize)
    ensures
        at == first_of(v@, c),
        at <= v@.len(),
        at < v@.len() ==> v@[at as int] == c,
{
    let mut i: usize = 0;
    while i < v.len() && v[i] != c
        invariant
            i <= v@.len(),
            forall|j: int| 0 <= j < i ==> v@[j] != c,
        decreases v@.len() - i,
    {
        i = i + 1;
    }
    proof {
        lemma_first_of(v@, c, i as int);
    }
    i
}

/// Decimal text holds digits only, and says the number it was made from.
pub proof fn law_decimal_reads_back(n: nat)
    ensures
        decimal(n).len() > 0,
        all_digits(decimal(n)),
        natural(decimal(n)) == n,
    decreases n,
{
    if n >= 10 {
        law_decimal_reads_back(n / 10);
        assert(decimal(n).drop_last() =~= decimal(n / 10));
    } else {
        assert(decimal(n).drop_last().len() == 0);
        assert(natural(decimal(n).drop_last()) == 0);
    }
}

} // verus!
