//! Camera controls: what a camera reports about them, values on their way to
//! and from it, and the manual settings that hold what it chose by itself.

use crate::number::{INFINITE, Number, SIGN, clamped, law_integers_survive, power_of_two, unity};
use crate::rounding::{
    Scaled, absolute, combine, is_at_most, lemma_nearest_positive, lemma_nearest_reduced, lemma_nearest_scaled, law_rounding_is_close, nearest, round_fraction,
};
use crate::text;
use vstd::arithmetic::power2::*;
use vstd::prelude::*;

verus! {

/// What a control's values are.
#[derive(Debug, Clone, Copy, PartialEq, Eq, Structural)]
pub enum Kind {
    Bool,
    Int,
    Float,
    /// Anything a generated widget cannot edit (rectangles, sizes, strings).
    Other,
}

/// One entry of the camera's list of controls, flattened for the interface.
#[derive(Debug)]
pub struct ControlDesc {
    pub id: u32,
    pub name: String,
    pub kind: Kind,
    /// Elements per value: 1 for a scalar, N for a fixed array, 0 if dynamic.
    pub len: usize,
    pub min: Number,
    pub max: Number,
    pub def: Vec<Number>,
    /// Named values, for enum-like integer controls.
    pub enums: Vec<(i32, String)>,
}

/// A [`ControlDesc`] as plain sequences.
pub struct Control {
    pub id: u32,
    pub name: Seq<char>,
    pub kind: Kind,
    pub len: usize,
    pub min: Number,
    pub max: Number,
    pub def: Seq<Number>,
    pub enums: Seq<(i32, Seq<char>)>,
}

pub open spec fn labels(s: Seq<(i32, String)>) -> Seq<(i32, Seq<char>)> {
    s.map_values(|p: (i32, String)| (p.0, p.1@))
}

impl View for ControlDesc {
    type V = Control;

    open spec fn view(&self) -> Control {
        Control {
            id: self.id,
            name: self.name@,
            kind: self.kind,
            len: self.len,
            min: self.min,
            max: self.max,
            def: self.def@,
            enums: labels(self.enums@),
        }
    }
}

/// A rectangle in sensor pixels.
#[derive(Debug, Clone, Copy, PartialEq, Eq, Structural)]
pub struct Rectangle {
    pub x: i32,
    pub y: i32,
    pub width: u32,
    pub height: u32,
}

/// A value as the camera stack types it.
#[derive(Debug)]
pub enum ControlValue {
    Empty,
    Bool(Vec<bool>),
    Byte(Vec<u8>),
    Uint16(Vec<u16>),
    Uint32(Vec<u32>),
    Int32(Vec<i32>),
    Int64(Vec<i64>),
    Float(Vec<Number>),
    Rectangle(Vec<Rectangle>),
    /// Strings, sizes and points.
    Other,
}

/// A [`ControlValue`] as plain sequences.
pub enum Typed {
    Empty,
    Bool(Seq<bool>),
    Byte(Seq<u8>),
    Uint16(Seq<u16>),
    Uint32(Seq<u32>),
    Int32(Seq<i32>),
    Int64(Seq<i64>),
    Float(Seq<Number>),
    Rectangle(Seq<Rectangle>),
    Other,
}

impl View for ControlValue {
    type V = Typed;

    open spec fn view(&self) -> Typed {
        match *self {
            ControlValue::Empty => Typed::Empty,
            ControlValue::Bool(v) => Typed::Bool(v@),
            ControlValue::Byte(v) => Typed::Byte(v@),
            ControlValue::Uint16(v) => Typed::Uint16(v@),
            ControlValue::Uint32(v) => Typed::Uint32(v@),
            ControlValue::Int32(v) => Typed::Int32(v@),
            ControlValue::Int64(v) => Typed::Int64(v@),
            ControlValue::Float(v) => Typed::Float(v@),
            ControlValue::Rectangle(v) => Typed::Rectangle(v@),
            ControlValue::Other => Typed::Other,
        }
    }
}

pub open spec fn truth(b: bool) -> Number {
    Number::of(if b { 1 } else { 0 })
}

/// What a value amounts to in numbers; nothing for what is not numeric.
pub open spec fn numbers_in(v: ControlValue) -> Seq<Number> {
    match v {
        ControlValue::Bool(s) => s@.map_values(|b: bool| truth(b)),
        ControlValue::Byte(s) => s@.map_values(|x: u8| Number::of(x as int)),
        ControlValue::Uint16(s) => s@.map_values(|x: u16| Number::of(x as int)),
        ControlValue::Uint32(s) => s@.map_values(|x: u32| Number::of(x as int)),
        ControlValue::Int32(s) => s@.map_values(|x: i32| Number::of(x as int)),
        ControlValue::Int64(s) => s@.map_values(|x: i64| Number::of(x as int)),
        ControlValue::Float(s) => s@,
        _ => Seq::empty(),
    }
}

/// A value's numbers.
pub fn numbers(v: &ControlValue) -> (out: Vec<Number>)
    ensures
        out@ == numbers_in(*v),
{
    let mut out: Vec<Number> = Vec::new();
    let mut i: usize = 0;
    match v {
        ControlValue::Bool(s) => {
            while i < s.len()
                invariant
                    i <= s@.len(),
                    out@ == numbers_in(*v).take(i as int),
                    *v == ControlValue::Bool(*s),
                decreases s@.len() - i,
            {
                out.push(Number::from_i64(if s[i] { 1 } else { 0 }));
                assert(out@ =~= numbers_in(*v).take(i + 1));
                i = i + 1;
            }
        },
        ControlValue::Byte(s) => {
            while i < s.len()
                invariant
                    i <= s@.len(),
                    out@ == numbers_in(*v).take(i as int),
                    *v == ControlValue::Byte(*s),
                decreases s@.len() - i,
            {
                out.push(Number::from_i64(s[i] as i64));
                assert(out@ =~= numbers_in(*v).take(i + 1));
                i = i + 1;
            }
        },
        ControlValue::Uint16(s) => {
            while i < s.len()
                invariant
                    i <= s@.len(),
                    out@ == numbers_in(*v).take(i as int),
                    *v == ControlValue::Uint16(*s),
                decreases s@.len() - i,
            {
                out.push(Number::from_i64(s[i] as i64));
                assert(out@ =~= numbers_in(*v).take(i + 1));
                i = i + 1;
            }
        },
        ControlValue::Uint32(s) => {
            while i < s.len()
                invariant
                    i <= s@.len(),
                    out@ == numbers_in(*v).take(i as int),
                    *v == ControlValue::Uint32(*s),
                decreases s@.len() - i,
            {
                out.push(Number::from_i64(s[i] as i64));
                assert(out@ =~= numbers_in(*v).take(i + 1));
                i = i + 1;
            }
        },
        ControlValue::Int32(s) => {
            while i < s.len()
                invariant
                    i <= s@.len(),
                    out@ == numbers_in(*v).take(i as int),
                    *v == ControlValue::Int32(*s),
                decreases s@.len() - i,
            {
                out.push(Number::from_i64(s[i] as i64));
                assert(out@ =~= numbers_in(*v).take(i + 1));
                i = i + 1;
            }
        },
        ControlValue::Int64(s) => {
            while i < s.len()
                invariant
                    i <= s@.len(),
                    out@ == numbers_in(*v).take(i as int),
                    *v == ControlValue::Int64(*s),
                decreases s@.len() - i,
            {
                out.push(Number::from_i64(s[i]));
                assert(out@ =~= numbers_in(*v).take(i + 1));
                i = i + 1;
            }
        },
        ControlValue::Float(s) => {
            while i < s.len()
                invariant
                    i <= s@.len(),
                    out@ == s@.take(i as int),
                decreases s@.len() - i,
            {
                out.push(s[i]);
                assert(out@ =~= s@.take(i + 1));
                i = i + 1;
            }
        },
        _ => {},
    }
    assert(out@ =~= numbers_in(*v));
    out
}

/// The same numbers in a vector of their own.
pub fn copied(v: &Vec<Number>) -> (w: Vec<Number>)
    ensures
        w@ == v@,
{
    let mut w: Vec<Number> = Vec::new();
    let mut i: usize = 0;
    while i < v.len()
        invariant
            i <= v@.len(),
            w@ == v@.take(i as int),
        decreases v@.len() - i,
    {
        w.push(v[i]);
        assert(w@ =~= v@.take(i + 1));
        i = i + 1;
    }
    assert(w@ =~= v@);
    w
}

/// How the camera stack tags a 64-bit integer control.
pub const LIBCAMERA_INT64: u32 = 4;

/// The nearest 32-bit integer.
pub open spec fn to_i32(n: Number) -> i32 {
    clamped(n.rounded(), i32::MIN as int, i32::MAX as int) as i32
}

pub fn round_i32(n: Number) -> (r: i32)
    ensures
        r == to_i32(n),
{
    let x: i64 = n.round();
    if x < i32::MIN as i64 {
        i32::MIN
    } else if x > i32::MAX as i64 {
        i32::MAX
    } else {
        x as i32
    }
}

pub open spec fn on(n: Number) -> bool {
    !n.alike(Number { bits: 0 })
}

/// A switch's number says what the switch is at.
pub proof fn lemma_truth(b: bool)
    ensures
        on(truth(b)) == b,
        truth(b) == Number::of(if b { 1 } else { 0 }),
        on(Number::of(0)) == false,
        on(Number::of(1)) == true,
{
    lemma2_to64();
    assert(Number::of(0).bits == 0);
    assert(Number::of(1).bits == 0x3ff0_0000_0000_0000);
}

/// Numbers typed for a control of this kind. `ty` is the camera stack's tag
/// for the control's type, where it has one.
pub open spec fn typed(kind: Kind, ty: Option<u32>, value: Seq<Number>) -> Option<Typed> {
    match kind {
        Kind::Bool => Some(Typed::Bool(value.map_values(|n: Number| on(n)))),
        Kind::Int => if ty == Some(LIBCAMERA_INT64) {
            Some(Typed::Int64(value.map_values(|n: Number| n.rounded() as i64)))
        } else {
            Some(Typed::Int32(value.map_values(|n: Number| to_i32(n))))
        },
        Kind::Float => Some(Typed::Float(value)),
        Kind::Other => None,
    }
}

/// `value` typed for a control of this kind.
pub fn control_value(kind: Kind, ty: Option<u32>, value: &Vec<Number>) -> (r: Option<ControlValue>)
    ensures
        match r {
            Some(v) => typed(kind, ty, value@) == Some(v@),
            None => typed(kind, ty, value@) is None,
        },
{
    let mut i: usize = 0;
    match kind {
        Kind::Bool => {
            let mut out: Vec<bool> = Vec::new();
            let ghost all = value@.map_values(|n: Number| on(n));
            while i < value.len()
                invariant
                    i <= value@.len(),
                    all == value@.map_values(|n: Number| on(n)),
                    out@ == all.take(i as int),
                decreases value@.len() - i,
            {
                out.push(!value[i].is_zero());
                assert(out@ =~= all.take(i + 1));
                i = i + 1;
            }
            assert(out@ =~= all);
            Some(ControlValue::Bool(out))
        },
        Kind::Int => {
            let wide: bool = match ty {
                Some(t) => t == LIBCAMERA_INT64,
                None => false,
            };
            if wide {
                let mut out: Vec<i64> = Vec::new();
                let ghost all = value@.map_values(|n: Number| n.rounded() as i64);
                while i < value.len()
                    invariant
                        i <= value@.len(),
                        all == value@.map_values(|n: Number| n.rounded() as i64),
                        out@ == all.take(i as int),
                    decreases value@.len() - i,
                {
                    out.push(value[i].round());
                    assert(out@ =~= all.take(i + 1));
                    i = i + 1;
                }
                assert(out@ =~= all);
                Some(ControlValue::Int64(out))
            } else {
                let mut out: Vec<i32> = Vec::new();
                let ghost all = value@.map_values(|n: Number| to_i32(n));
                while i < value.len()
                    invariant
                        i <= value@.len(),
                        all == value@.map_values(|n: Number| to_i32(n)),
                        out@ == all.take(i as int),
                    decreases value@.len() - i,
                {
                    out.push(round_i32(value[i]));
                    assert(out@ =~= all.take(i + 1));
                    i = i + 1;
                }
                assert(out@ =~= all);
                Some(ControlValue::Int32(out))
            }
        },
        Kind::Float => Some(ControlValue::Float(copied(value))),
        Kind::Other => None,
    }
}

/// Where a control of this name stands, or the length.
pub open spec fn index_named(controls: Seq<ControlDesc>, name: Seq<char>) -> int
    decreases controls.len(),
{
    if controls.len() == 0 || controls[0].name@ == name {
        0
    } else {
        1 + index_named(controls.drop_first(), name)
    }
}

/// Where the control of this id stands, or the length.
pub open spec fn index_id(controls: Seq<ControlDesc>, id: u32) -> int
    decreases controls.len(),
{
    if controls.len() == 0 || controls[0].id == id {
        0
    } else {
        1 + index_id(controls.drop_first(), id)
    }
}

/// Where the first label ending in `suffix` stands, or the length.
pub open spec fn index_ending(enums: Seq<(i32, String)>, suffix: Seq<char>) -> int
    decreases enums.len(),
{
    if enums.len() == 0 || text::ends(enums[0].1@, suffix) {
        0
    } else {
        1 + index_ending(enums.drop_first(), suffix)
    }
}

proof fn lemma_index_named(controls: Seq<ControlDesc>, name: Seq<char>, n: int)
    requires
        0 <= n <= controls.len(),
        forall|i: int| 0 <= i < n ==> (#[trigger] controls[i]).name@ != name,
        n == controls.len() || controls[n].name@ == name,
    ensures
        index_named(controls, name) == n,
    decreases controls.len(),
{
    if n > 0 {
        let t = controls.drop_first();
        assert forall|i: int| 0 <= i < n - 1 implies (#[trigger] t[i]).name@ != name by {
            assert(t[i] == controls[i + 1]);
        }
        assert(controls[0].name@ != name);
        lemma_index_named(t, name, n - 1);
    }
}

pub proof fn lemma_index_id(controls: Seq<ControlDesc>, id: u32, n: int)
    requires
        0 <= n <= controls.len(),
        forall|i: int| 0 <= i < n ==> (#[trigger] controls[i]).id != id,
        n == controls.len() || controls[n].id == id,
    ensures
        index_id(controls, id) == n,
    decreases controls.len(),
{
    if n > 0 {
        let t = controls.drop_first();
        assert forall|i: int| 0 <= i < n - 1 implies (#[trigger] t[i]).id != id by {
            assert(t[i] == controls[i + 1]);
        }
        assert(controls[0].id != id);
        lemma_index_id(t, id, n - 1);
    }
}

proof fn lemma_index_ending(enums: Seq<(i32, String)>, suffix: Seq<char>, n: int)
    requires
        0 <= n <= enums.len(),
        forall|i: int| 0 <= i < n ==> !text::ends((#[trigger] enums[i]).1@, suffix),
        n == enums.len() || text::ends(enums[n].1@, suffix),
    ensures
        index_ending(enums, suffix) == n,
    decreases enums.len(),
{
    if n > 0 {
        let t = enums.drop_first();
        assert forall|i: int| 0 <= i < n - 1 implies !text::ends((#[trigger] t[i]).1@, suffix) by {
            assert(t[i] == enums[i + 1]);
        }
        assert(!text::ends(enums[0].1@, suffix));
        lemma_index_ending(t, suffix, n - 1);
    }
}

/// The first control of this name.
pub fn find_named(controls: &Vec<ControlDesc>, name: &str) -> (at: Option<usize>)
    ensures
        at matches Some(i) ==> i == index_named(controls@, name@) && i < controls@.len() && controls@[i as int].name@
            == name@,
        at is None ==> index_named(controls@, name@) == controls@.len(),
{
    let mut i: usize = 0;
    while i < controls.len()
        invariant
            i <= controls@.len(),
            forall|j: int| 0 <= j < i ==> (#[trigger] controls@[j]).name@ != name@,
        decreases controls@.len() - i,
    {
        if text::same(controls[i].name.as_str(), name) {
            proof {
                lemma_index_named(controls@, name@, i as int);
            }
            return Some(i);
        }
        i = i + 1;
    }
    proof {
        lemma_index_named(controls@, name@, i as int);
    }
    None
}

/// The control of this id.
pub fn find_id(controls: &Vec<ControlDesc>, id: u32) -> (at: Option<usize>)
    ensures
        at matches Some(i) ==> i == index_id(controls@, id) && i < controls@.len() && controls@[i as int].id == id,
        at is None ==> index_id(controls@, id) == controls@.len(),
{
    let mut i: usize = 0;
    while i < controls.len()
        invariant
            i <= controls@.len(),
            forall|j: int| 0 <= j < i ==> (#[trigger] controls@[j]).id != id,
        decreases controls@.len() - i,
    {
        if controls[i].id == id {
            proof {
                lemma_index_id(controls@, id, i as int);
            }
            return Some(i);
        }
        i = i + 1;
    }
    proof {
        lemma_index_id(controls@, id, i as int);
    }
    None
}

/// The value of the first label that ends in `suffix`.
pub open spec fn value_ending(enums: Seq<(i32, String)>, suffix: Seq<char>) -> Option<i32> {
    let i = index_ending(enums, suffix);
    if i < enums.len() {
        Some(enums[i].0)
    } else {
        None
    }
}

pub fn find_ending(enums: &Vec<(i32, String)>, suffix: &str) -> (v: Option<i32>)
    ensures
        v == value_ending(enums@, suffix@),
{
    let mut i: usize = 0;
    while i < enums.len()
        invariant
            i <= enums@.len(),
            forall|j: int| 0 <= j < i ==> !text::ends((#[trigger] enums@[j]).1@, suffix@),
        decreases enums@.len() - i,
    {
        if text::ends_with(enums[i].1.as_str(), suffix) {
            proof {
                lemma_index_ending(enums@, suffix@, i as int);
            }
            return Some(enums[i].0);
        }
        i = i + 1;
    }
    proof {
        lemma_index_ending(enums@, suffix@, i as int);
    }
    None
}

/// Named values, as a frame reports them.
#[derive(Debug)]
pub struct Metadata {
    pub values: Vec<(String, Vec<Number>)>,
}

/// Where the entry of this name stands, or the length.
pub open spec fn entry(values: Seq<(String, Vec<Number>)>, name: Seq<char>) -> int
    decreases values.len(),
{
    if values.len() == 0 || values[0].0@ == name {
        0
    } else {
        1 + entry(values.drop_first(), name)
    }
}

proof fn lemma_entry(values: Seq<(String, Vec<Number>)>, name: Seq<char>, n: int)
    requires
        0 <= n <= values.len(),
        forall|i: int| 0 <= i < n ==> (#[trigger] values[i]).0@ != name,
        n == values.len() || values[n].0@ == name,
    ensures
        entry(values, name) == n,
    decreases values.len(),
{
    if n > 0 {
        let t = values.drop_first();
        assert forall|i: int| 0 <= i < n - 1 implies (#[trigger] t[i]).0@ != name by {
            assert(t[i] == values[i + 1]);
        }
        assert(values[0].0@ != name);
        lemma_entry(t, name, n - 1);
    }
}

proof fn lemma_entry_finds(values: Seq<(String, Vec<Number>)>, name: Seq<char>)
    ensures
        0 <= entry(values, name) <= values.len(),
        entry(values, name) < values.len() ==> values[entry(values, name)].0@ == name,
        forall|i: int| 0 <= i < entry(values, name) ==> (#[trigger] values[i]).0@ != name,
    decreases values.len(),
{
    if values.len() > 0 && values[0].0@ != name {
        let t = values.drop_first();
        lemma_entry_finds(t, name);
        assert forall|i: int| 0 <= i < entry(values, name) implies (#[trigger] values[i]).0@ != name by {
            if i > 0 {
                assert(t[i - 1].0@ != name);
            }
        }
    }
}

impl View for Metadata {
    type V = Map<Seq<char>, Seq<Number>>;

    open spec fn view(&self) -> Map<Seq<char>, Seq<Number>> {
        Map::new(
            |name: Seq<char>| entry(self.values@, name) < self.values@.len(),
            |name: Seq<char>| self.values@[entry(self.values@, name)].1@,
        )
    }
}

/// The first number under a name.
pub open spec fn reading(meta: Map<Seq<char>, Seq<Number>>, name: Seq<char>) -> Option<Number> {
    if meta.dom().contains(name) && meta[name].len() > 0 {
        Some(meta[name][0])
    } else {
        None
    }
}

impl Metadata {
    /// No values.
    pub fn new() -> (m: Metadata)
        ensures
            m@ == Map::<Seq<char>, Seq<Number>>::empty(),
    {
        let m = Metadata { values: Vec::new() };
        assert(m@ =~= Map::empty());
        m
    }

    fn find(&self, name: &str) -> (at: Option<usize>)
        ensures
            at matches Some(i) ==> i == entry(self.values@, name@) && i < self.values@.len(),
            at is None ==> entry(self.values@, name@) == self.values@.len(),
    {
        let mut i: usize = 0;
        while i < self.values.len()
            invariant
                i <= self.values@.len(),
                forall|j: int| 0 <= j < i ==> (#[trigger] self.values@[j]).0@ != name@,
            decreases self.values@.len() - i,
        {
            if text::same(self.values[i].0.as_str(), name) {
                proof {
                    lemma_entry(self.values@, name@, i as int);
                }
                return Some(i);
            }
            i = i + 1;
        }
        proof {
            lemma_entry(self.values@, name@, i as int);
        }
        None
    }

    /// All numbers under a name.
    pub fn all(&self, name: &str) -> (v: Option<&Vec<Number>>)
        ensures
            v matches Some(w) ==> self@.dom().contains(name@) && self@[name@] == w@,
            v is None ==> !self@.dom().contains(name@),
    {
        match self.find(name) {
            Some(i) => Some(&self.values[i].1),
            None => None,
        }
    }

    /// The first number under a name.
    pub fn get(&self, name: &str) -> (v: Option<Number>)
        ensures
            v == reading(self@, name@),
    {
        match self.find(name) {
            Some(i) => {
                let w: &Vec<Number> = &self.values[i].1;
                if w.len() > 0 {
                    Some(w[0])
                } else {
                    None
                }
            },
            None => None,
        }
    }

    /// The same values.
    pub fn copy(&self) -> (m: Metadata)
        ensures
            m@ == self@,
    {
        let mut values: Vec<(String, Vec<Number>)> = Vec::new();
        let mut i: usize = 0;
        while i < self.values.len()
            invariant
                i <= self.values@.len(),
                values@.len() == i,
                forall|j: int| 0 <= j < i ==> (#[trigger] values@[j]).0@ == self.values@[j].0@ && values@[j].1@
                    == self.values@[j].1@,
            decreases self.values@.len() - i,
        {
            values.push((self.values[i].0.clone(), copied(&self.values[i].1)));
            i = i + 1;
        }
        proof {
            assert forall|k: Seq<char>| entry(values@, k) == entry(self.values@, k) && 0 <= entry(values@, k) by {
                lemma_entry_finds(self.values@, k);
                lemma_entry(values@, k, entry(self.values@, k));
            }
        }
        let m = Metadata { values };
        assert(m@ =~= self@);
        m
    }

    /// Set the numbers under a name, in place of any before.
    pub fn insert(&mut self, name: String, value: Vec<Number>)
        ensures
            final(self)@ == old(self)@.insert(name@, value@),
    {
        let ghost before = self.values@;
        let ghost (key, numbers) = (name@, value@);
        let found: Option<usize> = self.find(name.as_str());
        match found {
            Some(i) => {
                self.values.set(i, (name, value));
            },
            None => {
                self.values.push((name, value));
            },
        }
        let ghost after = self.values@;
        proof {
            assert forall|k: Seq<char>|
                {
                    &&& k == key ==> entry(after, k) < after.len() && after[entry(after, k)].1@ == numbers
                    &&& k != key ==> (entry(after, k) < after.len() <==> entry(before, k) < before.len())
                    &&& k != key && entry(before, k) < before.len() ==> after[entry(after, k)].1@
                        == before[entry(before, k)].1@
                } by {
                lemma_entry_finds(before, k);
                lemma_entry_finds(before, key);
                let at = entry(before, key);
                if k == key {
                    lemma_entry(after, k, at);
                } else if entry(before, k) < before.len() {
                    lemma_entry(after, k, entry(before, k));
                } else {
                    lemma_entry(after, k, after.len() as int);
                }
            }
            assert(self@ =~= old(self)@.insert(key, numbers));
        }
    }
}

/// Metadata of a list of controls: each that has a name and numbers, the last
/// where a name repeats.
pub open spec fn gathered(list: Seq<(Option<String>, ControlValue)>) -> Map<Seq<char>, Seq<Number>>
    decreases list.len(),
{
    if list.len() == 0 {
        Map::empty()
    } else {
        let rest = gathered(list.drop_last());
        match list.last().0 {
            Some(name) if numbers_in(list.last().1).len() > 0 => rest.insert(name@, numbers_in(list.last().1)),
            _ => rest,
        }
    }
}

/// Read a frame's metadata, given each control's name where it has one.
pub fn read_metadata(list: &Vec<(Option<String>, ControlValue)>) -> (meta: Metadata)
    ensures
        meta@ == gathered(list@),
{
    let mut meta: Metadata = Metadata::new();
    let mut i: usize = 0;
    assert(list@.take(0).len() == 0);
    while i < list.len()
        invariant
            i <= list@.len(),
            meta@ == gathered(list@.take(i as int)),
        decreases list@.len() - i,
    {
        assert(list@.take(i + 1).drop_last() =~= list@.take(i as int));
        if let Some(name) = &list[i].0 {
            let n: Vec<Number> = numbers(&list[i].1);
            if n.len() > 0 {
                meta.insert(name.clone(), n);
            }
        }
        i = i + 1;
    }
    assert(list@.take(list@.len() as int) =~= list@);
    meta
}

/// Control settings, by id, as plain sequences.
pub open spec fn settings(s: Seq<(u32, Vec<Number>)>) -> Seq<(u32, Seq<Number>)> {
    s.map_values(|p: (u32, Vec<Number>)| (p.0, p.1@))
}

/// The named control set to `value`, where the camera has it.
pub open spec fn held(controls: Seq<ControlDesc>, name: Seq<char>, value: Seq<Number>) -> Seq<(u32, Seq<Number>)> {
    let i = index_named(controls, name);
    if i < controls.len() {
        seq![(controls[i].id, value)]
    } else {
        Seq::empty()
    }
}

/// The named control set to the value whose label ends so, where the camera
/// has both.
pub open spec fn labelled(controls: Seq<ControlDesc>, name: Seq<char>, ending: Seq<char>) -> Seq<(u32, Seq<Number>)> {
    let i = index_named(controls, name);
    if i < controls.len() {
        match value_ending(controls[i].enums@, ending) {
            Some(v) => seq![(controls[i].id, seq![Number::of(v as int)])],
            None => Seq::empty(),
        }
    } else {
        Seq::empty()
    }
}

/// The named control set to its manual mode, where the camera has both.
pub open spec fn manual(controls: Seq<ControlDesc>, name: Seq<char>) -> Seq<(u32, Seq<Number>)> {
    labelled(controls, name, "Manual"@)
}

/// What holds the exposure: automatic exposure off by whichever switch the
/// camera has, then exposure time and gain as they were.
pub open spec fn held_exposure(controls: Seq<ControlDesc>, meta: Map<Seq<char>, Seq<Number>>) -> Seq<(u32, Seq<Number>)> {
    match (reading(meta, "ExposureTime"@), reading(meta, "AnalogueGain"@)) {
        (Some(e), Some(g)) => held(controls, "AeEnable"@, seq![Number::of(0)]) + manual(controls, "ExposureTimeMode"@)
            + manual(controls, "AnalogueGainMode"@) + held(controls, "ExposureTime"@, seq![e]) + held(
            controls,
            "AnalogueGain"@,
            seq![g],
        ),
        _ => Seq::empty(),
    }
}

/// What holds the white balance, where both gains are known.
pub open spec fn held_colour(controls: Seq<ControlDesc>, meta: Map<Seq<char>, Seq<Number>>) -> Seq<(u32, Seq<Number>)> {
    if meta.dom().contains("ColourGains"@) && meta["ColourGains"@].len() == 2 {
        held(controls, "AwbEnable"@, seq![Number::of(0)]) + held(controls, "ColourGains"@, meta["ColourGains"@])
    } else {
        Seq::empty()
    }
}

/// What holds the focus.
pub open spec fn held_focus(controls: Seq<ControlDesc>, meta: Map<Seq<char>, Seq<Number>>) -> Seq<(u32, Seq<Number>)> {
    match reading(meta, "LensPosition"@) {
        Some(lens) => manual(controls, "AfMode"@) + held(controls, "LensPosition"@, seq![lens]),
        None => Seq::empty(),
    }
}

/// Manual controls that hold what the camera chose by itself.
pub open spec fn seeded(controls: Seq<ControlDesc>, meta: Map<Seq<char>, Seq<Number>>) -> Seq<(u32, Seq<Number>)> {
    held_exposure(controls, meta) + held_colour(controls, meta) + held_focus(controls, meta)
}

fn one(n: Number) -> (v: Vec<Number>)
    ensures
        v@ == seq![n],
{
    let mut v: Vec<Number> = Vec::new();
    v.push(n);
    assert(v@ =~= seq![n]);
    v
}

fn hold(out: &mut Vec<(u32, Vec<Number>)>, controls: &Vec<ControlDesc>, name: &str, value: Vec<Number>)
    ensures
        settings(final(out)@) == settings(old(out)@) + held(controls@, name@, value@),
{
    if let Some(i) = find_named(controls, name) {
        out.push((controls[i].id, value));
    }
    assert(settings(out@) =~= settings(old(out)@) + held(controls@, name@, value@));
}

/// Returns whether the camera has the control and the label.
fn hold_labelled(out: &mut Vec<(u32, Vec<Number>)>, controls: &Vec<ControlDesc>, name: &str, ending: &str) -> (has: bool)
    ensures
        settings(final(out)@) == settings(old(out)@) + labelled(controls@, name@, ending@),
        has == (labelled(controls@, name@, ending@).len() > 0),
{
    let mut has: bool = false;
    if let Some(i) = find_named(controls, name) {
        if let Some(v) = find_ending(&controls[i].enums, ending) {
            out.push((controls[i].id, one(Number::from_i64(v as i64))));
            has = true;
        }
    }
    assert(settings(out@) =~= settings(old(out)@) + labelled(controls@, name@, ending@));
    has
}

/// Whether the camera has the named control, and a manual mode of it.
pub fn has_manual(controls: &Vec<ControlDesc>, name: &str) -> (has: bool)
    ensures
        has == (manual(controls@, name@).len() > 0),
{
    match find_named(controls, name) {
        Some(i) => find_ending(&controls[i].enums, "Manual").is_some(),
        None => false,
    }
}

/// Manual controls that hold what the camera chose automatically in `meta`,
/// for the controls this camera has.
pub fn seed(controls: &Vec<ControlDesc>, meta: &Metadata) -> (out: Vec<(u32, Vec<Number>)>)
    ensures
        settings(out@) == seeded(controls@, meta@),
{
    let mut out: Vec<(u32, Vec<Number>)> = Vec::new();
    let zero: Number = Number::from_i64(0);
    if let (Some(e), Some(g)) = (meta.get("ExposureTime"), meta.get("AnalogueGain")) {
        hold(&mut out, controls, "AeEnable", one(zero));
        hold_labelled(&mut out, controls, "ExposureTimeMode", "Manual");
        hold_labelled(&mut out, controls, "AnalogueGainMode", "Manual");
        hold(&mut out, controls, "ExposureTime", one(e));
        hold(&mut out, controls, "AnalogueGain", one(g));
    }
    assert(settings(out@) =~= held_exposure(controls@, meta@));
    if let Some(gains) = meta.all("ColourGains") {
        if gains.len() == 2 {
            hold(&mut out, controls, "AwbEnable", one(zero));
            hold(&mut out, controls, "ColourGains", copied(gains));
        }
    }
    assert(settings(out@) =~= held_exposure(controls@, meta@) + held_colour(controls@, meta@));
    if let Some(lens) = meta.get("LensPosition") {
        hold_labelled(&mut out, controls, "AfMode", "Manual");
        hold(&mut out, controls, "LensPosition", one(lens));
    }
    assert(settings(out@) =~= seeded(controls@, meta@));
    out
}

/// Exposure and gain put to manual, or back to automatic: by the modes of
/// this label where the camera has one, else by its switch.
pub open spec fn exposure_by(controls: Seq<ControlDesc>, ending: Seq<char>, automatic: Number) -> Seq<(u32, Seq<Number>)> {
    let modes = labelled(controls, "ExposureTimeMode"@, ending) + labelled(controls, "AnalogueGainMode"@, ending);
    if modes.len() > 0 {
        modes
    } else {
        held(controls, "AeEnable"@, seq![automatic])
    }
}

/// What a lock sets: exposure time and gain as manual values, and the lens
/// where the camera's focus can be manual.
pub open spec fn locks(controls: Seq<ControlDesc>, exposure: Option<(Number, Number)>, lens: Option<Number>) -> Seq<
    (u32, Seq<Number>),
> {
    (match exposure {
        Some((e, g)) => exposure_by(controls, "Manual"@, Number::of(0)) + held(controls, "ExposureTime"@, seq![e]) + held(
            controls,
            "AnalogueGain"@,
            seq![g],
        ),
        None => Seq::empty(),
    }) + (match lens {
        Some(d) if manual(controls, "AfMode"@).len() > 0 => manual(controls, "AfMode"@) + held(
            controls,
            "LensPosition"@,
            seq![d],
        ),
        _ => Seq::empty(),
    })
}

/// What letting go of a lock sets: exposure, gain and focus are automatic
/// again.
pub open spec fn unlocks(controls: Seq<ControlDesc>) -> Seq<(u32, Seq<Number>)> {
    exposure_by(controls, "Auto"@, Number::of(1)) + labelled(controls, "AfMode"@, "Continuous"@)
}

fn set_exposure_by(out: &mut Vec<(u32, Vec<Number>)>, controls: &Vec<ControlDesc>, ending: &str, automatic: i64)
    ensures
        settings(final(out)@) == settings(old(out)@) + exposure_by(controls@, ending@, Number::of(automatic as int)),
{
    let ghost before = settings(out@);
    let time: bool = hold_labelled(out, controls, "ExposureTimeMode", ending);
    let gain: bool = hold_labelled(out, controls, "AnalogueGainMode", ending);
    if !time && !gain {
        assert(settings(out@) =~= before);
        hold(out, controls, "AeEnable", one(Number::from_i64(automatic)));
    } else {
        assert(settings(out@) =~= before + exposure_by(controls@, ending@, Number::of(automatic as int)));
    }
}

/// The settings of a lock at this exposure time and gain, and this lens
/// position.
pub fn lock_settings(controls: &Vec<ControlDesc>, exposure: Option<(Number, Number)>, lens: Option<Number>) -> (v: Vec<
    (u32, Vec<Number>),
>)
    ensures
        settings(v@) == locks(controls@, exposure, lens),
{
    let mut v: Vec<(u32, Vec<Number>)> = Vec::new();
    if let Some((e, g)) = exposure {
        set_exposure_by(&mut v, controls, "Manual", 0);
        hold(&mut v, controls, "ExposureTime", one(e));
        hold(&mut v, controls, "AnalogueGain", one(g));
    }
    if let Some(d) = lens {
        if hold_labelled(&mut v, controls, "AfMode", "Manual") {
            hold(&mut v, controls, "LensPosition", one(d));
        }
    }
    assert(settings(v@) =~= locks(controls@, exposure, lens));
    v
}

/// The settings of a tap, which is one scan: continuous focus would wander
/// off again. `has_mode` tells whether the panel has a focus mode to set.
/// None where it has no mode for one scan, and the tap does nothing.
pub fn tap_settings(controls: &Vec<ControlDesc>, has_mode: bool) -> (v: Option<Vec<(u32, Vec<Number>)>>)
    ensures
        match v {
            Some(s) => settings(s@) == if has_mode {
                labelled(controls@, "AfMode"@, "Auto"@)
            } else {
                Seq::empty()
            },
            None => true,
        },
        v is None <==> has_mode && labelled(controls@, "AfMode"@, "Auto"@).len() == 0,
{
    let mut v: Vec<(u32, Vec<Number>)> = Vec::new();
    assert(settings(v@) =~= Seq::empty());
    if has_mode {
        if !hold_labelled(&mut v, controls, "AfMode", "Auto") {
            return None;
        }
        assert(settings(v@) =~= labelled(controls@, "AfMode"@, "Auto"@));
    }
    Some(v)
}

/// The settings that let go of a lock.
pub fn unlock_settings(controls: &Vec<ControlDesc>) -> (v: Vec<(u32, Vec<Number>)>)
    ensures
        settings(v@) == unlocks(controls@),
{
    let mut v: Vec<(u32, Vec<Number>)> = Vec::new();
    set_exposure_by(&mut v, controls, "Auto", 1);
    hold_labelled(&mut v, controls, "AfMode", "Continuous");
    assert(settings(v@) =~= unlocks(controls@));
    v
}

/// A lock, and letting go of it, set nothing but controls the camera has.
pub proof fn law_lock_only_sets_what_is_there(
    controls: Seq<ControlDesc>,
    exposure: Option<(Number, Number)>,
    lens: Option<Number>,
    i: int,
)
    ensures
        0 <= i < locks(controls, exposure, lens).len() ==> has_id(controls, locks(controls, exposure, lens)[i].0),
        0 <= i < unlocks(controls).len() ==> has_id(controls, unlocks(controls)[i].0),
{
    lemma_all_are_there(controls);
    assert(of_controls(controls, locks(controls, exposure, lens)));
    assert(of_controls(controls, unlocks(controls)));
}

/// Every held setting is of a control the camera has.
pub proof fn law_seed_only_sets_what_is_there(controls: Seq<ControlDesc>, meta: Map<Seq<char>, Seq<Number>>, i: int)
    requires
        0 <= i < seeded(controls, meta).len(),
    ensures
        exists|j: int| 0 <= j < controls.len() && (#[trigger] controls[j]).id == seeded(controls, meta)[i].0,
{
    lemma_held_is_there(controls, meta);
    let all = seeded(controls, meta);
    assert(of_controls(controls, all)) by {
        assert(of_controls(controls, held_exposure(controls, meta) + held_colour(controls, meta)));
    }
    assert(has_id(controls, all[i].0));
}

pub open spec fn has_id(controls: Seq<ControlDesc>, id: u32) -> bool {
    exists|j: int| 0 <= j < controls.len() && (#[trigger] controls[j]).id == id
}

spec fn of_controls(controls: Seq<ControlDesc>, s: Seq<(u32, Seq<Number>)>) -> bool {
    forall|i: int| 0 <= i < s.len() ==> has_id(controls, (#[trigger] s[i]).0)
}

proof fn lemma_held_is_there(controls: Seq<ControlDesc>, meta: Map<Seq<char>, Seq<Number>>)
    ensures
        of_controls(controls, held_exposure(controls, meta)),
        of_controls(controls, held_colour(controls, meta)),
        of_controls(controls, held_focus(controls, meta)),
{
    lemma_all_are_there(controls);
}

proof fn lemma_all_are_there(controls: Seq<ControlDesc>)
    ensures
        forall|name: Seq<char>, value: Seq<Number>| of_controls(controls, #[trigger] held(controls, name, value)),
        forall|name: Seq<char>, ending: Seq<char>| of_controls(controls, #[trigger] labelled(controls, name, ending)),
{
    assert forall|name: Seq<char>, value: Seq<Number>| of_controls(controls, #[trigger] held(controls, name, value)) by {
        lemma_named_is_there(controls, name);
    }
    assert forall|name: Seq<char>, ending: Seq<char>| of_controls(controls, #[trigger] labelled(controls, name, ending)) by {
        lemma_named_is_there(controls, name);
    }
}

proof fn lemma_named_is_there(controls: Seq<ControlDesc>, name: Seq<char>)
    ensures
        0 <= index_named(controls, name) <= controls.len(),
        index_named(controls, name) < controls.len() ==> has_id(controls, controls[index_named(controls, name)].id),
    decreases controls.len(),
{
    if controls.len() > 0 && controls[0].name@ != name {
        lemma_named_is_there(controls.drop_first(), name);
    }
}

/// The bits of the number nearest to a tenth.
pub const TENTH: u64 = 0x3fb9_9999_9999_999a;

/// The bits of the number nearest to a thousandth.
pub const THOUSANDTH: u64 = 0x3f50_624d_d2f1_a9fc;

/// A reading is within a tenth, and a thousandth, of what was held, in
/// binary64: the difference, the tenth and the sum are rounded.
pub open spec fn close_to(want: Number, got: Number) -> bool {
    if want.not_a_number() || got.not_a_number() {
        false
    } else if want.magnitude() == INFINITE {
        want != got
    } else if got.magnitude() == INFINITE {
        false
    } else {
        let (part, slack) = ((Number { bits: TENTH }).value(), (Number { bits: THOUSANDTH }).value());
        nearest(absolute(got.value() - want.value()), 1) <= nearest(nearest(absolute(want.value()) * part, unity()) + slack, 1)
    }
}

/// The reading shows what was held. With nothing held, any frame does.
pub open spec fn shows(want: Option<Number>, got: Option<Number>, frames: u32) -> bool {
    match (want, got) {
        (Some(w), Some(g)) => close_to(w, g),
        (Some(_), None) => false,
        _ => frames >= 1,
    }
}

fn is_close(want: Number, got: Number) -> (close: bool)
    ensures
        close == close_to(want, got),
{
    let infinite: Number = Number { bits: INFINITE };
    let below: Number = Number { bits: SIGN + INFINITE };
    if !want.is_same(want) || !got.is_same(got) {
        return false;
    }
    if want.is_same(infinite) || want.is_same(below) {
        return want != got;
    }
    if got.is_same(infinite) || got.is_same(below) {
        return false;
    }
    let (s, x) = want.parts();
    let (t, y) = got.parts();
    let w: Scaled = Scaled { significand: s, exponent: x };
    let g: Scaled = Scaled { significand: t, exponent: y };
    let slack: Scaled = Scaled { significand: 0x10_624d_d2f1_a9fc, exponent: 1012 };
    assert(slack.value() == (Number { bits: THOUSANDTH }).value());
    proof {
        lemma_value_positive(want);
        lemma_value_positive(got);
    }
    let apart: Scaled = combine(g, w, (want.bits >= SIGN) == (got.bits >= SIGN));
    let part: Scaled = tenth(w);
    is_at_most(apart, combine(part, slack, false))
}

proof fn lemma_value_positive(n: Number)
    ensures
        n.units() >= 0,
{
    assert(n.significand() * pow2((n.scale() + 1074) as nat) >= 0) by (nonlinear_arith)
        requires
            n.significand() >= 0,
    ;
}

/// A tenth of a value in units of the smallest number, rounded.
fn tenth(a: Scaled) -> (r: Scaled)
    requires
        a.normal(),
        a.exponent <= 2046,
    ensures
        r.value() == nearest(a.value() * (Number { bits: TENTH }).value(), unity()),
        r.normal(),
{
    let part: u64 = 0x19_9999_9999_999a;
    let ghost (s, x) = (a.significand as int, a.exponent as nat);
    proof {
        lemma2_to64();
        lemma2_to64_rest();
        assert((Number { bits: TENTH }).value() == part * pow2(1018));
        assert(0 <= s * part <= 0x20_0000_0000_0000 * 0x19_9999_9999_999a) by (nonlinear_arith)
            requires
                0 <= s <= 0x20_0000_0000_0000,
                part == 0x19_9999_9999_999a,
        ;
    }
    let n: u128 = a.significand as u128 * part as u128;
    if a.exponent >= 56 {
        let r: Scaled = round_fraction(n, 1);
        let ghost z = (x - 56) as nat;
        proof {
            lemma_pow2_pos(1074);
            lemma_pow2_adds(x, 1018);
            lemma_pow2_adds(z, 1074);
            assert(s * pow2(x) * (part * pow2(1018)) == (n * pow2(z)) * pow2(1074)) by (nonlinear_arith)
                requires
                    n == s * part,
                    pow2(x) * pow2(1018) == pow2(z) * pow2(1074),
            ;
            assert(n * pow2(z) >= 0) by (nonlinear_arith);
            lemma_nearest_reduced(n * pow2(z), 1, pow2(1074) as int);
            lemma_nearest_scaled(n as int, z);
            lemma_pow2_adds(r.exponent as nat, z);
            assert(r.significand * pow2(r.exponent as nat) * pow2(z) == r.significand * (pow2(r.exponent as nat) * pow2(z)))
                by (nonlinear_arith);
            assert(n >= 0x10_0000_0000_0000 * 0x19_9999_9999_999a) by (nonlinear_arith)
                requires
                    n == s * part,
                    s >= 0x10_0000_0000_0000,
                    part == 0x19_9999_9999_999a,
            ;
        }
        Scaled { significand: r.significand, exponent: r.exponent + (a.exponent - 56) }
    } else {
        let d: u128 = power_of_two(56 - a.exponent);
        proof {
            let (w, z) = ((56 - x) as nat, (x + 1018) as nat);
            lemma_pow2_pos(z);
            lemma_pow2_pos(w);
            if w < 56 {
                lemma_pow2_strictly_increases(w, 56);
            }
            lemma_pow2_adds(x, 1018);
            lemma_pow2_adds(w, z);
            assert(s * pow2(x) * (part * pow2(1018)) == n * pow2(z)) by (nonlinear_arith)
                requires
                    n == s * part,
                    pow2(x) * pow2(1018) == pow2(z),
            ;
            lemma_nearest_reduced(n as int, d as int, pow2(z) as int);
        }
        round_fraction(n, d)
    }
}

fn is_shown(want: Option<Number>, got: Option<Number>, frames: u32) -> (shown: bool)
    ensures
        shown == shows(want, got, frames),
{
    match (want, got) {
        (Some(w), Some(g)) => is_close(w, g),
        (Some(_), None) => false,
        _ => frames >= 1,
    }
}

/// How many frames a held exposure gets to show up in; a camera that ignores
/// manual controls still gets its photo.
pub const PATIENCE: u32 = 8;

/// The frame shows the held exposure and gain, or patience has run out.
pub open spec fn is_settled(
    expect: (Option<Number>, Option<Number>),
    exposure: Option<Number>,
    gain: Option<Number>,
    frames: u32,
) -> bool {
    frames >= PATIENCE || (shows(expect.0, exposure, frames) && shows(expect.1, gain, frames))
}

/// Whether a still session's frame shows the held exposure and gain (within
/// 10%). With nothing held, the first frame will do.
pub fn settled(
    expect: (Option<Number>, Option<Number>),
    exposure: Option<Number>,
    gain: Option<Number>,
    frames: u32,
) -> (done: bool)
    ensures
        done == is_settled(expect, exposure, gain, frames),
{
    frames >= PATIENCE || (is_shown(expect.0, exposure, frames) && is_shown(expect.1, gain, frames))
}

proof fn lemma_allowance_positive(want: Number)
    ensures
        nearest(0, 1) == 0,
        nearest(
            nearest(absolute(want.value()) * (Number { bits: TENTH }).value(), unity()) + (Number { bits: THOUSANDTH }).value(),
            1,
        ) >= 0,
{
    let (part, slack) = (Number { bits: TENTH }, Number { bits: THOUSANDTH });
    lemma_value_positive(part);
    lemma_value_positive(slack);
    lemma_pow2_pos(1074);
    assert(absolute(want.value()) * part.value() >= 0) by (nonlinear_arith)
        requires
            absolute(want.value()) >= 0,
            part.value() >= 0,
    ;
    lemma_nearest_positive(absolute(want.value()) * part.value(), unity());
    lemma_nearest_positive(nearest(absolute(want.value()) * part.value(), unity()) + slack.value(), 1);
}

/// A frame that reports the held exposure and gain settles at once.
pub proof fn law_held_exposure_settles(exposure: Number, gain: Number, frames: u32)
    requires
        exposure.magnitude() < INFINITE,
        gain.magnitude() < INFINITE,
    ensures
        is_settled((Some(exposure), Some(gain)), Some(exposure), Some(gain), frames),
{
    lemma_allowance_positive(exposure);
    lemma_allowance_positive(gain);
}

/// What the camera stack says of one control.
#[derive(Debug)]
pub struct ControlInfo {
    pub id: u32,
    /// The stack knows the id at all.
    pub known: bool,
    pub name: Option<String>,
    pub array: bool,
    pub size: usize,
    pub min: ControlValue,
    pub max: ControlValue,
    pub def: ControlValue,
    /// The values allowed; any in range where there are none.
    pub values: Vec<ControlValue>,
    pub enumerators: Vec<(i32, String)>,
}

pub open spec fn kind_of(v: ControlValue) -> Kind {
    match v {
        ControlValue::Bool(_) => Kind::Bool,
        ControlValue::Byte(_) | ControlValue::Uint16(_) | ControlValue::Uint32(_) | ControlValue::Int32(_)
        | ControlValue::Int64(_) => Kind::Int,
        ControlValue::Float(_) => Kind::Float,
        _ => Kind::Other,
    }
}

pub open spec fn first_or_zero(s: Seq<Number>) -> Number {
    if s.len() > 0 {
        s[0]
    } else {
        Number::of(0)
    }
}

/// `v` is among the values allowed.
pub open spec fn allows(values: Seq<ControlValue>, v: i32) -> bool {
    values.len() == 0 || exists|i: int|
        0 <= i < values.len() && numbers_in(#[trigger] values[i]).len() > 0 && numbers_in(values[i])[0].alike(
            Number::of(v as int),
        )
}

/// The enumerators whose value the control allows.
pub open spec fn allowed(enumerators: Seq<(i32, String)>, values: Seq<ControlValue>) -> Seq<(i32, Seq<char>)>
    decreases enumerators.len(),
{
    if enumerators.len() == 0 {
        Seq::empty()
    } else {
        let rest = allowed(enumerators.drop_last(), values);
        if allows(values, enumerators.last().0) {
            rest.push((enumerators.last().0, enumerators.last().1@))
        } else {
            rest
        }
    }
}

/// One control, as the interface sees it.
pub open spec fn described(info: ControlInfo) -> Control {
    Control {
        id: info.id,
        name: match info.name {
            Some(n) => n@,
            None => "Control "@ + text::decimal(info.id as nat),
        },
        kind: kind_of(info.min),
        len: if info.array {
            info.size
        } else {
            1
        },
        min: first_or_zero(numbers_in(info.min)),
        max: first_or_zero(numbers_in(info.max)),
        def: numbers_in(info.def),
        enums: allowed(info.enumerators@, info.values@),
    }
}

/// `a` comes before `b`, or is `b`, in the order of their characters.
pub open spec fn in_order(a: Seq<char>, b: Seq<char>) -> bool
    decreases a.len(),
{
    if a.len() == 0 {
        true
    } else if b.len() == 0 {
        false
    } else if a[0] != b[0] {
        a[0] < b[0]
    } else {
        in_order(a.drop_first(), b.drop_first())
    }
}

fn is_in_order(a: &str, b: &str) -> (r: bool)
    ensures
        r == in_order(a@, b@),
{
    let (v, w) = (text::chars(a), text::chars(b));
    let mut i: usize = 0;
    assert(v@.skip(0) =~= v@);
    assert(w@.skip(0) =~= w@);
    while i < v.len() && i < w.len()
        invariant
            i <= v@.len(),
            i <= w@.len(),
            v@ == a@,
            w@ == b@,
            in_order(a@, b@) == in_order(v@.skip(i as int), w@.skip(i as int)),
        decreases v@.len() - i,
    {
        if v[i] != w[i] {
            return v[i] < w[i];
        }
        assert(v@.skip(i as int).drop_first() =~= v@.skip(i + 1));
        assert(w@.skip(i as int).drop_first() =~= w@.skip(i + 1));
        i = i + 1;
    }
    i == v.len()
}

/// Where a control of this name goes among ordered ones: before the first
/// whose name comes after it.
pub open spec fn name_place(s: Seq<Control>, name: Seq<char>) -> int
    decreases s.len(),
{
    if s.len() == 0 || !in_order(s[0].name, name) {
        0
    } else {
        1 + name_place(s.drop_first(), name)
    }
}

proof fn lemma_name_place(s: Seq<Control>, name: Seq<char>, n: int)
    requires
        0 <= n <= s.len(),
        forall|i: int| 0 <= i < n ==> in_order((#[trigger] s[i]).name, name),
        n < s.len() ==> !in_order(s[n].name, name),
    ensures
        name_place(s, name) == n,
    decreases s.len(),
{
    if n > 0 {
        let t = s.drop_first();
        assert forall|i: int| 0 <= i < n - 1 implies in_order((#[trigger] t[i]).name, name) by {
            assert(t[i] == s[i + 1]);
        }
        assert(in_order(s[0].name, name));
        lemma_name_place(t, name, n - 1);
    }
}

/// Controls in the order of their names; those of one name stay in order.
pub open spec fn by_name(s: Seq<Control>) -> Seq<Control>
    decreases s.len(),
{
    if s.len() == 0 {
        s
    } else {
        let rest = by_name(s.drop_last());
        rest.insert(name_place(rest, s.last().name), s.last())
    }
}

pub open spec fn names_rise(s: Seq<Control>) -> bool {
    forall|i: int, j: int| 0 <= i <= j < s.len() ==> in_order((#[trigger] s[i]).name, (#[trigger] s[j]).name)
}

proof fn lemma_in_order(a: Seq<char>, b: Seq<char>, c: Seq<char>)
    ensures
        in_order(a, a),
        in_order(a, b) || in_order(b, a),
        in_order(a, b) && in_order(b, c) ==> in_order(a, c),
    decreases a.len() + b.len() + c.len(),
{
    if a.len() > 0 {
        lemma_in_order(a.drop_first(), if b.len() > 0 { b.drop_first() } else { b }, if c.len() > 0 { c.drop_first() } else { c });
    }
}

proof fn lemma_name_place_splits(s: Seq<Control>, name: Seq<char>)
    ensures
        0 <= name_place(s, name) <= s.len(),
        forall|i: int| 0 <= i < name_place(s, name) ==> in_order((#[trigger] s[i]).name, name),
        name_place(s, name) < s.len() ==> !in_order(s[name_place(s, name)].name, name),
    decreases s.len(),
{
    if s.len() > 0 && in_order(s[0].name, name) {
        let t = s.drop_first();
        lemma_name_place_splits(t, name);
        assert forall|i: int| 0 <= i < name_place(s, name) implies in_order((#[trigger] s[i]).name, name) by {
            if i > 0 {
                assert(in_order(t[i - 1].name, name));
            }
        }
    }
}

/// Ordering by name loses and invents nothing, and puts names in order.
pub proof fn law_by_name_orders(s: Seq<Control>)
    ensures
        by_name(s).len() == s.len(),
        by_name(s).to_multiset() == s.to_multiset(),
        names_rise(by_name(s)),
    decreases s.len(),
{
    broadcast use vstd::seq_lib::group_to_multiset_ensures;

    if s.len() > 0 {
        let t = s.drop_last();
        let c = s.last();
        law_by_name_orders(t);
        let r = by_name(t);
        let n = name_place(r, c.name);
        lemma_name_place_splits(r, c.name);
        assert(s =~= t.push(c));
        assert(r.insert(n, c).to_multiset() =~= r.to_multiset().insert(c)) by {
            vstd::seq_lib::to_multiset_insert(r, n, c);
        }
        let w = r.insert(n, c);
        assert forall|i: int, j: int| 0 <= i <= j < w.len() implies in_order((#[trigger] w[i]).name, (#[trigger] w[j]).name) by {
            if i == n && j == n {
                lemma_in_order(c.name, c.name, c.name);
            } else if j == n {
                assert(in_order(r[i].name, c.name));
            } else if i == n {
                assert(in_order(r[n].name, r[j - 1].name));
                lemma_in_order(c.name, r[n].name, r[j - 1].name);
            } else {
                let (a, b) = (if i < n { i } else { i - 1 }, if j < n { j } else { j - 1 });
                assert(in_order(r[a].name, r[b].name));
            }
        }
    }
}

/// The controls the stack knows, as the interface sees them.
pub open spec fn known_controls(list: Seq<ControlInfo>) -> Seq<Control>
    decreases list.len(),
{
    if list.len() == 0 {
        Seq::empty()
    } else if list.last().known {
        known_controls(list.drop_last()).push(described(list.last()))
    } else {
        known_controls(list.drop_last())
    }
}

pub open spec fn views(s: Seq<ControlDesc>) -> Seq<Control> {
    s.map_values(|c: ControlDesc| c@)
}

fn is_allowed(values: &Vec<ControlValue>, v: i32) -> (yes: bool)
    ensures
        yes == allows(values@, v),
{
    if values.len() == 0 {
        return true;
    }
    let wanted: Number = Number::from_i64(v as i64);
    let mut i: usize = 0;
    while i < values.len()
        invariant
            i <= values@.len(),
            wanted == Number::of(v as int),
            forall|j: int| 0 <= j < i ==> !(numbers_in(#[trigger] values@[j]).len() > 0 && numbers_in(values@[j])[0].alike(wanted)),
        decreases values@.len() - i,
    {
        let n: Vec<Number> = numbers(&values[i]);
        if n.len() > 0 && n[0].is_same(wanted) {
            return true;
        }
        i = i + 1;
    }
    false
}

fn allowed_enumerators(enumerators: &Vec<(i32, String)>, values: &Vec<ControlValue>) -> (out: Vec<(i32, String)>)
    ensures
        labels(out@) == allowed(enumerators@, values@),
{
    let mut out: Vec<(i32, String)> = Vec::new();
    let mut i: usize = 0;
    assert(enumerators@.take(0).len() == 0);
    assert(labels(out@) =~= Seq::empty());
    while i < enumerators.len()
        invariant
            i <= enumerators@.len(),
            labels(out@) == allowed(enumerators@.take(i as int), values@),
        decreases enumerators@.len() - i,
    {
        assert(enumerators@.take(i + 1).drop_last() =~= enumerators@.take(i as int));
        let ghost before = labels(out@);
        if is_allowed(values, enumerators[i].0) {
            out.push((enumerators[i].0, enumerators[i].1.clone()));
            assert(labels(out@) =~= before.push((enumerators@[i as int].0, enumerators@[i as int].1@)));
        }
        i = i + 1;
    }
    assert(enumerators@.take(enumerators@.len() as int) =~= enumerators@);
    out
}

fn describe_control(info: &ControlInfo) -> (c: ControlDesc)
    ensures
        c@ == described(*info),
{
    let name: String = match &info.name {
        Some(n) => n.clone(),
        None => {
            let mut n: String = String::from_str("Control ");
            text::push_decimal(&mut n, info.id as u64);
            n
        },
    };
    let kind: Kind = match &info.min {
        ControlValue::Bool(_) => Kind::Bool,
        ControlValue::Byte(_) | ControlValue::Uint16(_) | ControlValue::Uint32(_) | ControlValue::Int32(_)
        | ControlValue::Int64(_) => Kind::Int,
        ControlValue::Float(_) => Kind::Float,
        _ => Kind::Other,
    };
    let min: Vec<Number> = numbers(&info.min);
    let max: Vec<Number> = numbers(&info.max);
    ControlDesc {
        id: info.id,
        name,
        kind,
        len: if info.array { info.size } else { 1 },
        min: if min.len() > 0 { min[0] } else { Number::from_i64(0) },
        max: if max.len() > 0 { max[0] } else { Number::from_i64(0) },
        def: numbers(&info.def),
        enums: allowed_enumerators(&info.enumerators, &info.values),
    }
}

/// Put a control in its place by name.
pub fn insert_by_name(controls: &mut Vec<ControlDesc>, c: ControlDesc)
    ensures
        views(final(controls)@) == views(old(controls)@).insert(name_place(views(old(controls)@), c@.name), c@),
{
    let ghost before = views(controls@);
    let mut n: usize = 0;
    while n < controls.len() && is_in_order(controls[n].name.as_str(), c.name.as_str())
        invariant
            n <= controls@.len(),
            before == views(controls@),
            forall|j: int| 0 <= j < n ==> in_order((#[trigger] before[j]).name, c@.name),
        decreases controls@.len() - n,
    {
        n = n + 1;
    }
    proof {
        lemma_name_place(before, c@.name, n as int);
    }
    controls.insert(n, c);
    assert(views(controls@) =~= before.insert(n as int, c@));
}

/// Describe every control the camera stack knows, ordered by name.
pub fn describe_controls(list: &Vec<ControlInfo>) -> (controls: Vec<ControlDesc>)
    ensures
        views(controls@) == by_name(known_controls(list@)),
        names_rise(views(controls@)),
{
    let mut out: Vec<ControlDesc> = Vec::new();
    let mut i: usize = 0;
    assert(list@.take(0).len() == 0);
    assert(views(out@) =~= Seq::empty());
    while i < list.len()
        invariant
            i <= list@.len(),
            views(out@) == by_name(known_controls(list@.take(i as int))),
        decreases list@.len() - i,
    {
        assert(list@.take(i + 1).drop_last() =~= list@.take(i as int));
        if list[i].known {
            let ghost (seen, c) = (known_controls(list@.take(i as int)), described(list@[i as int]));
            assert(seen.push(c).drop_last() =~= seen);
            insert_by_name(&mut out, describe_control(&list[i]));
        }
        i = i + 1;
    }
    proof {
        assert(list@.take(list@.len() as int) =~= list@);
        law_by_name_orders(known_controls(list@));
    }
    out
}

/// The same labels.
fn copied_labels(v: &Vec<(i32, String)>) -> (w: Vec<(i32, String)>)
    ensures
        labels(w@) == labels(v@),
{
    let mut w: Vec<(i32, String)> = Vec::new();
    let mut i: usize = 0;
    while i < v.len()
        invariant
            i <= v@.len(),
            labels(w@) == labels(v@).take(i as int),
        decreases v@.len() - i,
    {
        let ghost before = labels(w@);
        w.push((v[i].0, v[i].1.clone()));
        assert(labels(w@) =~= before.push(labels(v@)[i as int]));
        assert(labels(v@).take(i + 1) =~= before.push(labels(v@)[i as int]));
        i = i + 1;
    }
    assert(labels(w@) =~= labels(v@));
    w
}

impl ControlDesc {
    /// The same control.
    pub fn copy(&self) -> (c: ControlDesc)
        ensures
            c@ == self@,
    {
        ControlDesc {
            id: self.id,
            name: self.name.clone(),
            kind: self.kind,
            len: self.len,
            min: self.min,
            max: self.max,
            def: copied(&self.def),
            enums: copied_labels(&self.enums),
        }
    }
}

/// The same controls.
pub fn copied_controls(v: &Vec<ControlDesc>) -> (w: Vec<ControlDesc>)
    ensures
        views(w@) == views(v@),
{
    let mut w: Vec<ControlDesc> = Vec::new();
    let mut i: usize = 0;
    while i < v.len()
        invariant
            i <= v@.len(),
            views(w@) == views(v@).take(i as int),
        decreases v@.len() - i,
    {
        let ghost before = views(w@);
        w.push(v[i].copy());
        assert(views(w@) =~= before.push(views(v@)[i as int]));
        assert(views(v@).take(i + 1) =~= before.push(views(v@)[i as int]));
        i = i + 1;
    }
    assert(views(w@) =~= views(v@));
    w
}

/// The same controls, ordered by name.
pub fn sorted_controls(v: &Vec<ControlDesc>) -> (w: Vec<ControlDesc>)
    ensures
        views(w@) == by_name(views(v@)),
        names_rise(views(w@)),
{
    let mut w: Vec<ControlDesc> = Vec::new();
    let mut i: usize = 0;
    assert(views(v@).take(0).len() == 0);
    assert(views(w@) =~= Seq::empty());
    while i < v.len()
        invariant
            i <= v@.len(),
            views(w@) == by_name(views(v@).take(i as int)),
        decreases v@.len() - i,
    {
        assert(views(v@).take(i + 1).drop_last() =~= views(v@).take(i as int));
        insert_by_name(&mut w, v[i].copy());
        i = i + 1;
    }
    proof {
        assert(views(v@).take(i as int) =~= views(v@));
        law_by_name_orders(views(v@));
    }
    w
}

/// Append the same settings.
pub fn append_settings(to: &mut Vec<(u32, Vec<Number>)>, v: &Vec<(u32, Vec<Number>)>)
    ensures
        settings(final(to)@) == settings(old(to)@) + settings(v@),
{
    let ghost start = settings(to@);
    let mut i: usize = 0;
    assert(start + settings(v@).take(0) =~= start);
    while i < v.len()
        invariant
            i <= v@.len(),
            settings(to@) == start + settings(v@).take(i as int),
        decreases v@.len() - i,
    {
        let ghost before = settings(to@);
        to.push((v[i].0, copied(&v[i].1)));
        assert(settings(to@) =~= before.push(settings(v@)[i as int]));
        assert(start + settings(v@).take(i + 1) =~= before.push(settings(v@)[i as int]));
        i = i + 1;
    }
    assert(settings(v@).take(i as int) =~= settings(v@));
}

/// Settings without those of one control.
pub open spec fn without(s: Seq<(u32, Seq<Number>)>, id: u32) -> Seq<(u32, Seq<Number>)>
    decreases s.len(),
{
    if s.len() == 0 {
        s
    } else if s.last().0 == id {
        without(s.drop_last(), id)
    } else {
        without(s.drop_last(), id).push(s.last())
    }
}

/// What was set, in order, once `id` is set to `value`: an earlier setting of
/// the same control no longer counts.
pub open spec fn chosen(s: Seq<(u32, Seq<Number>)>, id: u32, value: Seq<Number>) -> Seq<(u32, Seq<Number>)> {
    without(s, id).push((id, value))
}

/// No control is set twice.
pub open spec fn one_each(s: Seq<(u32, Seq<Number>)>) -> bool {
    forall|i: int, j: int| 0 <= i < j < s.len() ==> (#[trigger] s[i]).0 != (#[trigger] s[j]).0
}

proof fn lemma_without(s: Seq<(u32, Seq<Number>)>, id: u32)
    ensures
        forall|i: int| 0 <= i < without(s, id).len() ==> (#[trigger] without(s, id)[i]).0 != id && s.contains(
            without(s, id)[i],
        ),
        one_each(s) ==> one_each(without(s, id)),
    decreases s.len(),
{
    if s.len() > 0 {
        let t = s.drop_last();
        lemma_without(t, id);
        let w = without(s, id);
        assert forall|i: int| 0 <= i < w.len() implies (#[trigger] w[i]).0 != id && s.contains(w[i]) by {
            if i < without(t, id).len() {
                assert(w[i] == without(t, id)[i]);
                assert(t.contains(w[i]));
                let j = choose|j: int| 0 <= j < t.len() && t[j] == w[i];
                assert(s[j] == w[i]);
            } else {
                assert(s[s.len() - 1] == w[i]);
            }
        }
        if one_each(s) {
            assert(one_each(t)) by {
                assert forall|i: int, j: int| 0 <= i < j < t.len() implies (#[trigger] t[i]).0 != (#[trigger] t[j]).0 by {
                    assert(s[i].0 != s[j].0);
                }
            }
            assert forall|i: int, j: int| 0 <= i < j < w.len() implies (#[trigger] w[i]).0 != (#[trigger] w[j]).0 by {
                let u = without(t, id);
                assert(w[i] == u[i]);
                if j < u.len() {
                    assert(u[i].0 != u[j].0);
                } else {
                    assert(t.contains(u[i]));
                    let k = choose|k: int| 0 <= k < t.len() && t[k] == u[i];
                    assert(s[k].0 != s[s.len() - 1].0);
                }
            }
        }
    }
}

/// Choosing a value leaves one setting per control, the newest last, and the
/// settings of all other controls as they were.
pub proof fn law_newest_choice_counts(s: Seq<(u32, Seq<Number>)>, id: u32, value: Seq<Number>)
    requires
        one_each(s),
    ensures
        one_each(chosen(s, id, value)),
        chosen(s, id, value).last() == (id, value),
        forall|p: (u32, Seq<Number>)| p.0 != id ==> (chosen(s, id, value).contains(p) <==> s.contains(p)),
{
    lemma_without(s, id);
    let c = chosen(s, id, value);
    let w = without(s, id);
    assert forall|i: int, j: int| 0 <= i < j < c.len() implies (#[trigger] c[i]).0 != (#[trigger] c[j]).0 by {
        assert(c[i] == w[i]);
        if j < w.len() {
            assert(w[i].0 != w[j].0);
        }
    }
    assert forall|p: (u32, Seq<Number>)| p.0 != id implies (c.contains(p) <==> s.contains(p)) by {
        if c.contains(p) {
            let i = choose|i: int| 0 <= i < c.len() && c[i] == p;
            assert(w[i] == p);
        }
        if s.contains(p) {
            lemma_without_keeps(s, id, p);
            let i = choose|i: int| 0 <= i < w.len() && w[i] == p;
            assert(c[i] == p);
        }
    }
}

proof fn lemma_without_keeps(s: Seq<(u32, Seq<Number>)>, id: u32, p: (u32, Seq<Number>))
    requires
        s.contains(p),
        p.0 != id,
    ensures
        without(s, id).contains(p),
    decreases s.len(),
{
    let t = s.drop_last();
    let w = without(s, id);
    if s.last() == p {
        assert(w[w.len() - 1] == p);
    } else {
        let i = choose|i: int| 0 <= i < s.len() && s[i] == p;
        assert(t[i] == p);
        assert(t.contains(p));
        lemma_without_keeps(t, id, p);
        let u = without(t, id);
        let j = choose|j: int| 0 <= j < u.len() && u[j] == p;
        assert(w[j] == p);
    }
}

/// Set `id` to `value`, after everything set before.
pub fn choose_setting(user: &mut Vec<(u32, Vec<Number>)>, id: u32, value: Vec<Number>)
    ensures
        settings(final(user)@) == chosen(settings(old(user)@), id, value@),
{
    let mut all: Vec<(u32, Vec<Number>)> = Vec::new();
    core::mem::swap(user, &mut all);
    let ghost before = settings(all@);
    let mut i: usize = 0;
    assert(before.take(0).len() == 0);
    assert(settings(user@) =~= Seq::empty());
    while i < all.len()
        invariant
            i <= all@.len(),
            before == settings(all@),
            settings(user@) == without(before.take(i as int), id),
        decreases all@.len() - i,
    {
        assert(before.take(i + 1).drop_last() =~= before.take(i as int));
        let ghost so_far = settings(user@);
        if all[i].0 != id {
            user.push((all[i].0, copied(&all[i].1)));
            assert(settings(user@) =~= so_far.push(before[i as int]));
        }
        i = i + 1;
    }
    assert(before.take(i as int) =~= before);
    let ghost so_far = settings(user@);
    user.push((id, value));
    assert(settings(user@) =~= so_far.push((id, value@)));
}

/// Typed values on their way to the camera, one per control.
#[derive(Debug)]
pub struct ControlList {
    pub values: Vec<(u32, ControlValue)>,
}

/// Where the value of this control stands, or the length.
pub open spec fn slot_of(values: Seq<(u32, ControlValue)>, id: u32) -> int
    decreases values.len(),
{
    if values.len() == 0 || values[0].0 == id {
        0
    } else {
        1 + slot_of(values.drop_first(), id)
    }
}

proof fn lemma_slot_of(values: Seq<(u32, ControlValue)>, id: u32, n: int)
    requires
        0 <= n <= values.len(),
        forall|i: int| 0 <= i < n ==> (#[trigger] values[i]).0 != id,
        n == values.len() || values[n].0 == id,
    ensures
        slot_of(values, id) == n,
    decreases values.len(),
{
    if n > 0 {
        let t = values.drop_first();
        assert forall|i: int| 0 <= i < n - 1 implies (#[trigger] t[i]).0 != id by {
            assert(t[i] == values[i + 1]);
        }
        assert(values[0].0 != id);
        lemma_slot_of(t, id, n - 1);
    }
}

proof fn lemma_slot_found(values: Seq<(u32, ControlValue)>, id: u32)
    ensures
        0 <= slot_of(values, id) <= values.len(),
        slot_of(values, id) < values.len() ==> values[slot_of(values, id)].0 == id,
        forall|i: int| 0 <= i < slot_of(values, id) ==> (#[trigger] values[i]).0 != id,
    decreases values.len(),
{
    if values.len() > 0 && values[0].0 != id {
        let t = values.drop_first();
        lemma_slot_found(t, id);
        assert forall|i: int| 0 <= i < slot_of(values, id) implies (#[trigger] values[i]).0 != id by {
            if i > 0 {
                assert(t[i - 1].0 != id);
            }
        }
    }
}

impl View for ControlList {
    type V = Map<u32, Typed>;

    open spec fn view(&self) -> Map<u32, Typed> {
        Map::new(
            |id: u32| slot_of(self.values@, id) < self.values@.len(),
            |id: u32| self.values@[slot_of(self.values@, id)].1@,
        )
    }
}

impl ControlList {
    pub fn new() -> (list: ControlList)
        ensures
            list@ == Map::<u32, Typed>::empty(),
    {
        let list = ControlList { values: Vec::new() };
        assert(list@ =~= Map::empty());
        list
    }

    /// Set a control, in place of any value before.
    pub fn set(&mut self, id: u32, value: ControlValue)
        ensures
            final(self)@ == old(self)@.insert(id, value@),
    {
        let ghost before = self.values@;
        let ghost what = value@;
        let mut i: usize = 0;
        while i < self.values.len() && self.values[i].0 != id
            invariant
                i <= self.values@.len(),
                forall|j: int| 0 <= j < i ==> (#[trigger] self.values@[j]).0 != id,
                self.values@ == before,
            decreases self.values@.len() - i,
        {
            i = i + 1;
        }
        proof {
            lemma_slot_of(before, id, i as int);
        }
        if i < self.values.len() {
            self.values.set(i, (id, value));
        } else {
            self.values.push((id, value));
        }
        let ghost after = self.values@;
        proof {
            assert forall|k: u32|
                {
                    &&& k == id ==> slot_of(after, k) < after.len() && after[slot_of(after, k)].1@ == what
                    &&& k != id ==> (slot_of(after, k) < after.len() <==> slot_of(before, k) < before.len())
                    &&& k != id && slot_of(before, k) < before.len() ==> after[slot_of(after, k)].1@
                        == before[slot_of(before, k)].1@
                } by {
                lemma_slot_found(before, k);
                if k == id {
                    lemma_slot_of(after, k, i as int);
                } else if slot_of(before, k) < before.len() {
                    lemma_slot_of(after, k, slot_of(before, k));
                } else {
                    lemma_slot_of(after, k, after.len() as int);
                }
            }
            assert(self@ =~= old(self)@.insert(id, what));
        }
    }
}

/// The camera stack's type tag of a control, from a table of tags.
pub open spec fn tag_of(types: Seq<(u32, u32)>, id: u32) -> Option<u32>
    decreases types.len(),
{
    if types.len() == 0 {
        None
    } else if types[0].0 == id {
        Some(types[0].1)
    } else {
        tag_of(types.drop_first(), id)
    }
}

pub fn control_type(types: &Vec<(u32, u32)>, id: u32) -> (tag: Option<u32>)
    ensures
        tag == tag_of(types@, id),
{
    let mut i: usize = 0;
    assert(types@.skip(0) =~= types@);
    while i < types.len()
        invariant
            i <= types@.len(),
            tag_of(types@, id) == tag_of(types@.skip(i as int), id),
        decreases types@.len() - i,
    {
        if types[i].0 == id {
            return Some(types[i].1);
        }
        assert(types@.skip(i as int).drop_first() =~= types@.skip(i + 1));
        i = i + 1;
    }
    None
}

/// What a setting amounts to for a camera with these controls.
pub open spec fn applied(
    controls: Seq<ControlDesc>,
    types: Seq<(u32, u32)>,
    id: u32,
    value: Seq<Number>,
) -> Option<Typed> {
    let i = index_id(controls, id);
    if i < controls.len() {
        typed(controls[i].kind, tag_of(types, id), value)
    } else {
        None
    }
}

/// The values a session starts with: of each setting the camera can take,
/// the last where a control is set twice.
pub open spec fn initial_values(
    controls: Seq<ControlDesc>,
    types: Seq<(u32, u32)>,
    s: Seq<(u32, Seq<Number>)>,
) -> Map<u32, Typed>
    decreases s.len(),
{
    if s.len() == 0 {
        Map::empty()
    } else {
        let rest = initial_values(controls, types, s.drop_last());
        match applied(controls, types, s.last().0, s.last().1) {
            Some(v) => rest.insert(s.last().0, v),
            None => rest,
        }
    }
}

/// Type the settings a session starts with.
pub fn start_controls(
    controls: &Vec<ControlDesc>,
    types: &Vec<(u32, u32)>,
    initial: &Vec<(u32, Vec<Number>)>,
) -> (list: ControlList)
    ensures
        list@ == initial_values(controls@, types@, settings(initial@)),
{
    let mut list: ControlList = ControlList::new();
    let ghost all = settings(initial@);
    let mut i: usize = 0;
    assert(all.take(0).len() == 0);
    while i < initial.len()
        invariant
            i <= initial@.len(),
            all == settings(initial@),
            list@ == initial_values(controls@, types@, all.take(i as int)),
        decreases initial@.len() - i,
    {
        assert(all.take(i + 1).drop_last() =~= all.take(i as int));
        let id: u32 = initial[i].0;
        if let Some(at) = find_id(controls, id) {
            if let Some(v) = control_value(controls[at].kind, control_type(types, id), &initial[i].1) {
                list.set(id, v);
            }
        }
        i = i + 1;
    }
    assert(all.take(i as int) =~= all);
    list
}

/// In units of the smallest number, a finite reading is within `part` tenths
/// of a thousandth of what was held, and `slack` tenths of a thousandth more.
pub open spec fn within(want: Number, got: Number, part: int, slack: int) -> bool {
    &&& want.magnitude() < INFINITE
    &&& got.magnitude() < INFINITE
    &&& 10000 * absolute(got.value() - want.value()) <= part * absolute(want.value()) + slack * unity()
}

proof fn lemma_allowance(w: int, a: int)
    requires
        w >= 0,
        a >= 0,
    ensures
        ({
            let (part, slack) = ((Number { bits: TENTH }).value(), (Number { bits: THOUSANDTH }).value());
            let allowed = nearest(nearest(w * part, unity()) + slack, 1);
            &&& nearest(a, 1) <= allowed ==> 10000 * a <= 1001 * w + 11 * unity()
            &&& 10000 * a <= 999 * w + 9 * unity() ==> nearest(a, 1) <= allowed
        }),
{
    let q = pow2(1012) as int;
    let (part, slack) = ((Number { bits: TENTH }).value(), (Number { bits: THOUSANDTH }).value());
    let share = 0x19_9999_9999_999aint;
    let spare = 0x10_624d_d2f1_a9fcint;
    lemma2_to64();
    lemma2_to64_rest();
    lemma_pow2_adds(1012, 6);
    lemma_pow2_adds(1012, 62);
    lemma_pow2_pos(1012);
    lemma_pow2_adds(64, 948);
    lemma_pow2_pos(948);
    assert(pow2(64) == 0x1_0000_0000_0000_0000);
    assert(q >= 0x1_0000_0000_0000_0000) by (nonlinear_arith)
        requires
            q == 0x1_0000_0000_0000_0000 * pow2(948),
            pow2(948) >= 1,
    ;
    assert(part == share * pow2(1018));
    assert(slack == spare * q);
    assert(pow2(1018) == 64 * q);
    assert(unity() == 0x4000_0000_0000_0000 * q);
    let n = w * part;
    assert(n == (64 * share * w) * q) by (nonlinear_arith)
        requires
            n == w * part,
            part == share * (64 * q),
    ;
    assert(n >= 0) by (nonlinear_arith)
        requires
            n == (64 * share * w) * q,
            w >= 0,
            q >= 0,
            share == 0x19_9999_9999_999aint,
    ;
    law_rounding_is_close(n, unity());
    let b = nearest(n, unity());
    lemma_nearest_positive(n, unity());
    let gap = b * 0x4000_0000_0000_0000 - 64 * share * w;
    assert(b * unity() - n == gap * q) by (nonlinear_arith)
        requires
            unity() == 0x4000_0000_0000_0000 * q,
            n == (64 * share * w) * q,
            gap == b * 0x4000_0000_0000_0000 - 64 * share * w,
    ;
    assert(0x20_0000_0000_0000 * absolute(gap) <= 64 * share * w + 0x10_0000_0000_0000 * 0x4000_0000_0000_0000) by (nonlinear_arith)
        requires
            0x20_0000_0000_0000 * absolute(gap * q) <= (64 * share * w) * q + 0x10_0000_0000_0000 * (0x4000_0000_0000_0000 * q),
            q > 0,
    ;
    let c = b + slack;
    assert(slack >= 0) by (nonlinear_arith)
        requires
            slack == spare * q,
            q >= 0,
            spare == 0x10_624d_d2f1_a9fcint,
    ;
    law_rounding_is_close(c, 1);
    law_rounding_is_close(a, 1);
}

/// A reading that is close to what was held lies within a tenth and a
/// thousandth of it, but for what rounding moves; and one that lies well
/// within them is close.
pub proof fn law_close_is_a_tenth_and_a_thousandth(want: Number, got: Number)
    requires
        want.magnitude() < INFINITE,
    ensures
        close_to(want, got) ==> within(want, got, 1001, 11),
        within(want, got, 999, 9) ==> close_to(want, got),
{
    if got.magnitude() < INFINITE {
        lemma_allowance(absolute(want.value()), absolute(got.value() - want.value()));
    }
}

/// Before patience runs out, at the eighth frame, a settled frame reports
/// both values that are held, each within a tenth and a thousandth.
pub proof fn law_settled_frames_show_both(
    expect: (Option<Number>, Option<Number>),
    exposure: Option<Number>,
    gain: Option<Number>,
    frames: u32,
)
    requires
        is_settled(expect, exposure, gain, frames),
        frames < 8,
    ensures
        expect.0 matches Some(w) ==> exposure matches Some(got) && (w.magnitude() < INFINITE ==> within(w, got, 1001, 11)),
        expect.1 matches Some(w) ==> gain matches Some(got) && (w.magnitude() < INFINITE ==> within(w, got, 1001, 11)),
        expect.0 is None || expect.1 is None ==> frames >= 1,
{
    if let (Some(w), Some(got)) = (expect.0, exposure) {
        if w.magnitude() < INFINITE {
            law_close_is_a_tenth_and_a_thousandth(w, got);
        }
    }
    if let (Some(w), Some(got)) = (expect.1, gain) {
        if w.magnitude() < INFINITE {
            law_close_is_a_tenth_and_a_thousandth(w, got);
        }
    }
}

/// A frame settles that reports both held values well within a tenth and a
/// thousandth, and so does the first one where nothing is held, and any once
/// patience has run out.
pub proof fn law_shown_frames_settle(
    expect: (Option<Number>, Option<Number>),
    exposure: Option<Number>,
    gain: Option<Number>,
    frames: u32,
)
    requires
        frames >= 8 || {
            &&& frames >= 1
            &&& expect.0 matches Some(w) ==> exposure matches Some(got) && within(w, got, 999, 9)
            &&& expect.1 matches Some(w) ==> gain matches Some(got) && within(w, got, 999, 9)
        },
    ensures
        is_settled(expect, exposure, gain, frames),
{
    if let (Some(w), Some(got)) = (expect.0, exposure) {
        if w.magnitude() < INFINITE {
            law_close_is_a_tenth_and_a_thousandth(w, got);
        }
    }
    if let (Some(w), Some(got)) = (expect.1, gain) {
        if w.magnitude() < INFINITE {
            law_close_is_a_tenth_and_a_thousandth(w, got);
        }
    }
}

/// Numbers typed for a control of a value's own kind are that value again.
pub proof fn law_values_type_back(v: ControlValue, ty: Option<u32>)
    ensures
        v is Bool || v is Float ==> typed(kind_of(v), ty, numbers_in(v)) == Some(v@),
        v is Int32 && ty != Some(4u32) ==> typed(kind_of(v), ty, numbers_in(v)) == Some(v@),
        (v matches ControlValue::Int64(s) ==> ty == Some(4u32) && (forall|i: int|
            0 <= i < s@.len() ==> -0x20_0000_0000_0000 <= #[trigger] s@[i] <= 0x20_0000_0000_0000) ==> typed(
            kind_of(v),
            ty,
            numbers_in(v),
        ) == Some(v@)),
        v matches ControlValue::Byte(s) ==> forall|i: int| 0 <= i < s@.len() ==> (#[trigger] numbers_in(v)[i]).rounded() == s@[i],
        v matches ControlValue::Uint16(s) ==> forall|i: int| 0 <= i < s@.len() ==> (#[trigger] numbers_in(v)[i]).rounded() == s@[i],
        v matches ControlValue::Uint32(s) ==> forall|i: int| 0 <= i < s@.len() ==> (#[trigger] numbers_in(v)[i]).rounded() == s@[i],
        v is Byte || v is Uint16 || v is Uint32 ==> kind_of(v) == Kind::Int,
        v is Empty || v is Rectangle || v is Other ==> kind_of(v) == Kind::Other && numbers_in(v).len() == 0 && typed(
            kind_of(v),
            ty,
            numbers_in(v),
        ) is None,
{
    match v {
        ControlValue::Bool(s) => {
            assert forall|i: int| 0 <= i < s@.len() implies on(#[trigger] numbers_in(v)[i]) == s@[i] by {
                lemma_truth(s@[i]);
            }
            assert(numbers_in(v).map_values(|n: Number| on(n)) =~= s@);
        },
        ControlValue::Int32(s) => {
            assert forall|i: int| 0 <= i < s@.len() implies to_i32(#[trigger] numbers_in(v)[i]) == s@[i] by {
                law_integers_survive(s@[i] as int);
            }
            assert(numbers_in(v).map_values(|n: Number| to_i32(n)) =~= s@);
        },
        ControlValue::Int64(s) => {
            if forall|i: int| 0 <= i < s@.len() ==> -0x20_0000_0000_0000 <= #[trigger] s@[i] <= 0x20_0000_0000_0000 {
                assert forall|i: int| 0 <= i < s@.len() implies (#[trigger] numbers_in(v)[i]).rounded() == s@[i] by {
                    law_integers_survive(s@[i] as int);
                }
                assert(numbers_in(v).map_values(|n: Number| n.rounded() as i64) =~= s@);
            }
        },
        ControlValue::Byte(s) => {
            assert forall|i: int| 0 <= i < s@.len() implies (#[trigger] numbers_in(v)[i]).rounded() == s@[i] by {
                law_integers_survive(s@[i] as int);
            }
        },
        ControlValue::Uint16(s) => {
            assert forall|i: int| 0 <= i < s@.len() implies (#[trigger] numbers_in(v)[i]).rounded() == s@[i] by {
                law_integers_survive(s@[i] as int);
            }
        },
        ControlValue::Uint32(s) => {
            assert forall|i: int| 0 <= i < s@.len() implies (#[trigger] numbers_in(v)[i]).rounded() == s@[i] by {
                law_integers_survive(s@[i] as int);
            }
        },
        _ => {},
    }
}

/// The last control of a name is the one that metadata tells of, by its first
/// number; controls without a name or a number tell nothing.
pub proof fn law_last_reading_counts(list: Seq<(Option<String>, ControlValue)>, name: String, v: ControlValue, other: Seq<char>)
    ensures
        numbers_in(v).len() > 0 ==> {
            let meta = gathered(list.push((Some(name), v)));
            &&& reading(meta, name@) == Some(numbers_in(v)[0])
            &&& meta.dom().contains(name@) && meta[name@] == numbers_in(v)
            &&& other != name@ ==> reading(meta, other) == reading(gathered(list), other)
            &&& other != name@ ==> meta.dom().contains(other) == gathered(list).dom().contains(other)
        },
        numbers_in(v).len() == 0 ==> gathered(list.push((Some(name), v))) == gathered(list),
        gathered(list.push((None, v))) == gathered(list),
        gathered(Seq::empty()).dom().is_empty(),
{
    assert(list.push((Some(name), v)).drop_last() =~= list);
    assert(list.push((None, v)).drop_last() =~= list);
    assert(gathered(Seq::empty()).dom() =~= Set::empty());
}

/// No control before the one at `k` has its name.
pub open spec fn first_of_name(controls: Seq<ControlDesc>, k: int) -> bool {
    &&& 0 <= k < controls.len()
    &&& forall|j: int| 0 <= j < k ==> (#[trigger] controls[j]).name@ != controls[k].name@
}

/// No label before the one at `m` ends so.
pub open spec fn first_ending(enums: Seq<(i32, String)>, m: int, ending: Seq<char>) -> bool {
    &&& 0 <= m < enums.len()
    &&& text::ends(enums[m].1@, ending)
    &&& forall|j: int| 0 <= j < m ==> !text::ends((#[trigger] enums[j]).1@, ending)
}

/// The camera has no control of this name with a label that ends so.
pub open spec fn no_label(controls: Seq<ControlDesc>, name: Seq<char>, ending: Seq<char>) -> bool {
    forall|j: int, m: int|
        0 <= j < controls.len() && 0 <= m < (#[trigger] controls[j]).enums@.len() && controls[j].name@ == name ==> !text::ends(
            (#[trigger] controls[j].enums@[m]).1@,
            ending,
        )
}

pub proof fn lemma_first(controls: Seq<ControlDesc>, k: int, m: int, name: Seq<char>, ending: Seq<char>, value: Seq<Number>)
    requires
        first_of_name(controls, k),
        controls[k].name@ == name,
    ensures
        held(controls, name, value) == seq![(controls[k].id, value)],
        first_ending(controls[k].enums@, m, ending) ==> labelled(controls, name, ending) == seq![
            (controls[k].id, seq![Number::of(controls[k].enums@[m].0 as int)]),
        ],
        index_named(controls, name) == k,
        first_ending(controls[k].enums@, m, ending) ==> value_ending(controls[k].enums@, ending) == Some(controls[k].enums@[m].0),
{
    lemma_index_named(controls, name, k);
    if first_ending(controls[k].enums@, m, ending) {
        lemma_index_ending(controls[k].enums@, ending, m);
    }
}

proof fn lemma_no_label(controls: Seq<ControlDesc>, name: Seq<char>, ending: Seq<char>)
    requires
        no_label(controls, name, ending),
    ensures
        labelled(controls, name, ending).len() == 0,
{
    lemma_named_is_there(controls, name);
    lemma_named_has_name(controls, name);
    let i = index_named(controls, name);
    if i < controls.len() {
        let e = controls[i].enums@;
        assert forall|m: int| 0 <= m < e.len() implies !text::ends((#[trigger] e[m]).1@, ending) by {
            assert(!text::ends(controls[i].enums@[m].1@, ending));
        }
        lemma_index_ending(e, ending, e.len() as int);
    }
}

proof fn lemma_named_has_name(controls: Seq<ControlDesc>, name: Seq<char>)
    ensures
        0 <= index_named(controls, name) <= controls.len(),
        index_named(controls, name) < controls.len() ==> controls[index_named(controls, name)].name@ == name,
    decreases controls.len(),
{
    if controls.len() > 0 && controls[0].name@ != name {
        lemma_named_has_name(controls.drop_first(), name);
    }
}

proof fn lemma_joined(a: Seq<(u32, Seq<Number>)>, b: Seq<(u32, Seq<Number>)>, x: (u32, Seq<Number>))
    ensures
        a.contains(x) || b.contains(x) ==> (a + b).contains(x),
        seq![x].contains(x),
{
    if a.contains(x) {
        let i = choose|i: int| 0 <= i < a.len() && a[i] == x;
        assert((a + b)[i] == x);
    }
    if b.contains(x) {
        let i = choose|i: int| 0 <= i < b.len() && b[i] == x;
        assert((a + b)[a.len() + i] == x);
    }
    assert(seq![x][0] == x);
}

proof fn lemma_joined_all(x: (u32, Seq<Number>))
    ensures
        forall|a: Seq<(u32, Seq<Number>)>, b: Seq<(u32, Seq<Number>)>|
            a.contains(x) || b.contains(x) ==> #[trigger] (a + b).contains(x),
        seq![x].contains(x),
{
    assert forall|a: Seq<(u32, Seq<Number>)>, b: Seq<(u32, Seq<Number>)>| a.contains(x) || b.contains(x) implies #[trigger] (a
        + b).contains(x) by {
        lemma_joined(a, b, x);
    }
    assert(seq![x][0] == x);
}

/// Where exposure time and gain were both read, a seed sets both, and takes
/// whichever automatic exposure the camera has off: the switch to 0, each
/// mode to its manual label.
pub proof fn law_seed_holds_the_exposure(controls: Seq<ControlDesc>, meta: Map<Seq<char>, Seq<Number>>, k: int, m: int)
    requires
        first_of_name(controls, k),
        reading(meta, "ExposureTime"@) is Some,
        reading(meta, "AnalogueGain"@) is Some,
    ensures
        ({
            let (name, id, set) = (controls[k].name@, controls[k].id, seeded(controls, meta));
            &&& name == "ExposureTime"@ ==> set.contains((id, seq![meta["ExposureTime"@][0]]))
            &&& name == "AnalogueGain"@ ==> set.contains((id, seq![meta["AnalogueGain"@][0]]))
            &&& name == "AeEnable"@ ==> set.contains((id, seq![Number::of(0)]))
            &&& (name == "ExposureTimeMode"@ || name == "AnalogueGainMode"@) && first_ending(controls[k].enums@, m, "Manual"@)
                ==> set.contains((id, seq![Number::of(controls[k].enums@[m].0 as int)]))
        }),
{
    let (name, id) = (controls[k].name@, controls[k].id);
    let (e, g) = (meta["ExposureTime"@][0], meta["AnalogueGain"@][0]);
    lemma_first(controls, k, m, name, "Manual"@, seq![e]);
    lemma_first(controls, k, m, name, "Manual"@, seq![g]);
    lemma_first(controls, k, m, name, "Manual"@, seq![Number::of(0)]);
    lemma_joined_all((id, seq![e]));
    lemma_joined_all((id, seq![g]));
    lemma_joined_all((id, seq![Number::of(0)]));
    lemma_joined_all((id, seq![Number::of(controls[k].enums@[m].0 as int)]));
    let rest = held_exposure(controls, meta) + held_colour(controls, meta);
    assert(seeded(controls, meta) == rest + held_focus(controls, meta));
}

/// A seed sets the two colour gains that were read, with automatic white
/// balance off, and the lens position, with focus at its manual label.
pub proof fn law_seed_holds_colour_and_focus(controls: Seq<ControlDesc>, meta: Map<Seq<char>, Seq<Number>>, k: int, m: int)
    requires
        first_of_name(controls, k),
    ensures
        ({
            let (name, id, set) = (controls[k].name@, controls[k].id, seeded(controls, meta));
            let gains = meta["ColourGains"@];
            let colour = meta.dom().contains("ColourGains"@) && gains.len() == 2;
            &&& colour && name == "ColourGains"@ ==> set.contains((id, gains))
            &&& colour && name == "AwbEnable"@ ==> set.contains((id, seq![Number::of(0)]))
            &&& reading(meta, "LensPosition"@) matches Some(lens) ==> {
                &&& name == "LensPosition"@ ==> set.contains((id, seq![lens]))
                &&& name == "AfMode"@ && first_ending(controls[k].enums@, m, "Manual"@) ==> set.contains(
                    (id, seq![Number::of(controls[k].enums@[m].0 as int)]),
                )
            }
        }),
        meta.dom().is_empty() ==> seeded(controls, meta).len() == 0,
{
    let (name, id) = (controls[k].name@, controls[k].id);
    let (gains, lens) = (meta["ColourGains"@], meta["LensPosition"@][0]);
    lemma_first(controls, k, m, name, "Manual"@, gains);
    lemma_first(controls, k, m, name, "Manual"@, seq![lens]);
    lemma_first(controls, k, m, name, "Manual"@, seq![Number::of(0)]);
    lemma_joined_all((id, gains));
    lemma_joined_all((id, seq![lens]));
    lemma_joined_all((id, seq![Number::of(0)]));
    lemma_joined_all((id, seq![Number::of(controls[k].enums@[m].0 as int)]));
    let rest = held_exposure(controls, meta) + held_colour(controls, meta);
    assert(seeded(controls, meta) == rest + held_focus(controls, meta));
    if meta.dom().is_empty() {
        assert(!meta.dom().contains("ExposureTime"@));
        assert(!meta.dom().contains("ColourGains"@));
        assert(!meta.dom().contains("LensPosition"@));
    }
}

/// A lock sets exposure time and gain to what it holds and puts the modes to
/// manual, or the switch to 0 where no mode has such a label; and where focus
/// has one, it sets that and the lens.
pub proof fn law_lock_holds_its_values(controls: Seq<ControlDesc>, e: Number, g: Number, lens: Number, k: int, m: int)
    requires
        first_of_name(controls, k),
    ensures
        ({
            let (name, id) = (controls[k].name@, controls[k].id);
            let set = locks(controls, Some((e, g)), None);
            let focus = locks(controls, None, Some(lens));
            &&& name == "ExposureTime"@ ==> set.contains((id, seq![e]))
            &&& name == "AnalogueGain"@ ==> set.contains((id, seq![g]))
            &&& (name == "ExposureTimeMode"@ || name == "AnalogueGainMode"@) && first_ending(controls[k].enums@, m, "Manual"@)
                ==> set.contains((id, seq![Number::of(controls[k].enums@[m].0 as int)]))
            &&& name == "AeEnable"@ && no_label(controls, "ExposureTimeMode"@, "Manual"@) && no_label(
                controls,
                "AnalogueGainMode"@,
                "Manual"@,
            ) ==> set.contains((id, seq![Number::of(0)]))
            &&& name == "AfMode"@ && first_ending(controls[k].enums@, m, "Manual"@) ==> focus.contains(
                (id, seq![Number::of(controls[k].enums@[m].0 as int)]),
            )
            &&& name == "LensPosition"@ && manual(controls, "AfMode"@).len() > 0 ==> focus.contains((id, seq![lens]))
            &&& no_label(controls, "AfMode"@, "Manual"@) ==> focus.len() == 0
        }),
        locks(controls, Some((e, g)), Some(lens)) == locks(controls, Some((e, g)), None) + locks(controls, None, Some(lens)),
        locks(controls, None, None).len() == 0,
{
    let (name, id) = (controls[k].name@, controls[k].id);
    lemma_first(controls, k, m, name, "Manual"@, seq![e]);
    lemma_first(controls, k, m, name, "Manual"@, seq![g]);
    lemma_first(controls, k, m, name, "Manual"@, seq![lens]);
    lemma_first(controls, k, m, name, "Manual"@, seq![Number::of(0)]);
    lemma_joined_all((id, seq![e]));
    lemma_joined_all((id, seq![g]));
    lemma_joined_all((id, seq![lens]));
    lemma_joined_all((id, seq![Number::of(0)]));
    lemma_joined_all((id, seq![Number::of(controls[k].enums@[m].0 as int)]));
    if no_label(controls, "ExposureTimeMode"@, "Manual"@) {
        lemma_no_label(controls, "ExposureTimeMode"@, "Manual"@);
    }
    if no_label(controls, "AnalogueGainMode"@, "Manual"@) {
        lemma_no_label(controls, "AnalogueGainMode"@, "Manual"@);
    }
    if no_label(controls, "AfMode"@, "Manual"@) {
        lemma_no_label(controls, "AfMode"@, "Manual"@);
    }
    assert(locks(controls, Some((e, g)), Some(lens)) =~= locks(controls, Some((e, g)), None) + locks(controls, None, Some(lens)));
}

/// Letting go of a lock puts the modes that have such a label to automatic,
/// or the switch to 1 where none has, and focus to continuous.
pub proof fn law_unlock_is_automatic(controls: Seq<ControlDesc>, k: int, m: int)
    requires
        first_of_name(controls, k),
    ensures
        ({
            let (name, id, set) = (controls[k].name@, controls[k].id, unlocks(controls));
            let label = (id, seq![Number::of(controls[k].enums@[m].0 as int)]);
            &&& (name == "ExposureTimeMode"@ || name == "AnalogueGainMode"@) && first_ending(controls[k].enums@, m, "Auto"@)
                ==> set.contains(label)
            &&& name == "AfMode"@ && first_ending(controls[k].enums@, m, "Continuous"@) ==> set.contains(label)
            &&& name == "AeEnable"@ && no_label(controls, "ExposureTimeMode"@, "Auto"@) && no_label(
                controls,
                "AnalogueGainMode"@,
                "Auto"@,
            ) ==> set.contains((id, seq![Number::of(1)]))
        }),
{
    let (name, id) = (controls[k].name@, controls[k].id);
    lemma_first(controls, k, m, name, "Auto"@, seq![Number::of(1)]);
    lemma_first(controls, k, m, name, "Continuous"@, seq![Number::of(1)]);
    lemma_joined_all((id, seq![Number::of(1)]));
    lemma_joined_all((id, seq![Number::of(controls[k].enums@[m].0 as int)]));
    if no_label(controls, "ExposureTimeMode"@, "Auto"@) {
        lemma_no_label(controls, "ExposureTimeMode"@, "Auto"@);
    }
    if no_label(controls, "AnalogueGainMode"@, "Auto"@) {
        lemma_no_label(controls, "AnalogueGainMode"@, "Auto"@);
    }
}

/// A label is kept where the control allows any value, or allows its own; and
/// dropped where the values allowed are others.
pub proof fn law_labels_are_of_allowed_values(enums: Seq<(i32, String)>, values: Seq<ControlValue>, v: i32, label: String, only: Vec<i32>)
    ensures
        allowed(enums.push((v, label)), Seq::empty()) == allowed(enums, Seq::empty()).push((v, label@)),
        only@.len() > 0 && only@[0] == v ==> allowed(enums.push((v, label)), values.push(ControlValue::Int32(only))) == allowed(
            enums,
            values.push(ControlValue::Int32(only)),
        ).push((v, label@)),
        only@.len() > 0 && only@[0] != v ==> allowed(enums.push((v, label)), seq![ControlValue::Int32(only)]) == allowed(
            enums,
            seq![ControlValue::Int32(only)],
        ),
{
    assert(enums.push((v, label)).drop_last() =~= enums);
    let all = values.push(ControlValue::Int32(only));
    let just = seq![ControlValue::Int32(only)];
    assert(all[values.len() as int] == ControlValue::Int32(only));
    assert(just[0] == ControlValue::Int32(only));
    if only@.len() > 0 {
        let (a, b) = (Number::of(v as int), Number::of(only@[0] as int));
        law_integers_survive(v as int);
        law_integers_survive(only@[0] as int);
        assert(numbers_in(ControlValue::Int32(only))[0] == b);
        lemma_integer_is_a_number(v as int);
        lemma_integer_is_a_number(only@[0] as int);
        if only@[0] == v {
            assert(numbers_in(all[values.len() as int])[0].alike(a));
        } else {
            lemma_alike_rounds(a, b);
            assert(!allows(just, v)) by {
                assert forall|i: int| 0 <= i < just.len() implies !(numbers_in(#[trigger] just[i]).len() > 0 && numbers_in(just[i])[0].alike(a)) by {
                    assert(i == 0);
                }
            }
        }
    }
}

proof fn lemma_alike_rounds(a: Number, b: Number)
    ensures
        a.alike(b) ==> a.rounded() == b.rounded(),
{
    if a.alike(b) {
        assert(a.magnitude() == b.magnitude());
        if a.negative() != b.negative() {
            assert(a.magnitude() == 0);
            assert(a.significand() == 0 && a.scale() == -1074);
            lemma_pow2_pos(1074);
            assert(a.rounded_magnitude() == 0) by {
                vstd::arithmetic::div_mod::lemma_basic_div(pow2(1074) as int, 2 * pow2(1074) as int);
            }
            assert(b.rounded_magnitude() == a.rounded_magnitude());
        }
    }
}

pub proof fn lemma_integer_is_a_number(x: int)
    requires
        -0x20_0000_0000_0000 <= x <= 0x20_0000_0000_0000,
    ensures
        !Number::of(x).not_a_number(),
{
    law_integers_survive(x);
    if Number::of(x).not_a_number() {
        assert(Number::of(x).rounded() == 0);
        assert(x == 0);
        assert(Number::of(0).bits == 0);
    }
}

/// A control is described by its own kind and numbers: the first number of
/// its ends, all of its default; and only those the stack knows are.
pub proof fn law_controls_are_described(list: Seq<ControlInfo>, info: ControlInfo)
    ensures
        ({
            let c = described(info);
            &&& c.id == info.id
            &&& info.name matches Some(n) ==> c.name == n@
            &&& info.name is None ==> c.name == "Control "@ + text::decimal(info.id as nat)
            &&& numbers_in(info.min).len() > 0 ==> c.min == numbers_in(info.min)[0]
            &&& numbers_in(info.max).len() > 0 ==> c.max == numbers_in(info.max)[0]
            &&& numbers_in(info.min).len() == 0 ==> c.min.rounded() == 0
            &&& c.def == numbers_in(info.def)
            &&& info.array ==> c.len == info.size
            &&& !info.array ==> c.len == 1
            &&& info.min is Bool ==> c.kind == Kind::Bool
            &&& info.min is Int32 || info.min is Int64 || info.min is Byte ==> c.kind == Kind::Int
            &&& info.min is Float ==> c.kind == Kind::Float
            &&& info.values@.len() == 0 ==> c.enums.len() == info.enumerators@.len()
        }),
        info.known ==> known_controls(list.push(info)) == known_controls(list).push(described(info)),
        !info.known ==> known_controls(list.push(info)) == known_controls(list),
{
    assert(list.push(info).drop_last() =~= list);
    law_integers_survive(0);
    lemma_any_allowed(info.enumerators@, info.values@);
}

proof fn lemma_any_allowed(enums: Seq<(i32, String)>, values: Seq<ControlValue>)
    ensures
        values.len() == 0 ==> allowed(enums, values).len() == enums.len(),
    decreases enums.len(),
{
    if enums.len() > 0 {
        lemma_any_allowed(enums.drop_last(), values);
    }
}

/// The controls of one name.
pub open spec fn of_name(s: Seq<Control>, name: Seq<char>) -> Seq<Control>
    decreases s.len(),
{
    if s.len() == 0 {
        s
    } else if s.last().name == name {
        of_name(s.drop_last(), name).push(s.last())
    } else {
        of_name(s.drop_last(), name)
    }
}

proof fn lemma_of_name_insert(s: Seq<Control>, n: int, c: Control, name: Seq<char>)
    requires
        0 <= n <= s.len(),
        forall|i: int| n <= i < s.len() ==> (#[trigger] s[i]).name != c.name,
    ensures
        of_name(s.insert(n, c), name) == if c.name == name {
            of_name(s, name).push(c)
        } else {
            of_name(s, name)
        },
    decreases s.len(),
{
    let w = s.insert(n, c);
    if n == s.len() {
        assert(w.drop_last() =~= s);
    } else {
        let t = s.drop_last();
        assert(s[s.len() - 1].name != c.name);
        assert forall|i: int| n <= i < t.len() implies (#[trigger] t[i]).name != c.name by {
            assert(s[i].name != c.name);
        }
        lemma_of_name_insert(t, n, c, name);
        assert(w.drop_last() =~= t.insert(n, c));
        assert(w.last() == s.last());
    }
}

/// Ordering by name leaves controls of the same name in the order they came.
pub proof fn law_order_by_name_is_stable(s: Seq<Control>, name: Seq<char>)
    ensures
        of_name(by_name(s), name) == of_name(s, name),
    decreases s.len(),
{
    if s.len() > 0 {
        let (t, c) = (s.drop_last(), s.last());
        let r = by_name(t);
        let n = name_place(r, c.name);
        law_order_by_name_is_stable(t, name);
        law_by_name_orders(t);
        lemma_name_place_splits(r, c.name);
        assert forall|i: int| n <= i < r.len() implies (#[trigger] r[i]).name != c.name by {
            assert(in_order(r[n].name, r[i].name));
        }
        lemma_of_name_insert(r, n, c, name);
    }
}

/// Names are ordered by the first character in which they differ, a name
/// before those it begins.
pub proof fn law_names_differ_where_they_part(p: Seq<char>, x: char, y: char, s: Seq<char>, t: Seq<char>)
    ensures
        x < y ==> in_order(p + seq![x] + s, p + seq![y] + t) && !in_order(p + seq![y] + t, p + seq![x] + s),
        in_order(p, p + s),
        s.len() > 0 ==> !in_order(p + s, p),
    decreases p.len(),
{
    let (a, b) = (p + seq![x] + s, p + seq![y] + t);
    if p.len() == 0 {
        assert(a[0] == x && b[0] == y);
    } else {
        law_names_differ_where_they_part(p.drop_first(), x, y, s, t);
        assert(a[0] == p[0] && b[0] == p[0]);
        assert(a.drop_first() =~= p.drop_first() + seq![x] + s);
        assert(b.drop_first() =~= p.drop_first() + seq![y] + t);
        assert((p + s).drop_first() =~= p.drop_first() + s);
        assert((p + s)[0] == p[0]);
    }
}

/// Of settings of one control the last that can be typed is what a session
/// starts with; settings of other controls, and of controls the camera does
/// not have, change nothing of it.
pub proof fn law_last_setting_counts(
    controls: Seq<ControlDesc>,
    types: Seq<(u32, u32)>,
    s: Seq<(u32, Seq<Number>)>,
    k: int,
    value: Seq<Number>,
    other: u32,
)
    requires
        0 <= k < controls.len(),
        forall|j: int| 0 <= j < k ==> (#[trigger] controls[j]).id != controls[k].id,
    ensures
        ({
            let id = controls[k].id;
            let all = initial_values(controls, types, s.push((id, value)));
            &&& controls[k].kind != Kind::Other ==> all.dom().contains(id) && typed(controls[k].kind, tag_of(types, id), value) == Some(
                all[id],
            )
            &&& controls[k].kind == Kind::Other ==> all == initial_values(controls, types, s)
            &&& other != id ==> {
                &&& all.dom().contains(other) == initial_values(controls, types, s).dom().contains(other)
                &&& all[other] == initial_values(controls, types, s)[other]
            }
        }),
        !has_id(controls, other) ==> initial_values(controls, types, s.push((other, value))) == initial_values(controls, types, s),
{
    let id = controls[k].id;
    lemma_index_id(controls, id, k);
    assert(s.push((id, value)).drop_last() =~= s);
    assert(s.push((other, value)).drop_last() =~= s);
    if !has_id(controls, other) {
        lemma_index_id(controls, other, controls.len() as int);
    }
    let rest = initial_values(controls, types, s);
    if let Some(v) = applied(controls, types, id, value) {
        if other != id {
            assert(rest.insert(id, v).dom().contains(other) == rest.dom().contains(other));
            assert(rest.insert(id, v)[other] == rest[other]) by {
                vstd::map::axiom_map_insert_different(rest, other, id, v);
            }
        }
    }
}

/// A control's tag is the first that the table has for it.
pub proof fn law_first_tag_counts(types: Seq<(u32, u32)>, id: u32, other: u32, tag: u32)
    ensures
        tag_of(seq![(id, tag)] + types, id) == Some(tag),
        other != id ==> tag_of(seq![(other, tag)] + types, id) == tag_of(types, id),
        tag_of(Seq::empty(), id) is None,
{
    assert((seq![(other, tag)] + types).drop_first() =~= types);
    assert((seq![(id, tag)] + types)[0] == (id, tag));
    assert((seq![(other, tag)] + types)[0] == (other, tag));
}

} // verus!
