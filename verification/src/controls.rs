//! The controls panel, made of whatever the camera reports. Known controls get
//! proper names and grouping; anything else still gets a row chosen from its
//! type and range.

use crate::camera::translated;
use crate::number::Number;
use crate::settings::{Control, ControlDesc, Kind, Metadata, find_ending, find_named, index_named, on, reading, value_ending, views};
use crate::text;
use vstd::prelude::*;

verus! {

/// Whether a character has Unicode's Uppercase property.
pub uninterp spec fn uppercase(c: char) -> bool;

/// `char::is_uppercase` tells whether a character has Unicode's Uppercase
/// property; among the ASCII characters the letters A to Z have it.
pub assume_specification[ char::is_uppercase ](c: char) -> (r: bool)
    ensures
        r == uppercase(c),
        c <= '\u{7f}' ==> r == ('A' <= c && c <= 'Z'),
;

/// The groups of the panel.
#[derive(Debug, Clone, Copy, PartialEq, Eq, Structural)]
pub enum Group {
    Exposure,
    Focus,
    Colour,
    Image,
    Other,
}

/// Titles of the controls that set the exposure.
pub open spec fn exposure_title(name: Seq<char>) -> Option<Seq<char>> {
    if name == "AeEnable"@ {
        Some("Automatic Exposure"@)
    } else if name == "ExposureTimeMode"@ {
        Some("Shutter Speed Mode"@)
    } else if name == "ExposureTime"@ {
        Some("Shutter Speed"@)
    } else if name == "AnalogueGainMode"@ {
        Some("Sensitivity Mode"@)
    } else if name == "AnalogueGain"@ {
        Some("Sensitivity"@)
    } else if name == "DigitalGain"@ {
        Some("Digital Gain"@)
    } else if name == "ExposureValue"@ {
        Some("Exposure Compensation"@)
    } else if name == "AeMeteringMode"@ {
        Some("Metering"@)
    } else if name == "AeConstraintMode"@ {
        Some("Exposure Constraint"@)
    } else if name == "AeExposureMode"@ {
        Some("Exposure Program"@)
    } else if name == "AeFlickerMode"@ {
        Some("Flicker Reduction"@)
    } else if name == "AeFlickerPeriod"@ {
        Some("Flicker Period"@)
    } else if name == "FrameDurationLimits"@ {
        Some("Frame Rate"@)
    } else {
        None
    }
}

fn exposure_caption(name: &str) -> (t: Option<&'static str>)
    ensures
        match t {
            Some(t) => exposure_title(name@) == Some(t@) && !t@.contains('\0'),
            None => exposure_title(name@) is None,
        },
{
    proof {
        reveal_strlit("Automatic Exposure");
        reveal_strlit("Shutter Speed Mode");
        reveal_strlit("Shutter Speed");
        reveal_strlit("Sensitivity Mode");
        reveal_strlit("Sensitivity");
        reveal_strlit("Digital Gain");
        reveal_strlit("Exposure Compensation");
        reveal_strlit("Metering");
        reveal_strlit("Exposure Constraint");
        reveal_strlit("Exposure Program");
        reveal_strlit("Flicker Reduction");
        reveal_strlit("Flicker Period");
        reveal_strlit("Frame Rate");
    }
    if text::same(name, "AeEnable") {
        Some("Automatic Exposure")
    } else if text::same(name, "ExposureTimeMode") {
        Some("Shutter Speed Mode")
    } else if text::same(name, "ExposureTime") {
        Some("Shutter Speed")
    } else if text::same(name, "AnalogueGainMode") {
        Some("Sensitivity Mode")
    } else if text::same(name, "AnalogueGain") {
        Some("Sensitivity")
    } else if text::same(name, "DigitalGain") {
        Some("Digital Gain")
    } else if text::same(name, "ExposureValue") {
        Some("Exposure Compensation")
    } else if text::same(name, "AeMeteringMode") {
        Some("Metering")
    } else if text::same(name, "AeConstraintMode") {
        Some("Exposure Constraint")
    } else if text::same(name, "AeExposureMode") {
        Some("Exposure Program")
    } else if text::same(name, "AeFlickerMode") {
        Some("Flicker Reduction")
    } else if text::same(name, "AeFlickerPeriod") {
        Some("Flicker Period")
    } else if text::same(name, "FrameDurationLimits") {
        Some("Frame Rate")
    } else {
        None
    }
}

/// Titles of the controls that set the colour.
pub open spec fn colour_title(name: Seq<char>) -> Option<Seq<char>> {
    if name == "AwbEnable"@ {
        Some("Automatic White Balance"@)
    } else if name == "AwbMode"@ {
        Some("White Balance Preset"@)
    } else if name == "ColourTemperature"@ {
        Some("Colour Temperature"@)
    } else if name == "ColourGains"@ {
        Some("Colour Gains"@)
    } else if name == "Saturation"@ {
        Some("Saturation"@)
    } else {
        None
    }
}

fn colour_caption(name: &str) -> (t: Option<&'static str>)
    ensures
        match t {
            Some(t) => colour_title(name@) == Some(t@) && !t@.contains('\0'),
            None => colour_title(name@) is None,
        },
{
    proof {
        reveal_strlit("Automatic White Balance");
        reveal_strlit("White Balance Preset");
        reveal_strlit("Colour Temperature");
        reveal_strlit("Colour Gains");
        reveal_strlit("Saturation");
    }
    if text::same(name, "AwbEnable") {
        Some("Automatic White Balance")
    } else if text::same(name, "AwbMode") {
        Some("White Balance Preset")
    } else if text::same(name, "ColourTemperature") {
        Some("Colour Temperature")
    } else if text::same(name, "ColourGains") {
        Some("Colour Gains")
    } else if text::same(name, "Saturation") {
        Some("Saturation")
    } else {
        None
    }
}

/// Titles of the controls that set the focus.
pub open spec fn focus_title(name: Seq<char>) -> Option<Seq<char>> {
    if name == "AfMode"@ {
        Some("Focus Mode"@)
    } else if name == "AfRange"@ {
        Some("Focus Range"@)
    } else if name == "AfSpeed"@ {
        Some("Focus Speed"@)
    } else if name == "AfMetering"@ {
        Some("Focus Area"@)
    } else if name == "AfTrigger"@ {
        Some("Focus Trigger"@)
    } else if name == "AfPause"@ {
        Some("Pause Focus"@)
    } else if name == "LensPosition"@ {
        Some("Focus Distance"@)
    } else {
        None
    }
}

fn focus_caption(name: &str) -> (t: Option<&'static str>)
    ensures
        match t {
            Some(t) => focus_title(name@) == Some(t@) && !t@.contains('\0'),
            None => focus_title(name@) is None,
        },
{
    proof {
        reveal_strlit("Focus Mode");
        reveal_strlit("Focus Range");
        reveal_strlit("Focus Speed");
        reveal_strlit("Focus Area");
        reveal_strlit("Focus Trigger");
        reveal_strlit("Pause Focus");
        reveal_strlit("Focus Distance");
    }
    if text::same(name, "AfMode") {
        Some("Focus Mode")
    } else if text::same(name, "AfRange") {
        Some("Focus Range")
    } else if text::same(name, "AfSpeed") {
        Some("Focus Speed")
    } else if text::same(name, "AfMetering") {
        Some("Focus Area")
    } else if text::same(name, "AfTrigger") {
        Some("Focus Trigger")
    } else if text::same(name, "AfPause") {
        Some("Pause Focus")
    } else if text::same(name, "LensPosition") {
        Some("Focus Distance")
    } else {
        None
    }
}

/// Titles of the controls that shape the image.
pub open spec fn image_title(name: Seq<char>) -> Option<Seq<char>> {
    if name == "Brightness"@ {
        Some("Brightness"@)
    } else if name == "Contrast"@ {
        Some("Contrast"@)
    } else if name == "Gamma"@ {
        Some("Gamma"@)
    } else if name == "Sharpness"@ {
        Some("Sharpness"@)
    } else if name == "NoiseReductionMode"@ {
        Some("Noise Reduction"@)
    } else if name == "HdrMode"@ {
        Some("HDR"@)
    } else {
        None
    }
}

fn image_caption(name: &str) -> (t: Option<&'static str>)
    ensures
        match t {
            Some(t) => image_title(name@) == Some(t@) && !t@.contains('\0'),
            None => image_title(name@) is None,
        },
{
    proof {
        reveal_strlit("Brightness");
        reveal_strlit("Contrast");
        reveal_strlit("Gamma");
        reveal_strlit("Sharpness");
        reveal_strlit("Noise Reduction");
        reveal_strlit("HDR");
    }
    if text::same(name, "Brightness") {
        Some("Brightness")
    } else if text::same(name, "Contrast") {
        Some("Contrast")
    } else if text::same(name, "Gamma") {
        Some("Gamma")
    } else if text::same(name, "Sharpness") {
        Some("Sharpness")
    } else if text::same(name, "NoiseReductionMode") {
        Some("Noise Reduction")
    } else if text::same(name, "HdrMode") {
        Some("HDR")
    } else {
        None
    }
}

/// What is known of a control by its name: the group it belongs to, and its
/// title before translation.
pub open spec fn known_as(name: Seq<char>) -> (Option<Seq<char>>, Group) {
    if exposure_title(name) is Some {
        (exposure_title(name), Group::Exposure)
    } else if colour_title(name) is Some {
        (colour_title(name), Group::Colour)
    } else if focus_title(name) is Some {
        (focus_title(name), Group::Focus)
    } else if image_title(name) is Some {
        (image_title(name), Group::Image)
    } else {
        (None, Group::Other)
    }
}

/// The title of a control before translation, where it has one of its own,
/// and its group.
pub fn caption(name: &str) -> (k: (Option<&'static str>, Group))
    ensures
        match k.0 {
            Some(t) => known_as(name@) == (Some(t@), k.1) && !t@.contains('\0'),
            None => known_as(name@) == (None::<Seq<char>>, k.1),
        },
{
    if let Some(t) = exposure_caption(name) {
        (Some(t), Group::Exposure)
    } else if let Some(t) = colour_caption(name) {
        (Some(t), Group::Colour)
    } else if let Some(t) = focus_caption(name) {
        (Some(t), Group::Focus)
    } else if let Some(t) = image_caption(name) {
        (Some(t), Group::Image)
    } else {
        (None, Group::Other)
    }
}

/// A name with a space before each capital letter but the first.
pub open spec fn spaced(name: Seq<char>) -> Seq<char>
    decreases name.len(),
{
    if name.len() == 0 {
        name
    } else if name.len() > 1 && uppercase(name.last()) {
        spaced(name.drop_last()).push(' ').push(name.last())
    } else {
        spaced(name.drop_last()).push(name.last())
    }
}

/// "AeFlickerMode" -> "Ae Flicker Mode", for controls nobody taught us about.
pub fn split_camel(name: &str) -> (out: String)
    ensures
        out@ == spaced(name@),
{
    let v: Vec<char> = text::chars(name);
    let mut out: String = String::new();
    let mut i: usize = 0;
    assert(v@.take(0) =~= out@);
    while i < v.len()
        invariant
            i <= v@.len(),
            out@ == spaced(v@.take(i as int)),
        decreases v@.len() - i,
    {
        assert(v@.take(i + 1).drop_last() =~= v@.take(i as int));
        if i > 0 && v[i].is_uppercase() {
            out.push(' ');
        }
        out.push(v[i]);
        i = i + 1;
    }
    assert(v@.take(i as int) =~= v@);
    out
}

/// What the panel calls a control, and where it puts it.
#[derive(Debug)]
pub struct Known {
    pub title: String,
    pub group: Group,
}

/// The title, given the caption in the user's language where there is one.
pub fn titled(name: &str, local: Option<String>) -> (title: String)
    ensures
        title@ == match local {
            Some(l) => l@,
            None => spaced(name@),
        },
{
    match local {
        Some(l) => l,
        None => split_camel(name),
    }
}

/// What is known of a control by its name. A title that is known comes in the
/// user's language.
pub fn known(name: &str) -> (k: Known)
    ensures
        k.group == known_as(name@).1,
        known_as(name@).0 is None ==> k.title@ == spaced(name@),
{
    let (title, group) = caption(name);
    let local: Option<String> = match title {
        Some(t) => Some(translated(t)),
        None => None,
    };
    Known { title: titled(name, local), group }
}

/// Exposure spans four orders of magnitude, so its slider is logarithmic.
pub fn log_scale(name: &str) -> (log: bool)
    ensures
        log == (name@ == "ExposureTime"@),
{
    text::same(name, "ExposureTime")
}

/// The row that edits a control.
#[derive(Debug)]
pub enum Row {
    /// A choice of frame rates between these.
    FrameRate(Number, Number),
    Switch(bool),
    /// A choice among the control's labels, with this one selected.
    Labels(usize),
    /// A slider for each element, with these values.
    Sliders(Vec<Number>),
    /// Nothing can edit it.
    Hidden,
}

/// `len` values: those of `def`, then `fill`.
pub open spec fn filled(def: Seq<Number>, len: nat, fill: Number) -> Seq<Number> {
    Seq::new(
        len,
        |i: int|
            if i < def.len() {
                def[i]
            } else {
                fill
            },
    )
}

pub fn padded(def: &Vec<Number>, len: usize, fill: Number) -> (v: Vec<Number>)
    ensures
        v@ == filled(def@, len as nat, fill),
{
    let mut v: Vec<Number> = Vec::new();
    let mut i: usize = 0;
    while i < len
        invariant
            i <= len,
            v@ == filled(def@, i as nat, fill),
        decreases len - i,
    {
        v.push(if i < def.len() { def[i] } else { fill });
        assert(v@ =~= filled(def@, (i + 1) as nat, fill));
        i = i + 1;
    }
    v
}

/// The first default, as an integer without its fraction; 0 where there is
/// none.
pub open spec fn default_integer(def: Seq<Number>) -> int {
    if def.len() > 0 {
        def[0].integer()
    } else {
        0
    }
}

/// Where a value first stands among labels; 0 where it does not.
pub open spec fn label_at(enums: Seq<(i32, Seq<char>)>, v: int) -> int {
    let i = value_at(enums, v);
    if i < enums.len() {
        i
    } else {
        0
    }
}

pub open spec fn value_at(enums: Seq<(i32, Seq<char>)>, v: int) -> int
    decreases enums.len(),
{
    if enums.len() == 0 || enums[0].0 == v {
        0
    } else {
        1 + value_at(enums.drop_first(), v)
    }
}

proof fn lemma_value_at(enums: Seq<(i32, Seq<char>)>, v: int, n: int)
    requires
        0 <= n <= enums.len(),
        forall|i: int| 0 <= i < n ==> (#[trigger] enums[i]).0 != v,
        n == enums.len() || enums[n].0 == v,
    ensures
        value_at(enums, v) == n,
    decreases enums.len(),
{
    if n > 0 {
        let t = enums.drop_first();
        assert forall|i: int| 0 <= i < n - 1 implies (#[trigger] t[i]).0 != v by {
            assert(t[i] == enums[i + 1]);
        }
        assert(enums[0].0 != v);
        lemma_value_at(t, v, n - 1);
    }
}

/// `row` is the row that edits `c`: frame durations as rates where the camera
/// tells its rates, a single truth as a switch, a labelled integer as a
/// choice, up to four numbers of some range as sliders.
pub open spec fn edits(row: Row, c: Control, fps: Option<(Number, Number)>) -> bool {
    if c.name == "FrameDurationLimits"@ {
        match fps {
            Some((lo, hi)) => row == Row::FrameRate(lo, hi),
            None => row is Hidden,
        }
    } else if c.kind == Kind::Bool && c.len == 1 {
        row == Row::Switch(c.def.len() > 0 && on(c.def[0]))
    } else if c.kind == Kind::Int && c.len == 1 && c.enums.len() > 0 {
        row == Row::Labels(label_at(c.enums, default_integer(c.def)) as usize)
    } else if (c.kind == Kind::Int || c.kind == Kind::Float) && c.min.below(c.max) && 1 <= c.len <= 4 {
        row matches Row::Sliders(v) && v@ == filled(c.def, c.len as nat, c.min)
    } else {
        row is Hidden
    }
}

/// Choose the row for a control.
pub fn row(c: &ControlDesc, fps: Option<(Number, Number)>) -> (r: Row)
    ensures
        edits(r, c@, fps),
{
    if text::same(c.name.as_str(), "FrameDurationLimits") {
        return match fps {
            Some((lo, hi)) => Row::FrameRate(lo, hi),
            None => Row::Hidden,
        };
    }
    if c.kind == Kind::Bool && c.len == 1 {
        return Row::Switch(c.def.len() > 0 && !c.def[0].is_zero());
    }
    if c.kind == Kind::Int && c.len == 1 && c.enums.len() > 0 {
        let def: i32 = if c.def.len() > 0 { c.def[0].to_integer() } else { 0 };
        let ghost labels = c@.enums;
        let mut i: usize = 0;
        while i < c.enums.len() && c.enums[i].0 != def
            invariant
                i <= c.enums@.len(),
                labels == c@.enums,
                forall|j: int| 0 <= j < i ==> (#[trigger] labels[j]).0 != def,
            decreases c.enums@.len() - i,
        {
            i = i + 1;
        }
        proof {
            lemma_value_at(labels, def as int, i as int);
        }
        return Row::Labels(if i < c.enums.len() { i } else { 0 });
    }
    if (c.kind == Kind::Int || c.kind == Kind::Float) && c.min.is_below(c.max) && 1 <= c.len && c.len <= 4 {
        return Row::Sliders(padded(&c.def, c.len, c.min));
    }
    Row::Hidden
}

/// The title of slider `i` of a control, before translation where it has a
/// name of its own.
#[derive(Debug)]
pub enum SliderTitle {
    /// The control's own title.
    Control,
    Red,
    Blue,
    /// The control's title and a number from 1.
    Numbered(usize),
}

pub open spec fn slider_named(name: Seq<char>, len: usize, i: usize) -> SliderTitle {
    if len == 1 {
        SliderTitle::Control
    } else if len == 2 && name == "ColourGains"@ {
        if i == 0 {
            SliderTitle::Red
        } else {
            SliderTitle::Blue
        }
    } else {
        SliderTitle::Numbered((i + 1) as usize)
    }
}

pub fn slider_title(c: &ControlDesc, i: usize) -> (t: SliderTitle)
    requires
        i < c.len,
    ensures
        t == slider_named(c.name@, c.len, i),
{
    if c.len == 1 {
        SliderTitle::Control
    } else if c.len == 2 && text::same(c.name.as_str(), "ColourGains") {
        if i == 0 {
            SliderTitle::Red
        } else {
            SliderTitle::Blue
        }
    } else {
        SliderTitle::Numbered(i + 1)
    }
}

/// The frame rates to offer.
pub open spec fn rates() -> Seq<u32> {
    seq![240, 120, 60, 30, 24, 15]
}

/// Those of the first `n` rates that lie between two bounds.
pub open spec fn rates_between(low: Number, high: Number, n: nat) -> Seq<u32>
    decreases n,
{
    if n == 0 {
        Seq::empty()
    } else {
        let rest = rates_between(low, high, (n - 1) as nat);
        let f = Number::of(rates()[n - 1] as int);
        if !f.below(low) && !high.below(f) && !low.not_a_number() && !high.not_a_number() {
            rest.push(rates()[n - 1])
        } else {
            rest
        }
    }
}

/// The frame rates to offer between two bounds, fastest first.
pub fn fps_choices(low: Number, high: Number) -> (v: Vec<u32>)
    ensures
        v@ == rates_between(low, high, 6),
{
    let all: [u32; 6] = [240, 120, 60, 30, 24, 15];
    let mut v: Vec<u32> = Vec::new();
    let mut i: usize = 0;
    assert(all@ =~= rates());
    while i < 6
        invariant
            i <= 6,
            all@ == rates(),
            v@ == rates_between(low, high, i as nat),
        decreases 6 - i,
    {
        let f: Number = Number::from_i64(all[i] as i64);
        if low.is_same(low) && high.is_same(high) && !f.is_below(low) && !high.is_below(f) {
            v.push(all[i]);
        }
        i = i + 1;
    }
    v
}

/// A frame's duration at a rate, in microseconds, to the nearest.
pub fn frame_duration(rate: u32) -> (us: u32)
    requires
        rate > 0,
    ensures
        us == (2_000_000 + rate) / (2 * rate),
{
    let (n, d) = (2_000_000 + rate as u64, 2 * rate as u64);
    assert(n / d <= n) by (nonlinear_arith)
        requires
            d >= 1,
            n >= 0,
    ;
    assert(n / d <= 0xffff_ffff) by (nonlinear_arith)
        requires
            n == 2_000_000 + rate,
            d == 2 * rate,
            rate >= 1,
            rate <= 0xffff_ffff,
    ;
    (n / d) as u32
}

/// The values the panel holds, by the names of the controls, and the names of
/// those that have sliders.
#[derive(Debug)]
pub struct Panel {
    pub values: Metadata,
    pub sliders: Vec<String>,
}

/// Which rows can be edited: manual values only mean something while their
/// automatic mode is off.
#[derive(Debug, Clone, Copy, PartialEq, Eq, Structural)]
pub struct Editable {
    pub exposure_time: bool,
    pub analogue_gain: bool,
    pub exposure_value: bool,
    /// Colour temperature and colour gains.
    pub colour: bool,
    pub lens_position: bool,
}

/// A mode is set to something else than its first value.
pub open spec fn switched(values: Map<Seq<char>, Seq<Number>>, name: Seq<char>) -> Option<bool> {
    match reading(values, name) {
        Some(v) => Some(on(v)),
        None => None,
    }
}

pub open spec fn editable(values: Map<Seq<char>, Seq<Number>>) -> Editable {
    let ae = switched(values, "AeEnable"@);
    let exposure = match switched(values, "ExposureTimeMode"@) {
        Some(m) => m,
        None => ae == Some(false),
    };
    let gain = match switched(values, "AnalogueGainMode"@) {
        Some(m) => m,
        None => ae == Some(false),
    };
    Editable {
        exposure_time: exposure,
        analogue_gain: gain,
        exposure_value: ae != Some(false) && !(exposure && gain),
        colour: switched(values, "AwbEnable"@) != Some(true),
        lens_position: switched(values, "AfMode"@) != Some(true),
    }
}

/// The defaults of the first `n` controls, by name.
pub open spec fn defaults(controls: Seq<Control>, n: nat) -> Map<Seq<char>, Seq<Number>>
    decreases n,
{
    if n == 0 {
        Map::empty()
    } else {
        defaults(controls, (n - 1) as nat).insert(controls[n - 1].name, controls[n - 1].def)
    }
}

/// Controls that get sliders.
pub open spec fn has_sliders(c: Control) -> bool {
    &&& c.name != "FrameDurationLimits"@
    &&& !(c.kind == Kind::Int && c.len == 1 && c.enums.len() > 0)
    &&& c.kind == Kind::Int || c.kind == Kind::Float
    &&& c.min.below(c.max)
    &&& 1 <= c.len <= 4
}

/// The names of the first `n` controls that get sliders.
pub open spec fn slider_names(controls: Seq<Control>, n: nat) -> Seq<Seq<char>>
    decreases n,
{
    if n == 0 {
        Seq::empty()
    } else if has_sliders(controls[n - 1]) {
        slider_names(controls, (n - 1) as nat).push(controls[n - 1].name)
    } else {
        slider_names(controls, (n - 1) as nat)
    }
}

pub open spec fn names(s: Seq<String>) -> Seq<Seq<char>> {
    s.map_values(|n: String| n@)
}

/// One row of the panel, with what it is called and where it goes.
#[derive(Debug)]
pub struct Entry {
    pub known: Known,
    pub row: Row,
}

/// The rows for a camera's controls, in the order of the controls, and the
/// values they start with.
pub fn build(controls: &Vec<ControlDesc>, fps: Option<(Number, Number)>) -> (r: (Panel, Vec<Entry>))
    ensures
        r.0.values@ == defaults(views(controls@), controls@.len()),
        names(r.0.sliders@) == slider_names(views(controls@), controls@.len()),
        r.1@.len() == controls@.len(),
        forall|i: int|
            0 <= i < controls@.len() ==> {
                &&& edits((#[trigger] r.1@[i]).row, controls@[i]@, fps)
                &&& r.1@[i].known.group == known_as(controls@[i]@.name).1
                &&& known_as(controls@[i]@.name).0 is None ==> r.1@[i].known.title@ == spaced(controls@[i]@.name)
            },
{
    let ghost all = views(controls@);
    let mut values: Metadata = Metadata::new();
    let mut sliders: Vec<String> = Vec::new();
    let mut rows: Vec<Entry> = Vec::new();
    let mut i: usize = 0;
    assert(names(sliders@) =~= Seq::empty());
    while i < controls.len()
        invariant
            i <= controls@.len(),
            all == views(controls@),
            values@ == defaults(all, i as nat),
            names(sliders@) == slider_names(all, i as nat),
            rows@.len() == i,
            forall|j: int|
                0 <= j < i ==> {
                    &&& edits((#[trigger] rows@[j]).row, controls@[j]@, fps)
                    &&& rows@[j].known.group == known_as(controls@[j]@.name).1
                    &&& known_as(controls@[j]@.name).0 is None ==> rows@[j].known.title@ == spaced(controls@[j]@.name)
                },
        decreases controls@.len() - i,
    {
        let c: &ControlDesc = &controls[i];
        assert(all[i as int] == c@);
        values.insert(c.name.clone(), crate::settings::copied(&c.def));
        let r: Row = row(c, fps);
        let ghost before = names(sliders@);
        if let Row::Sliders(_) = &r {
            sliders.push(c.name.clone());
            assert(names(sliders@) =~= before.push(c@.name));
        }
        rows.push(Entry { known: known(c.name.as_str()), row: r });
        i = i + 1;
    }
    (Panel { values, sliders }, rows)
}

impl Panel {
    /// A control's current value.
    pub fn value(&self, name: &str) -> (v: Option<Number>)
        ensures
            v == reading(self.values@, name@),
    {
        self.values.get(name)
    }

    /// A control was changed in the panel.
    pub fn changed(&mut self, name: &str, value: Vec<Number>)
        ensures
            final(self).values@ == old(self).values@.insert(name@, value@),
            final(self).sliders == old(self).sliders,
    {
        self.values.insert(String::from_str(name), value);
    }

    fn switch(&self, name: &str) -> (s: Option<bool>)
        ensures
            s == switched(self.values@, name@),
    {
        match self.value(name) {
            Some(v) => Some(!v.is_zero()),
            None => None,
        }
    }

    /// Which rows can be edited now.
    pub fn update_dependencies(&self) -> (e: Editable)
        ensures
            e == editable(self.values@),
    {
        let ae: Option<bool> = self.switch("AeEnable");
        let ae_off: bool = match ae {
            Some(v) => !v,
            None => false,
        };
        let exposure: bool = match self.switch("ExposureTimeMode") {
            Some(m) => m,
            None => ae_off,
        };
        let gain: bool = match self.switch("AnalogueGainMode") {
            Some(m) => m,
            None => ae_off,
        };
        let awb_on: bool = match self.switch("AwbEnable") {
            Some(v) => v,
            None => false,
        };
        let af_on: bool = match self.switch("AfMode") {
            Some(v) => v,
            None => false,
        };
        Editable {
            exposure_time: exposure,
            analogue_gain: gain,
            exposure_value: !ae_off && !(exposure && gain),
            colour: !awb_on,
            lens_position: !af_on,
        }
    }
}

/// A row's value is the camera's to choose: the row shows what it chose.
pub open spec fn automatic(e: Editable, name: Seq<char>) -> bool {
    ||| name == "ExposureTime"@ && !e.exposure_time
    ||| name == "AnalogueGain"@ && !e.analogue_gain
    ||| name == "ExposureValue"@ && !e.exposure_value
    ||| (name == "ColourTemperature"@ || name == "ColourGains"@) && !e.colour
    ||| name == "LensPosition"@ && !e.lens_position
}

fn is_automatic(e: &Editable, name: &str) -> (a: bool)
    ensures
        a == automatic(*e, name@),
{
    (text::same(name, "ExposureTime") && !e.exposure_time) || (text::same(name, "AnalogueGain") && !e.analogue_gain) || (
    text::same(name, "ExposureValue") && !e.exposure_value) || ((text::same(name, "ColourTemperature") || text::same(
        name,
        "ColourGains",
    )) && !e.colour) || (text::same(name, "LensPosition") && !e.lens_position)
}

/// What the first `n` slider rows show of a frame's metadata: the automatic
/// ones that it has a value for.
pub open spec fn shown(
    names: Seq<Seq<char>>,
    e: Editable,
    meta: Map<Seq<char>, Seq<Number>>,
    n: nat,
) -> Seq<(Seq<char>, Number)>
    decreases n,
{
    if n == 0 {
        Seq::empty()
    } else {
        let rest = shown(names, e, meta, (n - 1) as nat);
        match reading(meta, names[n - 1]) {
            Some(v) if automatic(e, names[n - 1]) => rest.push((names[n - 1], v)),
            _ => rest,
        }
    }
}

pub open spec fn readings(s: Seq<(String, Number)>) -> Seq<(Seq<char>, Number)> {
    s.map_values(|p: (String, Number)| (p.0@, p.1))
}

/// Which of the camera's choices the user has taken over.
#[derive(Debug, Clone, Copy, PartialEq, Eq, Structural)]
pub struct Manual {
    pub exposure: bool,
    pub gain: bool,
    pub white_balance: bool,
    pub focus: bool,
    /// Focus is for one scan.
    pub single: bool,
}

/// The control has the value whose label ends so.
pub open spec fn is_at(
    values: Map<Seq<char>, Seq<Number>>,
    controls: Seq<ControlDesc>,
    name: Seq<char>,
    ending: Seq<char>,
) -> bool {
    let i = index_named(controls, name);
    i < controls.len() && match (value_ending(controls[i].enums@, ending), reading(values, name)) {
        (Some(v), Some(at)) => at.alike(Number::of(v as int)),
        _ => false,
    }
}

pub open spec fn taken_over(values: Map<Seq<char>, Seq<Number>>, controls: Seq<ControlDesc>) -> Manual {
    Manual {
        exposure: editable(values).exposure_time,
        gain: editable(values).analogue_gain,
        white_balance: switched(values, "AwbEnable"@) == Some(false),
        focus: is_at(values, controls, "AfMode"@, "Manual"@),
        single: is_at(values, controls, "AfMode"@, "Auto"@),
    }
}

impl Panel {
    fn stands_at(&self, controls: &Vec<ControlDesc>, name: &str, ending: &str) -> (r: bool)
        ensures
            r == is_at(self.values@, controls@, name@, ending@),
    {
        match find_named(controls, name) {
            Some(i) => match (find_ending(&controls[i].enums, ending), self.value(name)) {
                (Some(v), Some(at)) => at.is_same(Number::from_i64(v as i64)),
                _ => false,
            },
            None => false,
        }
    }

    /// What the user has taken over, of a camera with these controls.
    pub fn manual(&self, controls: &Vec<ControlDesc>) -> (m: Manual)
        ensures
            m == taken_over(self.values@, controls@),
    {
        let e: Editable = self.update_dependencies();
        let balance: bool = match self.switch("AwbEnable") {
            Some(v) => !v,
            None => false,
        };
        Manual {
            exposure: e.exposure_time,
            gain: e.analogue_gain,
            white_balance: balance,
            focus: self.stands_at(controls, "AfMode", "Manual"),
            single: self.stands_at(controls, "AfMode", "Auto"),
        }
    }
}

impl Panel {
    /// While a value is automatic, its row shows what the camera chose: the
    /// rows, and the values to show.
    pub fn show_metadata(&self, meta: &Metadata) -> (out: Vec<(String, Number)>)
        ensures
            readings(out@) == shown(names(self.sliders@), editable(self.values@), meta@, self.sliders@.len()),
    {
        let e: Editable = self.update_dependencies();
        let ghost all = names(self.sliders@);
        let mut out: Vec<(String, Number)> = Vec::new();
        let mut i: usize = 0;
        assert(readings(out@) =~= Seq::empty());
        while i < self.sliders.len()
            invariant
                i <= self.sliders@.len(),
                all == names(self.sliders@),
                e == editable(self.values@),
                readings(out@) == shown(all, e, meta@, i as nat),
            decreases self.sliders@.len() - i,
        {
            let name: &str = self.sliders[i].as_str();
            assert(all[i as int] == name@);
            let ghost before = readings(out@);
            if is_automatic(&e, name) {
                if let Some(v) = meta.get(name) {
                    out.push((self.sliders[i].clone(), v));
                    assert(readings(out@) =~= before.push((name@, v)));
                }
            }
            i = i + 1;
        }
        out
    }
}

/// With exposure and gain both manual there is nothing to compensate, and
/// with automatic exposure on nothing but it sets them.
pub proof fn law_exposure_rows_exclude_each_other(values: Map<Seq<char>, Seq<Number>>)
    ensures
        !(editable(values).exposure_time && editable(values).analogue_gain && editable(values).exposure_value),
        switched(values, "AeEnable"@) == Some(true) && switched(values, "ExposureTimeMode"@) is None && switched(
            values,
            "AnalogueGainMode"@,
        ) is None ==> !editable(values).exposure_time && !editable(values).analogue_gain && editable(values).exposure_value,
{
}

/// The controls that set the exposure are grouped and titled as such.
pub proof fn law_exposure_controls_are_known()
    ensures
        known_as("AeEnable"@) == (Some("Automatic Exposure"@), Group::Exposure),
        known_as("ExposureTimeMode"@) == (Some("Shutter Speed Mode"@), Group::Exposure),
        known_as("ExposureTime"@) == (Some("Shutter Speed"@), Group::Exposure),
        known_as("AnalogueGainMode"@) == (Some("Sensitivity Mode"@), Group::Exposure),
        known_as("AnalogueGain"@) == (Some("Sensitivity"@), Group::Exposure),
        known_as("DigitalGain"@) == (Some("Digital Gain"@), Group::Exposure),
        known_as("ExposureValue"@) == (Some("Exposure Compensation"@), Group::Exposure),
        known_as("AeMeteringMode"@) == (Some("Metering"@), Group::Exposure),
        known_as("AeConstraintMode"@) == (Some("Exposure Constraint"@), Group::Exposure),
        known_as("AeExposureMode"@) == (Some("Exposure Program"@), Group::Exposure),
        known_as("AeFlickerMode"@) == (Some("Flicker Reduction"@), Group::Exposure),
        known_as("AeFlickerPeriod"@) == (Some("Flicker Period"@), Group::Exposure),
        known_as("FrameDurationLimits"@) == (Some("Frame Rate"@), Group::Exposure),
{
    reveal_strlit("AeEnable");
    assert("AeEnable"@.len() == 8);
    reveal_strlit("ExposureTimeMode");
    assert("ExposureTimeMode"@.len() == 16);
    reveal_strlit("ExposureTime");
    assert("ExposureTime"@.len() == 12);
    reveal_strlit("AnalogueGainMode");
    assert("AnalogueGainMode"@.len() == 16);
    reveal_strlit("AnalogueGain");
    assert("AnalogueGain"@.len() == 12);
    reveal_strlit("DigitalGain");
    assert("DigitalGain"@.len() == 11);
    reveal_strlit("ExposureValue");
    assert("ExposureValue"@.len() == 13);
    reveal_strlit("AeMeteringMode");
    assert("AeMeteringMode"@.len() == 14);
    reveal_strlit("AeConstraintMode");
    assert("AeConstraintMode"@.len() == 16);
    reveal_strlit("AeExposureMode");
    assert("AeExposureMode"@.len() == 14);
    reveal_strlit("AeFlickerMode");
    assert("AeFlickerMode"@.len() == 13);
    reveal_strlit("AeFlickerPeriod");
    assert("AeFlickerPeriod"@.len() == 15);
    reveal_strlit("FrameDurationLimits");
    assert("FrameDurationLimits"@.len() == 19);
    assert("AnalogueGainMode"@[0] != "ExposureTimeMode"@[0]);
    assert("AnalogueGain"@[0] != "ExposureTime"@[0]);
    assert("AeConstraintMode"@[0] != "ExposureTimeMode"@[0]);
    assert("AeConstraintMode"@[1] != "AnalogueGainMode"@[1]);
    assert("AeExposureMode"@[2] != "AeMeteringMode"@[2]);
    assert("AeFlickerMode"@[0] != "ExposureValue"@[0]);
}

/// The controls that set the colour are grouped and titled as such.
pub proof fn law_colour_controls_are_known()
    ensures
        known_as("AwbEnable"@) == (Some("Automatic White Balance"@), Group::Colour),
        known_as("AwbMode"@) == (Some("White Balance Preset"@), Group::Colour),
        known_as("ColourTemperature"@) == (Some("Colour Temperature"@), Group::Colour),
        known_as("ColourGains"@) == (Some("Colour Gains"@), Group::Colour),
        known_as("Saturation"@) == (Some("Saturation"@), Group::Colour),
{
    reveal_strlit("AeEnable");
    assert("AeEnable"@.len() == 8);
    reveal_strlit("ExposureTimeMode");
    assert("ExposureTimeMode"@.len() == 16);
    reveal_strlit("ExposureTime");
    assert("ExposureTime"@.len() == 12);
    reveal_strlit("AnalogueGainMode");
    assert("AnalogueGainMode"@.len() == 16);
    reveal_strlit("AnalogueGain");
    assert("AnalogueGain"@.len() == 12);
    reveal_strlit("DigitalGain");
    assert("DigitalGain"@.len() == 11);
    reveal_strlit("ExposureValue");
    assert("ExposureValue"@.len() == 13);
    reveal_strlit("AeMeteringMode");
    assert("AeMeteringMode"@.len() == 14);
    reveal_strlit("AeConstraintMode");
    assert("AeConstraintMode"@.len() == 16);
    reveal_strlit("AeExposureMode");
    assert("AeExposureMode"@.len() == 14);
    reveal_strlit("AeFlickerMode");
    assert("AeFlickerMode"@.len() == 13);
    reveal_strlit("AeFlickerPeriod");
    assert("AeFlickerPeriod"@.len() == 15);
    reveal_strlit("FrameDurationLimits");
    assert("FrameDurationLimits"@.len() == 19);
    reveal_strlit("AwbEnable");
    assert("AwbEnable"@.len() == 9);
    reveal_strlit("AwbMode");
    assert("AwbMode"@.len() == 7);
    reveal_strlit("ColourTemperature");
    assert("ColourTemperature"@.len() == 17);
    reveal_strlit("ColourGains");
    assert("ColourGains"@.len() == 11);
    reveal_strlit("Saturation");
    assert("Saturation"@.len() == 10);
    assert("ColourGains"@[0] != "DigitalGain"@[0]);
}

/// The controls that set the focus are grouped and titled as such.
pub proof fn law_focus_controls_are_known()
    ensures
        known_as("AfMode"@) == (Some("Focus Mode"@), Group::Focus),
        known_as("AfRange"@) == (Some("Focus Range"@), Group::Focus),
        known_as("AfSpeed"@) == (Some("Focus Speed"@), Group::Focus),
        known_as("AfMetering"@) == (Some("Focus Area"@), Group::Focus),
        known_as("AfTrigger"@) == (Some("Focus Trigger"@), Group::Focus),
        known_as("AfPause"@) == (Some("Pause Focus"@), Group::Focus),
        known_as("LensPosition"@) == (Some("Focus Distance"@), Group::Focus),
{
    reveal_strlit("AeEnable");
    assert("AeEnable"@.len() == 8);
    reveal_strlit("ExposureTimeMode");
    assert("ExposureTimeMode"@.len() == 16);
    reveal_strlit("ExposureTime");
    assert("ExposureTime"@.len() == 12);
    reveal_strlit("AnalogueGainMode");
    assert("AnalogueGainMode"@.len() == 16);
    reveal_strlit("AnalogueGain");
    assert("AnalogueGain"@.len() == 12);
    reveal_strlit("DigitalGain");
    assert("DigitalGain"@.len() == 11);
    reveal_strlit("ExposureValue");
    assert("ExposureValue"@.len() == 13);
    reveal_strlit("AeMeteringMode");
    assert("AeMeteringMode"@.len() == 14);
    reveal_strlit("AeConstraintMode");
    assert("AeConstraintMode"@.len() == 16);
    reveal_strlit("AeExposureMode");
    assert("AeExposureMode"@.len() == 14);
    reveal_strlit("AeFlickerMode");
    assert("AeFlickerMode"@.len() == 13);
    reveal_strlit("AeFlickerPeriod");
    assert("AeFlickerPeriod"@.len() == 15);
    reveal_strlit("FrameDurationLimits");
    assert("FrameDurationLimits"@.len() == 19);
    reveal_strlit("AwbEnable");
    assert("AwbEnable"@.len() == 9);
    reveal_strlit("AwbMode");
    assert("AwbMode"@.len() == 7);
    reveal_strlit("ColourTemperature");
    assert("ColourTemperature"@.len() == 17);
    reveal_strlit("ColourGains");
    assert("ColourGains"@.len() == 11);
    reveal_strlit("Saturation");
    assert("Saturation"@.len() == 10);
    reveal_strlit("AfMode");
    assert("AfMode"@.len() == 6);
    reveal_strlit("AfRange");
    assert("AfRange"@.len() == 7);
    reveal_strlit("AfSpeed");
    assert("AfSpeed"@.len() == 7);
    reveal_strlit("AfMetering");
    assert("AfMetering"@.len() == 10);
    reveal_strlit("AfTrigger");
    assert("AfTrigger"@.len() == 9);
    reveal_strlit("AfPause");
    assert("AfPause"@.len() == 7);
    reveal_strlit("LensPosition");
    assert("LensPosition"@.len() == 12);
    assert("AfRange"@[1] != "AwbMode"@[1]);
    assert("AfSpeed"@[1] != "AwbMode"@[1]);
    assert("AfSpeed"@[2] != "AfRange"@[2]);
    assert("AfMetering"@[0] != "Saturation"@[0]);
    assert("AfTrigger"@[1] != "AwbEnable"@[1]);
    assert("AfPause"@[1] != "AwbMode"@[1]);
    assert("AfPause"@[2] != "AfRange"@[2]);
    assert("AfPause"@[2] != "AfSpeed"@[2]);
    assert("LensPosition"@[0] != "ExposureTime"@[0]);
    assert("LensPosition"@[0] != "AnalogueGain"@[0]);
}

/// The controls that shape the image are grouped and titled as such.
pub proof fn law_image_controls_are_known()
    ensures
        known_as("Brightness"@) == (Some("Brightness"@), Group::Image),
        known_as("Contrast"@) == (Some("Contrast"@), Group::Image),
        known_as("Gamma"@) == (Some("Gamma"@), Group::Image),
        known_as("Sharpness"@) == (Some("Sharpness"@), Group::Image),
        known_as("NoiseReductionMode"@) == (Some("Noise Reduction"@), Group::Image),
        known_as("HdrMode"@) == (Some("HDR"@), Group::Image),
{
    reveal_strlit("AeEnable");
    assert("AeEnable"@.len() == 8);
    reveal_strlit("ExposureTimeMode");
    assert("ExposureTimeMode"@.len() == 16);
    reveal_strlit("ExposureTime");
    assert("ExposureTime"@.len() == 12);
    reveal_strlit("AnalogueGainMode");
    assert("AnalogueGainMode"@.len() == 16);
    reveal_strlit("AnalogueGain");
    assert("AnalogueGain"@.len() == 12);
    reveal_strlit("DigitalGain");
    assert("DigitalGain"@.len() == 11);
    reveal_strlit("ExposureValue");
    assert("ExposureValue"@.len() == 13);
    reveal_strlit("AeMeteringMode");
    assert("AeMeteringMode"@.len() == 14);
    reveal_strlit("AeConstraintMode");
    assert("AeConstraintMode"@.len() == 16);
    reveal_strlit("AeExposureMode");
    assert("AeExposureMode"@.len() == 14);
    reveal_strlit("AeFlickerMode");
    assert("AeFlickerMode"@.len() == 13);
    reveal_strlit("AeFlickerPeriod");
    assert("AeFlickerPeriod"@.len() == 15);
    reveal_strlit("FrameDurationLimits");
    assert("FrameDurationLimits"@.len() == 19);
    reveal_strlit("AwbEnable");
    assert("AwbEnable"@.len() == 9);
    reveal_strlit("AwbMode");
    assert("AwbMode"@.len() == 7);
    reveal_strlit("ColourTemperature");
    assert("ColourTemperature"@.len() == 17);
    reveal_strlit("ColourGains");
    assert("ColourGains"@.len() == 11);
    reveal_strlit("Saturation");
    assert("Saturation"@.len() == 10);
    reveal_strlit("AfMode");
    assert("AfMode"@.len() == 6);
    reveal_strlit("AfRange");
    assert("AfRange"@.len() == 7);
    reveal_strlit("AfSpeed");
    assert("AfSpeed"@.len() == 7);
    reveal_strlit("AfMetering");
    assert("AfMetering"@.len() == 10);
    reveal_strlit("AfTrigger");
    assert("AfTrigger"@.len() == 9);
    reveal_strlit("AfPause");
    assert("AfPause"@.len() == 7);
    reveal_strlit("LensPosition");
    assert("LensPosition"@.len() == 12);
    reveal_strlit("Brightness");
    assert("Brightness"@.len() == 10);
    reveal_strlit("Contrast");
    assert("Contrast"@.len() == 8);
    reveal_strlit("Gamma");
    assert("Gamma"@.len() == 5);
    reveal_strlit("Sharpness");
    assert("Sharpness"@.len() == 9);
    reveal_strlit("NoiseReductionMode");
    assert("NoiseReductionMode"@.len() == 18);
    reveal_strlit("HdrMode");
    assert("HdrMode"@.len() == 7);
    assert("Brightness"@[0] != "Saturation"@[0]);
    assert("Brightness"@[0] != "AfMetering"@[0]);
    assert("Contrast"@[0] != "AeEnable"@[0]);
    assert("Sharpness"@[0] != "AwbEnable"@[0]);
    assert("Sharpness"@[0] != "AfTrigger"@[0]);
    assert("HdrMode"@[0] != "AwbMode"@[0]);
    assert("HdrMode"@[0] != "AfRange"@[0]);
    assert("HdrMode"@[0] != "AfSpeed"@[0]);
    assert("HdrMode"@[0] != "AfPause"@[0]);
}

/// A control that has no title of its own has no group either, and one that
/// has a title has a group.
pub proof fn law_titles_come_with_groups(name: Seq<char>)
    ensures
        known_as(name).0 is None <==> known_as(name).1 == Group::Other,
{
}

/// Splitting a name takes nothing from it, and puts one space before each
/// capital letter but the first character.
pub proof fn law_names_split_at_capitals(name: Seq<char>, c: char)
    requires
        name.len() > 0,
    ensures
        spaced(seq![c]) == seq![c],
        uppercase(c) ==> spaced(name + seq![c]) == spaced(name) + seq![' ', c],
        !uppercase(c) ==> spaced(name + seq![c]) == spaced(name) + seq![c],
{
    assert(seq![c].drop_last() =~= Seq::empty());
    assert(spaced(Seq::<char>::empty()) =~= Seq::empty());
    assert((name + seq![c]).drop_last() =~= name);
    assert((name + seq![c]).last() == c);
    assert(spaced(seq![c]) =~= seq![c]);
    assert(spaced(name).push(' ').push(c) =~= spaced(name) + seq![' ', c]);
    assert(spaced(name).push(c) =~= spaced(name) + seq![c]);
}

/// A control of up to four unlabelled numbers, of some range, is edited by as
/// many sliders: each at its default, or at the lower end without one. No
/// other control is.
pub proof fn law_sliders_edit_numbers(row: Row, c: Control, fps: Option<(Number, Number)>)
    requires
        edits(row, c, fps),
    ensures
        row is Sliders <==> {
            &&& c.kind == Kind::Int || c.kind == Kind::Float
            &&& c.min.below(c.max)
            &&& c.len == 1 || c.len == 2 || c.len == 3 || c.len == 4
            &&& c.name != "FrameDurationLimits"@
            &&& c.kind == Kind::Float || c.len > 1 || c.enums.len() == 0
        },
        row is Sliders <==> has_sliders(c),
        row matches Row::Sliders(v) ==> {
            &&& v@.len() == c.len
            &&& forall|i: int| 0 <= i < v@.len() && i < c.def.len() ==> #[trigger] v@[i] == c.def[i]
            &&& forall|i: int| c.def.len() <= i < v@.len() ==> #[trigger] v@[i] == c.min
        },
{
}

/// A labelled integer without a default starts at its first label of 0.
pub proof fn law_labels_without_a_default_start_at_zero(row: Row, c: Control, fps: Option<(Number, Number)>, k: int)
    requires
        edits(row, c, fps),
        c.name != "FrameDurationLimits"@,
        c.kind == Kind::Int,
        c.len == 1,
        c.def.len() == 0,
        0 <= k < c.enums.len(),
        k <= usize::MAX,
        c.enums[k].0 == 0,
        forall|j: int| 0 <= j < k ==> (#[trigger] c.enums[j]).0 != 0,
    ensures
        row == Row::Labels(k as usize),
{
    lemma_value_at(c.enums, 0, k);
}

/// One truth is a switch, at its default; a labelled integer is a choice, at
/// the first label of its default, or the first where no label has that;
/// frame durations are a choice of the rates the camera tells.
pub proof fn law_rows_start_at_the_default(row: Row, c: Control, fps: Option<(Number, Number)>, k: int)
    requires
        edits(row, c, fps),
    ensures
        c.name == "FrameDurationLimits"@ ==> match fps {
            Some((lo, hi)) => row == Row::FrameRate(lo, hi),
            None => row is Hidden,
        },
        row matches Row::FrameRate(lo, hi) ==> c.name == "FrameDurationLimits"@ && fps == Some((lo, hi)),
        c.name != "FrameDurationLimits"@ && c.kind == Kind::Bool && c.len == 1 ==> row == Row::Switch(
            c.def.len() > 0 && c.def[0].rank() != 0 || c.def.len() > 0 && c.def[0].not_a_number(),
        ),
        row is Switch ==> c.kind == Kind::Bool && c.len == 1,
        c.kind == Kind::Other || c.kind == Kind::Bool && c.len != 1 ==> row is Hidden || row is FrameRate,
        c.name != "FrameDurationLimits"@ && c.kind == Kind::Int && c.len == 1 && c.def.len() > 0 && 0 <= k < c.enums.len()
            && c.enums[k].0 == c.def[0].integer() && k <= usize::MAX && (forall|j: int|
            0 <= j < k ==> (#[trigger] c.enums[j]).0 != c.def[0].integer()) ==> row == Row::Labels(k as usize),
        c.name != "FrameDurationLimits"@ && c.kind == Kind::Int && c.len == 1 && c.def.len() > 0 && c.enums.len() > 0 && (forall|
            j: int,
        |
            0 <= j < c.enums.len() ==> (#[trigger] c.enums[j]).0 != c.def[0].integer()) ==> row == Row::Labels(0),
{
    if c.def.len() > 0 && c.enums.len() > 0 {
        let d = c.def[0].integer();
        if 0 <= k < c.enums.len() && c.enums[k].0 == d && forall|j: int| 0 <= j < k ==> (#[trigger] c.enums[j]).0 != d {
            lemma_value_at(c.enums, d, k);
        }
        if forall|j: int| 0 <= j < c.enums.len() ==> (#[trigger] c.enums[j]).0 != d {
            lemma_value_at(c.enums, d, c.enums.len() as int);
        }
    }
    assert(c.def.len() > 0 ==> (c.def[0].not_a_number() ==> c.def[0].magnitude() > 0));
    assert((Number { bits: 0 }).rank() == 0 && !(Number { bits: 0 }).not_a_number());
}

/// A rate is offered exactly where it is one of the usual ones and neither
/// bound rules it out; a bound that is a rate itself does not.
pub proof fn law_rates_lie_between_the_bounds(low: Number, high: Number, f: u32)
    ensures
        rates_between(low, high, 6).contains(f) <==> {
            &&& f == 15 || f == 24 || f == 30 || f == 60 || f == 120 || f == 240
            &&& !low.not_a_number() && !high.not_a_number()
            &&& low.rank() <= Number::of(f as int).rank() <= high.rank()
        },
{
    lemma_rates(low, high, 6, f);
    crate::settings::lemma_integer_is_a_number(f as int);
    if rates().take(6).contains(f) {
        let i = choose|i: int| 0 <= i < 6 && rates().take(6)[i] == f;
    }
    let r = rates().take(6);
    assert(r[0] == 240 && r[1] == 120 && r[2] == 60 && r[3] == 30 && r[4] == 24 && r[5] == 15);
}

proof fn lemma_rates(low: Number, high: Number, n: nat, f: u32)
    requires
        n <= 6,
    ensures
        rates_between(low, high, n).contains(f) <==> {
            &&& rates().take(n as int).contains(f)
            &&& !Number::of(f as int).below(low) && !high.below(Number::of(f as int)) && !low.not_a_number() && !high.not_a_number()
        },
    decreases n,
{
    if n > 0 {
        let m = (n - 1) as nat;
        lemma_rates(low, high, m, f);
        let (a, b) = (rates().take(m as int), rates().take(n as int));
        let (s, t) = (rates_between(low, high, m), rates_between(low, high, n));
        assert(b =~= a.push(rates()[n - 1]));
        assert(b[n - 1] == rates()[n - 1]);
        if a.contains(f) {
            let i = choose|i: int| 0 <= i < a.len() && a[i] == f;
            assert(b[i] == f);
        }
        if b.contains(f) && f != rates()[n - 1] {
            let i = choose|i: int| 0 <= i < b.len() && b[i] == f;
            assert(a[i] == f);
        }
        if s.contains(f) {
            let i = choose|i: int| 0 <= i < s.len() && s[i] == f;
            assert(t[i] == f);
        }
        if t.contains(f) {
            let i = choose|i: int| 0 <= i < t.len() && t[i] == f;
            if i < s.len() {
                assert(s[i] == f);
            }
        }
        if f == rates()[n - 1] && t.len() > s.len() {
            assert(t[s.len() as int] == f);
        }
    }
}

/// Rates are offered fastest first.
pub proof fn law_rates_fall(low: Number, high: Number, i: int, j: int)
    ensures
        0 <= i < j < rates_between(low, high, 6).len() ==> rates_between(low, high, 6)[i] > rates_between(low, high, 6)[j],
{
    lemma_rates_fall(low, high, 6);
}

proof fn lemma_rates_fall(low: Number, high: Number, n: nat)
    requires
        n <= 6,
    ensures
        forall|i: int, j: int|
            0 <= i < j < rates_between(low, high, n).len() ==> (#[trigger] rates_between(low, high, n)[i]) > (
            #[trigger] rates_between(low, high, n)[j]),
        forall|i: int|
            0 <= i < rates_between(low, high, n).len() && n > 0 ==> (#[trigger] rates_between(low, high, n)[i]) >= rates()[n - 1],
    decreases n,
{
    if n > 0 {
        let m = (n - 1) as nat;
        lemma_rates_fall(low, high, m);
        assert(m > 0 ==> rates()[m - 1] > rates()[n - 1]);
        let (s, t) = (rates_between(low, high, m), rates_between(low, high, n));
        assert forall|i: int| 0 <= i < t.len() implies (#[trigger] t[i]) >= rates()[n - 1] by {
            if i < s.len() {
                assert(t[i] == s[i]);
            }
        }
        assert forall|i: int, j: int| 0 <= i < j < t.len() implies (#[trigger] t[i]) > (#[trigger] t[j]) by {
            assert(t[i] == s[i]);
            if j < s.len() {
                assert(s[i] > s[j]);
            } else {
                assert(m > 0 && s[i] >= rates()[m - 1]);
            }
        }
    }
}

/// A mode of its own decides for exposure time, and one for gain, whatever
/// the switch for both is at; without it, the value is manual where the
/// switch is known to be off.
pub proof fn law_own_modes_go_first(values: Map<Seq<char>, Seq<Number>>)
    ensures
        ({
            let e = editable(values);
            let off = reading(values, "AeEnable"@) matches Some(v) && v.alike(Number::of(0));
            &&& reading(values, "ExposureTimeMode"@) matches Some(v) ==> e.exposure_time == !v.alike(Number::of(0))
            &&& reading(values, "ExposureTimeMode"@) is None ==> e.exposure_time == off
            &&& reading(values, "AnalogueGainMode"@) matches Some(v) ==> e.analogue_gain == !v.alike(Number::of(0))
            &&& reading(values, "AnalogueGainMode"@) is None ==> e.analogue_gain == off
            &&& e.exposure_value == (!off && !(e.exposure_time && e.analogue_gain))
        }),
{
    assert(Number::of(0).bits == 0);
}

/// Colour and lens are the user's unless their automatic mode is on; what a
/// camera has no mode for is.
pub proof fn law_colour_and_lens_are_free_without_a_mode(values: Map<Seq<char>, Seq<Number>>)
    ensures
        editable(values).colour <==> !(reading(values, "AwbEnable"@) matches Some(v) && !v.alike(Number::of(0))),
        editable(values).lens_position <==> !(reading(values, "AfMode"@) matches Some(v) && !v.alike(Number::of(0))),
{
    assert(Number::of(0).bits == 0);
}

/// Each row that depends on a mode is automatic exactly where it cannot be
/// edited, and no other row is.
pub proof fn law_rows_are_edited_or_automatic(e: Editable, name: Seq<char>)
    ensures
        automatic(e, "ExposureTime"@) <==> !e.exposure_time,
        automatic(e, "AnalogueGain"@) <==> !e.analogue_gain,
        automatic(e, "ExposureValue"@) <==> !e.exposure_value,
        automatic(e, "ColourTemperature"@) <==> !e.colour,
        automatic(e, "ColourGains"@) <==> !e.colour,
        automatic(e, "LensPosition"@) <==> !e.lens_position,
        automatic(e, name) ==> name == "ExposureTime"@ || name == "AnalogueGain"@ || name == "ExposureValue"@ || name
            == "ColourTemperature"@ || name == "ColourGains"@ || name == "LensPosition"@,
{
    reveal_strlit("ExposureTime");
    reveal_strlit("AnalogueGain");
    reveal_strlit("ExposureValue");
    reveal_strlit("ColourTemperature");
    reveal_strlit("ColourGains");
    reveal_strlit("LensPosition");
    assert("ExposureTime"@[0] != "AnalogueGain"@[0]);
    assert("ExposureTime"@[0] != "LensPosition"@[0]);
    assert("AnalogueGain"@[0] != "LensPosition"@[0]);
    assert("ExposureTime"@.len() == 12 && "AnalogueGain"@.len() == 12 && "LensPosition"@.len() == 12);
    assert("ExposureValue"@.len() == 13 && "ColourTemperature"@.len() == 17 && "ColourGains"@.len() == 11);
}

/// A slider row shows a frame's value exactly where the value is automatic
/// and the frame has it.
pub proof fn law_automatic_rows_follow_the_camera(
    names: Seq<Seq<char>>,
    e: Editable,
    meta: Map<Seq<char>, Seq<Number>>,
    n: nat,
    name: Seq<char>,
    v: Number,
)
    requires
        n <= names.len(),
    ensures
        shown(names, e, meta, n).contains((name, v)) <==> {
            &&& names.take(n as int).contains(name)
            &&& automatic(e, name)
            &&& reading(meta, name) == Some(v)
        },
    decreases n,
{
    if n > 0 {
        let m = (n - 1) as nat;
        law_automatic_rows_follow_the_camera(names, e, meta, m, name, v);
        let (a, b) = (names.take(m as int), names.take(n as int));
        let (s, t) = (shown(names, e, meta, m), shown(names, e, meta, n));
        assert(b =~= a.push(names[n - 1]));
        assert(b[n - 1] == names[n - 1]);
        if a.contains(name) {
            let i = choose|i: int| 0 <= i < a.len() && a[i] == name;
            assert(b[i] == name);
        }
        if b.contains(name) && name != names[n - 1] {
            let i = choose|i: int| 0 <= i < b.len() && b[i] == name;
            assert(a[i] == name);
        }
        if s.contains((name, v)) {
            let i = choose|i: int| 0 <= i < s.len() && s[i] == (name, v);
            assert(t[i] == (name, v));
        }
        if t.contains((name, v)) {
            let i = choose|i: int| 0 <= i < t.len() && t[i] == (name, v);
            if i < s.len() {
                assert(s[i] == (name, v));
            }
        }
        if name == names[n - 1] && t.len() > s.len() {
            assert(t[s.len() as int].0 == name);
        }
    }
}

/// The panel starts with each control's default, and has a slider for each
/// control that gets one, in order.
pub proof fn law_panel_starts_at_the_defaults(controls: Seq<Control>, n: nat, other: Seq<char>)
    requires
        0 < n <= controls.len(),
    ensures
        ({
            let (c, before) = (controls[n - 1], defaults(controls, (n - 1) as nat));
            let all = defaults(controls, n);
            &&& all.dom().contains(c.name) && all[c.name] == c.def
            &&& other != c.name ==> reading(all, other) == reading(before, other)
            &&& defaults(controls, 0).dom().is_empty()
        }),
        has_sliders(controls[n - 1]) ==> slider_names(controls, n).last() == controls[n - 1].name && slider_names(
            controls,
            n,
        ).drop_last() == slider_names(controls, (n - 1) as nat),
        !has_sliders(controls[n - 1]) ==> slider_names(controls, n) == slider_names(controls, (n - 1) as nat),
{
    let before = slider_names(controls, (n - 1) as nat);
    assert(before.push(controls[n - 1].name).drop_last() =~= before);
    assert(defaults(controls, 0).dom() =~= Set::empty());
}

/// Sliders of one control take its title, the two of colour gains those of
/// their colours, and any others their number from 1.
pub proof fn law_sliders_are_told_apart(name: Seq<char>, len: usize, i: usize)
    requires
        i < len,
    ensures
        len == 1 <==> slider_named(name, len, i) is Control,
        slider_named(name, len, i) is Red <==> name == "ColourGains"@ && len == 2 && i == 0,
        slider_named(name, len, i) is Blue <==> name == "ColourGains"@ && len == 2 && i == 1,
        slider_named(name, len, i) matches SliderTitle::Numbered(k) ==> k == i + 1,
{
}

/// Focus is taken over where its mode is at the manual label, and for one
/// scan where it is at the automatic one; white balance where it is known to
/// be off.
pub proof fn law_focus_is_taken_over_at_its_label(
    values: Map<Seq<char>, Seq<Number>>,
    controls: Seq<ControlDesc>,
    k: int,
    m: int,
)
    requires
        crate::settings::first_of_name(controls, k),
        controls[k].name@ == "AfMode"@,
    ensures
        reading(values, "AfMode"@) is None ==> !taken_over(values, controls).focus && !taken_over(values, controls).single,
        reading(values, "AfMode"@) matches Some(v) ==> {
            &&& crate::settings::first_ending(controls[k].enums@, m, "Manual"@) ==> taken_over(values, controls).focus == v.alike(
                Number::of(controls[k].enums@[m].0 as int),
            )
            &&& crate::settings::first_ending(controls[k].enums@, m, "Auto"@) ==> taken_over(values, controls).single == v.alike(
                Number::of(controls[k].enums@[m].0 as int),
            )
        },
        taken_over(values, controls).white_balance <==> (reading(values, "AwbEnable"@) matches Some(v) && v.alike(Number::of(0))),
        taken_over(values, controls).exposure == editable(values).exposure_time,
        taken_over(values, controls).gain == editable(values).analogue_gain,
{
    crate::settings::lemma_first(controls, k, m, "AfMode"@, "Manual"@, Seq::empty());
    crate::settings::lemma_first(controls, k, m, "AfMode"@, "Auto"@, Seq::empty());
    assert(Number::of(0).bits == 0);
}

} // verus!
