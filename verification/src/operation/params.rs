//! Operation parameters as the JSON they were written in: an object of named values, each
//! null, a boolean, a number (kept as its JSON text), a string, an array of numbers, or
//! anything else (kept as its JSON text). Typed parameters are read from it strictly: every
//! field known, every required field present, every value of its type.
use crate::operation::geometry::{
    Anchor, CanvasParams, CropParams, FlipAxis, FlipParams, Interpolation, ResizeParams, RgbaColor,
};
use crate::operation::adjustments::Channel;
use crate::operation::decimal::{number_in_tenths, tenths_within};
use crate::text::text_eq;
use vstd::prelude::*;

verus! {

/// One parameter value.
#[derive(Debug)]
pub enum ParamValue {
    Null,
    Bool(bool),
    /// A JSON number, as its JSON text.
    Number(String),
    Text(String),
    /// An array whose items are all numbers, each as its JSON text.
    Numbers(Vec<String>),
    /// A nonempty array whose items are all arrays of two numbers, each as its JSON text.
    Pairs(Vec<(String, String)>),
    /// Any other array or object, as its JSON text.
    Other(String),
}

pub enum ParamValueView {
    Null,
    Bool(bool),
    Number(Seq<char>),
    Text(Seq<char>),
    Numbers(Seq<Seq<char>>),
    Pairs(Seq<(Seq<char>, Seq<char>)>),
    Other(Seq<char>),
}

pub open spec fn pair_texts(v: Seq<(String, String)>) -> Seq<(Seq<char>, Seq<char>)> {
    v.map_values(|p: (String, String)| (p.0@, p.1@))
}

pub open spec fn texts(v: Seq<String>) -> Seq<Seq<char>> {
    v.map_values(|s: String| s@)
}

impl View for ParamValue {
    type V = ParamValueView;

    open spec fn view(&self) -> ParamValueView {
        match self {
            ParamValue::Null => ParamValueView::Null,
            ParamValue::Bool(b) => ParamValueView::Bool(*b),
            ParamValue::Number(t) => ParamValueView::Number(t@),
            ParamValue::Text(t) => ParamValueView::Text(t@),
            ParamValue::Numbers(v) => ParamValueView::Numbers(texts(v@)),
            ParamValue::Pairs(v) => ParamValueView::Pairs(pair_texts(v@)),
            ParamValue::Other(t) => ParamValueView::Other(t@),
        }
    }
}

fn clone_texts(v: &Vec<String>) -> (r: Vec<String>)
    ensures
        texts(r@) == texts(v@),
{
    let mut r: Vec<String> = Vec::new();
    let mut i: usize = 0;
    while i < v.len()
        invariant
            i <= v@.len(),
            r@.len() == i,
            forall|j: int| 0 <= j < i ==> (#[trigger] r@[j])@ == v@[j]@,
        decreases v@.len() - i,
    {
        r.push(v[i].clone());
        i += 1;
    }
    assert(texts(r@) =~= texts(v@));
    r
}

fn clone_pairs(v: &Vec<(String, String)>) -> (r: Vec<(String, String)>)
    ensures
        pair_texts(r@) == pair_texts(v@),
{
    let mut r: Vec<(String, String)> = Vec::new();
    let mut i: usize = 0;
    while i < v.len()
        invariant
            i <= v@.len(),
            r@.len() == i,
            forall|j: int| 0 <= j < i ==> (#[trigger] r@[j]).0@ == v@[j].0@ && r@[j].1@ == v@[j].1@,
        decreases v@.len() - i,
    {
        r.push((v[i].0.clone(), v[i].1.clone()));
        i += 1;
    }
    assert(pair_texts(r@) =~= pair_texts(v@));
    r
}

impl Clone for ParamValue {
    fn clone(&self) -> (r: Self)
        ensures
            r@ == self@,
    {
        match self {
            ParamValue::Null => ParamValue::Null,
            ParamValue::Bool(b) => ParamValue::Bool(*b),
            ParamValue::Number(t) => ParamValue::Number(t.clone()),
            ParamValue::Text(t) => ParamValue::Text(t.clone()),
            ParamValue::Numbers(v) => ParamValue::Numbers(clone_texts(v)),
            ParamValue::Pairs(v) => ParamValue::Pairs(clone_pairs(v)),
            ParamValue::Other(t) => ParamValue::Other(t.clone()),
        }
    }
}

/// The parameters of one step: an object of named values (in the order written), or any
/// other JSON value, as its JSON text.
#[derive(Debug)]
pub enum Params {
    Object(Vec<(String, ParamValue)>),
    Other(String),
}

pub enum ParamsView {
    Object(Seq<(Seq<char>, ParamValueView)>),
    Other(Seq<char>),
}

pub open spec fn entries_view(v: Seq<(String, ParamValue)>) -> Seq<(Seq<char>, ParamValueView)> {
    v.map_values(|e: (String, ParamValue)| (e.0@, e.1@))
}

impl View for Params {
    type V = ParamsView;

    open spec fn view(&self) -> ParamsView {
        match self {
            Params::Object(v) => ParamsView::Object(entries_view(v@)),
            Params::Other(t) => ParamsView::Other(t@),
        }
    }
}

impl Clone for Params {
    fn clone(&self) -> (r: Self)
        ensures
            r@ == self@,
    {
        match self {
            Params::Object(v) => {
                let mut r: Vec<(String, ParamValue)> = Vec::new();
                let mut i: usize = 0;
                while i < v.len()
                    invariant
                        i <= v@.len(),
                        r@.len() == i,
                        forall|j: int| 0 <= j < i ==> (#[trigger] r@[j]).0@ == v@[j].0@ && r@[j].1@ == v@[j].1@,
                    decreases v@.len() - i,
                {
                    r.push((v[i].0.clone(), v[i].1.clone()));
                    i += 1;
                }
                assert(entries_view(r@) =~= entries_view(v@));
                Params::Object(r)
            },
            Params::Other(t) => Params::Other(t.clone()),
        }
    }
}

impl Params {
    /// No parameters: the empty object.
    pub fn empty() -> (p: Self)
        ensures
            p@ == ParamsView::Object(Seq::empty()),
    {
        let v: Vec<(String, ParamValue)> = Vec::new();
        assert(entries_view(v@) =~= Seq::empty());
        Params::Object(v)
    }

    /// Whether these are the empty object.
    pub fn is_empty_object(&self) -> (r: bool)
        ensures
            r == (self@ == ParamsView::Object(Seq::empty())),
    {
        match self {
            Params::Object(v) => {
                if v.len() == 0 {
                    assert(entries_view(v@) =~= Seq::empty());
                    true
                } else {
                    assert(entries_view(v@).len() != 0);
                    false
                }
            },
            Params::Other(_) => false,
        }
    }
}

/// The value of the first field named `k`.
pub open spec fn field(p: Seq<(Seq<char>, ParamValueView)>, k: Seq<char>) -> Option<ParamValueView>
    decreases p.len(),
{
    if p.len() == 0 {
        None
    } else if p[0].0 == k {
        Some(p[0].1)
    } else {
        field(p.drop_first(), k)
    }
}

/// The fields that operation `op` reads; identity reads none.
pub open spec fn key_allowed(op: Seq<char>, k: Seq<char>) -> bool {
    if op == "crop"@ {
        k == "x"@ || k == "y"@ || k == "width"@ || k == "height"@
    } else if op == "resize"@ {
        k == "width"@ || k == "height"@ || k == "filter"@
    } else if op == "rotate"@ {
        k == "degrees"@ || k == "expand"@ || k == "filter"@ || k == "background"@
    } else if op == "flip"@ {
        k == "axis"@
    } else if op == "canvas"@ {
        k == "width"@ || k == "height"@ || k == "anchor"@ || k == "background"@
    } else if op == "levels"@ {
        k == "channel"@ || adjustment_fields(op).contains(k)
    } else if op == "curves"@ {
        k == "channel"@ || k == "points"@
    } else {
        adjustment_fields(op).contains(k)
    }
}

/// The numeric fields of a photo adjustment, in order; grayscale, invert and curves have
/// none.
pub open spec fn adjustment_fields(op: Seq<char>) -> Seq<Seq<char>> {
    if op == "adjust"@ {
        seq!["exposure"@, "brightness"@, "contrast"@, "saturation"@]
    } else if op == "levels"@ {
        seq!["input_black"@, "input_white"@, "gamma"@, "output_black"@, "output_white"@]
    } else if op == "blur"@ {
        seq!["sigma"@]
    } else if op == "sharpen"@ {
        seq!["sigma"@, "amount"@]
    } else {
        Seq::empty()
    }
}

/// Every field is one that operation `op` reads.
pub open spec fn only(p: Seq<(Seq<char>, ParamValueView)>, op: Seq<char>) -> bool {
    forall|i: int| 0 <= i < p.len() ==> key_allowed(op, #[trigger] p[i].0)
}

pub open spec fn digit_value(c: char) -> Option<nat> {
    if '0' <= c && c <= '9' {
        Some((c as nat - '0' as nat) as nat)
    } else {
        None
    }
}

/// The value of a string of decimal digits.
pub open spec fn digits_value(t: Seq<char>) -> Option<nat>
    decreases t.len(),
{
    if t.len() == 0 {
        Some(0)
    } else {
        match (digits_value(t.drop_last()), digit_value(t.last())) {
            (Some(v), Some(d)) => Some(v * 10 + d),
            _ => None,
        }
    }
}

/// A JSON number that is an integer in `0..=max`.
pub open spec fn integer_text(t: Seq<char>, max: nat) -> Option<nat> {
    match digits_value(t) {
        Some(v) => if t.len() > 0 && v <= max {
            Some(v)
        } else {
            None
        },
        None => None,
    }
}

/// The integer `0..=max` that the JSON number `t` writes, if it is one.
pub fn parse_integer(t: &str, max: u32) -> (r: Option<u32>)
    ensures
        match r {
            Some(v) => integer_text(t@, max as nat) == Some(v as nat),
            None => integer_text(t@, max as nat) is None,
        },
{
    let n = t.unicode_len();
    if n == 0 {
        return None;
    }
    let mut value: u64 = 0;
    let mut big = false;
    let mut i: usize = 0;
    while i < n
        invariant
            n == t@.len(),
            i <= n,
            !big ==> digits_value(t@.take(i as int)) == Some(value as nat) && value <= max,
            big ==> match digits_value(t@.take(i as int)) {
                Some(v) => v > max,
                None => true,
            },
        decreases n - i,
    {
        let c = t.get_char(i);
        assert(t@.take(i + 1).drop_last() =~= t@.take(i as int));
        assert(t@.take(i + 1).last() == c);
        if !('0' <= c && c <= '9') {
            proof {
                lemma_digits_none_stays(t@, (i + 1) as nat);
            }
            return None;
        }
        if !big {
            let d = (c as u32 - '0' as u32) as u64;
            value = value * 10 + d;
            if value > max as u64 {
                big = true;
            }
        }
        i += 1;
    }
    assert(t@.take(n as int) =~= t@);
    if big {
        None
    } else {
        Some(value as u32)
    }
}

proof fn lemma_digits_none_stays(t: Seq<char>, i: nat)
    requires
        i <= t.len(),
        digits_value(t.take(i as int)) is None,
    ensures
        digits_value(t) is None,
    decreases t.len() - i,
{
    if i < t.len() {
        assert(t.take((i + 1) as int).drop_last() =~= t.take(i as int));
        lemma_digits_none_stays(t, i + 1);
    } else {
        assert(t.take(i as int) =~= t);
    }
}

pub open spec fn u32_field(p: Seq<(Seq<char>, ParamValueView)>, k: Seq<char>) -> Option<u32> {
    match field(p, k) {
        Some(ParamValueView::Number(t)) => match integer_text(t, u32::MAX as nat) {
            Some(v) => Some(v as u32),
            None => None,
        },
        _ => None,
    }
}

/// An optional size: absent or null is `Some(None)`, an integer is `Some(Some(_))`, anything
/// else is `None`.
pub open spec fn optional_u32_field(p: Seq<(Seq<char>, ParamValueView)>, k: Seq<char>) -> Option<Option<u32>> {
    match field(p, k) {
        None => Some(None),
        Some(ParamValueView::Null) => Some(None),
        Some(ParamValueView::Number(t)) => match integer_text(t, u32::MAX as nat) {
            Some(v) => Some(Some(v as u32)),
            None => None,
        },
        _ => None,
    }
}

pub open spec fn bool_field(p: Seq<(Seq<char>, ParamValueView)>, k: Seq<char>) -> Option<bool> {
    match field(p, k) {
        Some(ParamValueView::Bool(b)) => Some(b),
        _ => None,
    }
}

pub open spec fn interpolation_named(t: Seq<char>) -> Option<Interpolation> {
    if t == "nearest"@ {
        Some(Interpolation::Nearest)
    } else if t == "bilinear"@ {
        Some(Interpolation::Bilinear)
    } else {
        None
    }
}

pub open spec fn axis_named(t: Seq<char>) -> Option<FlipAxis> {
    if t == "horizontal"@ {
        Some(FlipAxis::Horizontal)
    } else if t == "vertical"@ {
        Some(FlipAxis::Vertical)
    } else {
        None
    }
}

pub open spec fn anchor_named(t: Seq<char>) -> Option<Anchor> {
    if t == "top_left"@ {
        Some(Anchor::TopLeft)
    } else if t == "top"@ {
        Some(Anchor::Top)
    } else if t == "top_right"@ {
        Some(Anchor::TopRight)
    } else if t == "left"@ {
        Some(Anchor::Left)
    } else if t == "center"@ {
        Some(Anchor::Center)
    } else if t == "right"@ {
        Some(Anchor::Right)
    } else if t == "bottom_left"@ {
        Some(Anchor::BottomLeft)
    } else if t == "bottom"@ {
        Some(Anchor::Bottom)
    } else if t == "bottom_right"@ {
        Some(Anchor::BottomRight)
    } else {
        None
    }
}

pub open spec fn text_field(p: Seq<(Seq<char>, ParamValueView)>, k: Seq<char>) -> Option<Seq<char>> {
    match field(p, k) {
        Some(ParamValueView::Text(t)) => Some(t),
        _ => None,
    }
}

pub open spec fn filter_field(p: Seq<(Seq<char>, ParamValueView)>) -> Option<Interpolation> {
    match field(p, "filter"@) {
        Some(ParamValueView::Text(t)) => interpolation_named(t),
        _ => None,
    }
}

/// A color written as four integers `0..=255`: red, green, blue, alpha.
pub open spec fn color_field(p: Seq<(Seq<char>, ParamValueView)>, k: Seq<char>) -> Option<RgbaColor> {
    match field(p, k) {
        Some(ParamValueView::Numbers(ns)) => if ns.len() == 4 && integer_text(ns[0], 255) is Some && integer_text(
            ns[1],
            255,
        ) is Some && integer_text(ns[2], 255) is Some && integer_text(ns[3], 255) is Some {
            Some(
                RgbaColor(
                    [
                        integer_text(ns[0], 255)->0 as u8,
                        integer_text(ns[1], 255)->0 as u8,
                        integer_text(ns[2], 255)->0 as u8,
                        integer_text(ns[3], 255)->0 as u8,
                    ],
                ),
            )
        } else {
            None
        },
        _ => None,
    }
}

/// Crop parameters: `x`, `y`, `width`, `height`, a positive rectangle within `u32`.
pub open spec fn crop_params(p: Seq<(Seq<char>, ParamValueView)>) -> Option<CropParams> {
    if only(p, "crop"@) && u32_field(p, "x"@) is Some && u32_field(p, "y"@) is Some && u32_field(
        p,
        "width"@,
    ) is Some && u32_field(p, "height"@) is Some {
        let c = CropParams {
            x: u32_field(p, "x"@)->0,
            y: u32_field(p, "y"@)->0,
            width: u32_field(p, "width"@)->0,
            height: u32_field(p, "height"@)->0,
        };
        if c.valid() {
            Some(c)
        } else {
            None
        }
    } else {
        None
    }
}

/// Resize parameters: optional `width` and `height` (at least one, each positive) and
/// `filter`.
pub open spec fn resize_params(p: Seq<(Seq<char>, ParamValueView)>) -> Option<ResizeParams> {
    if only(p, "resize"@) && optional_u32_field(p, "width"@) is Some && optional_u32_field(p, "height"@) is Some
        && filter_field(p) is Some {
        let r = ResizeParams {
            width: optional_u32_field(p, "width"@)->0,
            height: optional_u32_field(p, "height"@)->0,
            filter: filter_field(p)->0,
        };
        if r.valid() {
            Some(r)
        } else {
            None
        }
    } else {
        None
    }
}

/// Flip parameters: `axis`.
pub open spec fn flip_params(p: Seq<(Seq<char>, ParamValueView)>) -> Option<FlipParams> {
    if only(p, "flip"@) && text_field(p, "axis"@) is Some && axis_named(text_field(p, "axis"@)->0) is Some {
        Some(FlipParams { axis: axis_named(text_field(p, "axis"@)->0)->0 })
    } else {
        None
    }
}

/// Canvas parameters: positive `width` and `height`, `anchor` and `background`.
pub open spec fn canvas_params(p: Seq<(Seq<char>, ParamValueView)>) -> Option<CanvasParams> {
    if only(p, "canvas"@) && u32_field(p, "width"@) is Some && u32_field(p, "height"@) is Some && text_field(
        p,
        "anchor"@,
    ) is Some && anchor_named(text_field(p, "anchor"@)->0) is Some && color_field(p, "background"@) is Some
        && u32_field(p, "width"@)->0 > 0 && u32_field(p, "height"@)->0 > 0 {
        Some(
            CanvasParams {
                width: u32_field(p, "width"@)->0,
                height: u32_field(p, "height"@)->0,
                anchor: anchor_named(text_field(p, "anchor"@)->0)->0,
                background: color_field(p, "background"@)->0,
            },
        )
    } else {
        None
    }
}

/// Rotation parameters as written: `degrees` (a JSON number in [-360, 360], as its text),
/// `expand`, `filter` and `background`.
pub struct RotateView {
    pub degrees: Seq<char>,
    pub expand: bool,
    pub filter: Interpolation,
    pub background: RgbaColor,
}

pub open spec fn number_field(p: Seq<(Seq<char>, ParamValueView)>, k: Seq<char>) -> Option<Seq<char>> {
    match field(p, k) {
        Some(ParamValueView::Number(t)) => Some(t),
        _ => None,
    }
}

pub open spec fn rotate_params(p: Seq<(Seq<char>, ParamValueView)>) -> Option<RotateView> {
    if only(p, "rotate"@) && number_field(p, "degrees"@) is Some && tenths_within(
        number_field(p, "degrees"@)->0,
        -3600,
        3600,
    ) && bool_field(p, "expand"@) is Some && filter_field(p) is Some && color_field(p, "background"@) is Some {
        Some(
            RotateView {
                degrees: number_field(p, "degrees"@)->0,
                expand: bool_field(p, "expand"@)->0,
                filter: filter_field(p)->0,
                background: color_field(p, "background"@)->0,
            },
        )
    } else {
        None
    }
}

pub open spec fn channel_named(t: Seq<char>) -> Option<Channel> {
    if t == "rgb"@ {
        Some(Channel::Rgb)
    } else if t == "red"@ {
        Some(Channel::Red)
    } else if t == "green"@ {
        Some(Channel::Green)
    } else if t == "blue"@ {
        Some(Channel::Blue)
    } else {
        None
    }
}

/// Whether the photo adjustment `op` edits one selected channel.
pub open spec fn channel_needed(op: Seq<char>) -> bool {
    op == "levels"@ || op == "curves"@
}

/// The allowed range of each numeric field of a photo adjustment, in tenths, parallel to
/// `adjustment_fields`: exposure [-20, 20], brightness [-1, 1], contrast and saturation
/// [0, 10]; levels endpoints [0, 1] and gamma [0.1, 10]; sigma [0, 100], amount [0, 10].
pub open spec fn adjustment_ranges(op: Seq<char>) -> Seq<(int, int)> {
    if op == "adjust"@ {
        seq![(-200, 200), (-10, 10), (0, 100), (0, 100)]
    } else if op == "levels"@ {
        seq![(0, 10), (0, 10), (1, 100), (0, 10), (0, 10)]
    } else if op == "blur"@ {
        seq![(0, 1000)]
    } else if op == "sharpen"@ {
        seq![(0, 1000), (0, 100)]
    } else {
        Seq::empty()
    }
}

/// Curve control points: every coordinate in [0, 1], the first input 0 and the last 1.
pub open spec fn curve_points_ok(ps: Seq<(Seq<char>, Seq<char>)>) -> bool {
    &&& forall|i: int| 0 <= i < ps.len() ==> tenths_within((#[trigger] ps[i]).0, 0, 10) && tenths_within(ps[i].1, 0, 10)
    &&& ps.len() > 0 ==> tenths_within(ps[0].0, 0, 0) && tenths_within(ps.last().0, 10, 10)
}

/// Photo adjustment parameters as written: the channel (levels and curves), the numeric
/// fields as JSON numbers in the order of `adjustment_fields`, and the curve points.
pub struct AdjustmentView {
    pub channel: Option<Channel>,
    pub values: Seq<Seq<char>>,
    pub points: Seq<(Seq<char>, Seq<char>)>,
}

pub open spec fn channel_field(p: Seq<(Seq<char>, ParamValueView)>) -> Option<Channel> {
    match text_field(p, "channel"@) {
        Some(t) => channel_named(t),
        None => None,
    }
}

pub open spec fn points_field(p: Seq<(Seq<char>, ParamValueView)>) -> Option<Seq<(Seq<char>, Seq<char>)>> {
    match field(p, "points"@) {
        Some(ParamValueView::Pairs(ps)) => if 2 <= ps.len() <= 256 && curve_points_ok(ps) {
            Some(ps)
        } else {
            None
        },
        _ => None,
    }
}

/// The parameters of photo adjustment `op`: exactly its fields, each numeric one a JSON
/// number in its range, a channel where it selects one, and 2 to 256 points for curves, each
/// coordinate in [0, 1], from input 0 to input 1. How the levels endpoints and the curve
/// inputs compare with each other is checked on the floating-point values.
pub open spec fn adjustment_params(op: Seq<char>, p: Seq<(Seq<char>, ParamValueView)>) -> Option<AdjustmentView> {
    let fields = adjustment_fields(op);
    if !only(p, op) || !(forall|i: int|
        0 <= i < fields.len() ==> number_field(p, #[trigger] fields[i]) is Some && tenths_within(
            number_field(p, fields[i])->0,
            adjustment_ranges(op)[i].0,
            adjustment_ranges(op)[i].1,
        )) {
        None
    } else if channel_needed(op) && channel_field(p) is None {
        None
    } else if op == "curves"@ && points_field(p) is None {
        None
    } else {
        Some(
            AdjustmentView {
                channel: if channel_needed(op) {
                    channel_field(p)
                } else {
                    None
                },
                values: Seq::new(fields.len(), |i: int| number_field(p, fields[i])->0),
                points: if op == "curves"@ {
                    points_field(p)->0
                } else {
                    Seq::empty()
                },
            },
        )
    }
}

/// The first field named `k`, found in the exec entries.
pub fn find_field<'a>(p: &'a Vec<(String, ParamValue)>, k: &str) -> (r: Option<&'a ParamValue>)
    ensures
        match r {
            Some(v) => field(entries_view(p@), k@) == Some(v@),
            None => field(entries_view(p@), k@) is None,
        },
{
    let ghost e = entries_view(p@);
    assert(e.skip(0) =~= e);
    let mut i: usize = 0;
    while i < p.len()
        invariant
            e == entries_view(p@),
            i <= p@.len(),
            field(e, k@) == field(e.skip(i as int), k@),
        decreases p@.len() - i,
    {
        assert(e.skip(i as int)[0] == (p@[i as int].0@, p@[i as int].1@));
        if text_eq(p[i].0.as_str(), k) {
            return Some(&p[i].1);
        }
        assert(e.skip(i as int).drop_first() =~= e.skip(i + 1));
        i += 1;
    }
    assert(e.skip(i as int).len() == 0);
    None
}

fn key_allowed_exec(op: &str, k: &str) -> (r: bool)
    ensures
        r == key_allowed(op@, k@),
{
    let fields = adjustment_field_names(op);
    let numeric = contains_text(&fields, k);
    if text_eq(op, "crop") {
        text_eq(k, "x") || text_eq(k, "y") || text_eq(k, "width") || text_eq(k, "height")
    } else if text_eq(op, "resize") {
        text_eq(k, "width") || text_eq(k, "height") || text_eq(k, "filter")
    } else if text_eq(op, "rotate") {
        text_eq(k, "degrees") || text_eq(k, "expand") || text_eq(k, "filter") || text_eq(k, "background")
    } else if text_eq(op, "flip") {
        text_eq(k, "axis")
    } else if text_eq(op, "canvas") {
        text_eq(k, "width") || text_eq(k, "height") || text_eq(k, "anchor") || text_eq(k, "background")
    } else if text_eq(op, "levels") {
        text_eq(k, "channel") || numeric
    } else if text_eq(op, "curves") {
        text_eq(k, "channel") || text_eq(k, "points")
    } else {
        numeric
    }
}

/// The numeric fields of the photo adjustment `op`.
pub fn adjustment_field_names(op: &str) -> (r: Vec<&'static str>)
    ensures
        r@.map_values(|f: &str| f@) == adjustment_fields(op@),
{
    let r: Vec<&'static str> = if text_eq(op, "adjust") {
        vec!["exposure", "brightness", "contrast", "saturation"]
    } else if text_eq(op, "levels") {
        vec!["input_black", "input_white", "gamma", "output_black", "output_white"]
    } else if text_eq(op, "blur") {
        vec!["sigma"]
    } else if text_eq(op, "sharpen") {
        vec!["sigma", "amount"]
    } else {
        Vec::new()
    };
    assert(r@.map_values(|f: &str| f@) =~= adjustment_fields(op@));
    r
}

/// The ranges, in tenths, of the numeric fields of the photo adjustment `op`.
pub(crate) fn adjustment_field_ranges(op: &str) -> (r: Vec<(i64, i64)>)
    ensures
        r@.len() == adjustment_ranges(op@).len(),
        forall|i: int|
            0 <= i < r@.len() ==> (#[trigger] r@[i]).0 as int == adjustment_ranges(op@)[i].0 && r@[i].1 as int
                == adjustment_ranges(op@)[i].1 && -10000 < r@[i].0 <= r@[i].1 < 10000,
{
    if text_eq(op, "adjust") {
        vec![(-200, 200), (-10, 10), (0, 100), (0, 100)]
    } else if text_eq(op, "levels") {
        vec![(0, 10), (0, 10), (1, 100), (0, 10), (0, 10)]
    } else if text_eq(op, "blur") {
        vec![(0, 1000)]
    } else if text_eq(op, "sharpen") {
        vec![(0, 1000), (0, 100)]
    } else {
        Vec::new()
    }
}

fn contains_text(names: &Vec<&'static str>, k: &str) -> (r: bool)
    ensures
        r == names@.map_values(|f: &str| f@).contains(k@),
{
    let ghost m = names@.map_values(|f: &str| f@);
    let mut i: usize = 0;
    while i < names.len()
        invariant
            m == names@.map_values(|f: &str| f@),
            i <= names@.len(),
            forall|j: int| 0 <= j < i ==> m[j] != k@,
        decreases names@.len() - i,
    {
        if text_eq(names[i], k) {
            assert(m[i as int] == k@);
            return true;
        }
        i += 1;
    }
    false
}

/// Whether every field is one that operation `op` reads.
pub fn only_keys(p: &Vec<(String, ParamValue)>, op: &str) -> (r: bool)
    ensures
        r == only(entries_view(p@), op@),
{
    let ghost e = entries_view(p@);
    let mut i: usize = 0;
    while i < p.len()
        invariant
            e == entries_view(p@),
            i <= p@.len(),
            forall|j: int| 0 <= j < i ==> key_allowed(op@, #[trigger] e[j].0),
        decreases p@.len() - i,
    {
        assert(e[i as int].0 == p@[i as int].0@);
        if !key_allowed_exec(op, p[i].0.as_str()) {
            return false;
        }
        i += 1;
    }
    true
}

fn read_u32(p: &Vec<(String, ParamValue)>, k: &str) -> (r: Option<u32>)
    ensures
        r == u32_field(entries_view(p@), k@),
{
    match find_field(p, k) {
        Some(ParamValue::Number(t)) => parse_integer(t.as_str(), u32::MAX),
        _ => None,
    }
}

fn read_optional_u32(p: &Vec<(String, ParamValue)>, k: &str) -> (r: Option<Option<u32>>)
    ensures
        r == optional_u32_field(entries_view(p@), k@),
{
    match find_field(p, k) {
        None => Some(None),
        Some(ParamValue::Null) => Some(None),
        Some(ParamValue::Number(t)) => match parse_integer(t.as_str(), u32::MAX) {
            Some(v) => Some(Some(v)),
            None => None,
        },
        _ => None,
    }
}

fn read_bool(p: &Vec<(String, ParamValue)>, k: &str) -> (r: Option<bool>)
    ensures
        r == bool_field(entries_view(p@), k@),
{
    match find_field(p, k) {
        Some(ParamValue::Bool(b)) => Some(*b),
        _ => None,
    }
}

fn read_number<'a>(p: &'a Vec<(String, ParamValue)>, k: &str) -> (r: Option<&'a String>)
    ensures
        match r {
            Some(t) => number_field(entries_view(p@), k@) == Some(t@),
            None => number_field(entries_view(p@), k@) is None,
        },
{
    match find_field(p, k) {
        Some(ParamValue::Number(t)) => Some(t),
        _ => None,
    }
}

fn read_filter(p: &Vec<(String, ParamValue)>) -> (r: Option<Interpolation>)
    ensures
        r == filter_field(entries_view(p@)),
{
    match find_field(p, "filter") {
        Some(ParamValue::Text(t)) => if text_eq(t.as_str(), "nearest") {
            Some(Interpolation::Nearest)
        } else if text_eq(t.as_str(), "bilinear") {
            Some(Interpolation::Bilinear)
        } else {
            None
        },
        _ => None,
    }
}

fn read_axis(p: &Vec<(String, ParamValue)>) -> (r: Option<FlipAxis>)
    ensures
        r == match text_field(entries_view(p@), "axis"@) {
            Some(t) => axis_named(t),
            None => None,
        },
{
    match find_field(p, "axis") {
        Some(ParamValue::Text(t)) => if text_eq(t.as_str(), "horizontal") {
            Some(FlipAxis::Horizontal)
        } else if text_eq(t.as_str(), "vertical") {
            Some(FlipAxis::Vertical)
        } else {
            None
        },
        _ => None,
    }
}

fn anchor_from(t: &str) -> (r: Option<Anchor>)
    ensures
        r == anchor_named(t@),
{
    if text_eq(t, "top_left") {
        Some(Anchor::TopLeft)
    } else if text_eq(t, "top") {
        Some(Anchor::Top)
    } else if text_eq(t, "top_right") {
        Some(Anchor::TopRight)
    } else if text_eq(t, "left") {
        Some(Anchor::Left)
    } else if text_eq(t, "center") {
        Some(Anchor::Center)
    } else if text_eq(t, "right") {
        Some(Anchor::Right)
    } else if text_eq(t, "bottom_left") {
        Some(Anchor::BottomLeft)
    } else if text_eq(t, "bottom") {
        Some(Anchor::Bottom)
    } else if text_eq(t, "bottom_right") {
        Some(Anchor::BottomRight)
    } else {
        None
    }
}

fn read_anchor(p: &Vec<(String, ParamValue)>) -> (r: Option<Anchor>)
    ensures
        r == match text_field(entries_view(p@), "anchor"@) {
            Some(t) => anchor_named(t),
            None => None,
        },
{
    match find_field(p, "anchor") {
        Some(ParamValue::Text(t)) => anchor_from(t.as_str()),
        _ => None,
    }
}

fn read_color(p: &Vec<(String, ParamValue)>, k: &str) -> (r: Option<RgbaColor>)
    ensures
        r == color_field(entries_view(p@), k@),
{
    match find_field(p, k) {
        Some(ParamValue::Numbers(ns)) => {
            if ns.len() != 4 {
                return None;
            }
            assert(texts(ns@)[0] == ns@[0]@ && texts(ns@)[1] == ns@[1]@ && texts(ns@)[2] == ns@[2]@
                && texts(ns@)[3] == ns@[3]@);
            let r = parse_integer(ns[0].as_str(), 255);
            let g = parse_integer(ns[1].as_str(), 255);
            let b = parse_integer(ns[2].as_str(), 255);
            let a = parse_integer(ns[3].as_str(), 255);
            match (r, g, b, a) {
                (Some(r), Some(g), Some(b), Some(a)) => Some(RgbaColor([r as u8, g as u8, b as u8, a as u8])),
                _ => None,
            }
        },
        _ => None,
    }
}

/// Crop parameters read strictly from an object's fields.
pub fn crop_from(p: &Vec<(String, ParamValue)>) -> (r: Option<CropParams>)
    ensures
        r == crop_params(entries_view(p@)),
{
    if !only_keys(p, "crop") {
        return None;
    }
    match (read_u32(p, "x"), read_u32(p, "y"), read_u32(p, "width"), read_u32(p, "height")) {
        (Some(x), Some(y), Some(width), Some(height)) => {
            let c = CropParams { x, y, width, height };
            if c.validate().is_ok() {
                Some(c)
            } else {
                None
            }
        },
        _ => None,
    }
}

/// Resize parameters read strictly from an object's fields.
pub fn resize_from(p: &Vec<(String, ParamValue)>) -> (r: Option<ResizeParams>)
    ensures
        r == resize_params(entries_view(p@)),
{
    if !only_keys(p, "resize") {
        return None;
    }
    match (read_optional_u32(p, "width"), read_optional_u32(p, "height"), read_filter(p)) {
        (Some(width), Some(height), Some(filter)) => {
            let c = ResizeParams { width, height, filter };
            if c.validate().is_ok() {
                Some(c)
            } else {
                None
            }
        },
        _ => None,
    }
}

/// Flip parameters read strictly from an object's fields.
pub fn flip_from(p: &Vec<(String, ParamValue)>) -> (r: Option<FlipParams>)
    ensures
        r == flip_params(entries_view(p@)),
{
    if !only_keys(p, "flip") {
        return None;
    }
    match read_axis(p) {
        Some(axis) => Some(FlipParams { axis }),
        None => None,
    }
}

/// Canvas parameters read strictly from an object's fields.
pub fn canvas_from(p: &Vec<(String, ParamValue)>) -> (r: Option<CanvasParams>)
    ensures
        r == canvas_params(entries_view(p@)),
{
    if !only_keys(p, "canvas") {
        return None;
    }
    match (read_u32(p, "width"), read_u32(p, "height"), read_anchor(p), read_color(p, "background")) {
        (Some(width), Some(height), Some(anchor), Some(background)) => {
            if width == 0 || height == 0 {
                None
            } else {
                Some(CanvasParams { width, height, anchor, background })
            }
        },
        _ => None,
    }
}

/// Rotation parameters read strictly from an object's fields: the degrees as their JSON
/// text, the expand flag, the filter and the background.
pub fn rotate_from(p: &Vec<(String, ParamValue)>) -> (r: Option<(String, bool, Interpolation, RgbaColor)>)
    ensures
        match r {
            Some((d, e, f, b)) => rotate_params(entries_view(p@)) == Some(
                RotateView { degrees: d@, expand: e, filter: f, background: b },
            ),
            None => rotate_params(entries_view(p@)) is None,
        },
{
    if !only_keys(p, "rotate") {
        return None;
    }
    match (read_number(p, "degrees"), read_bool(p, "expand"), read_filter(p), read_color(p, "background")) {
        (Some(d), Some(e), Some(f), Some(b)) => if number_in_tenths(d.as_str(), -3600, 3600) {
            Some((d.clone(), e, f, b))
        } else {
            None
        },
        _ => None,
    }
}

fn read_channel(p: &Vec<(String, ParamValue)>) -> (r: Option<Channel>)
    ensures
        r == channel_field(entries_view(p@)),
{
    match find_field(p, "channel") {
        Some(ParamValue::Text(t)) => if text_eq(t.as_str(), "rgb") {
            Some(Channel::Rgb)
        } else if text_eq(t.as_str(), "red") {
            Some(Channel::Red)
        } else if text_eq(t.as_str(), "green") {
            Some(Channel::Green)
        } else if text_eq(t.as_str(), "blue") {
            Some(Channel::Blue)
        } else {
            None
        },
        _ => None,
    }
}

pub(crate) fn points_in_range(ps: &Vec<(String, String)>) -> (r: bool)
    ensures
        r == curve_points_ok(pair_texts(ps@)),
{
    let ghost v = pair_texts(ps@);
    let mut i: usize = 0;
    while i < ps.len()
        invariant
            v == pair_texts(ps@),
            i <= ps@.len(),
            forall|j: int| 0 <= j < i ==> tenths_within((#[trigger] v[j]).0, 0, 10) && tenths_within(v[j].1, 0, 10),
        decreases ps@.len() - i,
    {
        assert(v[i as int] == (ps@[i as int].0@, ps@[i as int].1@));
        if !number_in_tenths(ps[i].0.as_str(), 0, 10) || !number_in_tenths(ps[i].1.as_str(), 0, 10) {
            return false;
        }
        i += 1;
    }
    if ps.len() > 0 {
        let last = ps.len() - 1;
        assert(v[0] == (ps@[0].0@, ps@[0].1@));
        assert(v.last() == (ps@[last as int].0@, ps@[last as int].1@));
        number_in_tenths(ps[0].0.as_str(), 0, 0) && number_in_tenths(ps[last].0.as_str(), 10, 10)
    } else {
        true
    }
}

fn read_points(p: &Vec<(String, ParamValue)>) -> (r: Option<Vec<(String, String)>>)
    ensures
        match r {
            Some(ps) => points_field(entries_view(p@)) == Some(pair_texts(ps@)),
            None => points_field(entries_view(p@)) is None,
        },
{
    match find_field(p, "points") {
        Some(ParamValue::Pairs(ps)) => if 2 <= ps.len() && ps.len() <= 256 && points_in_range(ps) {
            Some(clone_pairs(ps))
        } else {
            None
        },
        _ => None,
    }
}

/// Photo adjustment parameters read strictly from an object's fields: the channel, the
/// numeric fields as their JSON texts, and the curve points.
pub fn adjustment_from(op: &str, p: &Vec<(String, ParamValue)>) -> (r: Option<
    (Option<Channel>, Vec<String>, Vec<(String, String)>),
>)
    ensures
        match r {
            Some((c, v, ps)) => adjustment_params(op@, entries_view(p@)) == Some(
                AdjustmentView { channel: c, values: texts(v@), points: pair_texts(ps@) },
            ),
            None => adjustment_params(op@, entries_view(p@)) is None,
        },
{
    let ghost e = entries_view(p@);
    if !only_keys(p, op) {
        return None;
    }
    let fields = adjustment_field_names(op);
    let ranges = adjustment_field_ranges(op);
    let ghost fs = adjustment_fields(op@);
    let ghost rs = adjustment_ranges(op@);
    assert(fs.len() == rs.len());
    let mut values: Vec<String> = Vec::new();
    let mut i: usize = 0;
    while i < fields.len()
        invariant
            e == entries_view(p@),
            fields@.map_values(|f: &str| f@) == fs,
            fs == adjustment_fields(op@),
            rs == adjustment_ranges(op@),
            ranges@.len() == rs.len(),
            fs.len() == rs.len(),
            forall|j: int|
                0 <= j < ranges@.len() ==> (#[trigger] ranges@[j]).0 as int == rs[j].0 && ranges@[j].1 as int
                    == rs[j].1 && -10000 < ranges@[j].0 <= ranges@[j].1 < 10000,
            i <= fields@.len(),
            values@.len() == i,
            forall|j: int|
                0 <= j < i ==> number_field(e, fs[j]) == Some((#[trigger] values@[j])@) && tenths_within(
                    values@[j]@,
                    rs[j].0,
                    rs[j].1,
                ),
        decreases fields@.len() - i,
    {
        assert(fs[i as int] == fields@[i as int]@);
        let (lo, hi) = ranges[i];
        match read_number(p, fields[i]) {
            Some(t) => {
                if !number_in_tenths(t.as_str(), lo, hi) {
                    return None;
                }
                values.push(t.clone());
            },
            None => {
                assert(number_field(e, fs[i as int]) is None);
                return None;
            },
        }
        i += 1;
    }
    let channel = if text_eq(op, "levels") || text_eq(op, "curves") {
        match read_channel(p) {
            Some(c) => Some(c),
            None => return None,
        }
    } else {
        None
    };
    let points = if text_eq(op, "curves") {
        match read_points(p) {
            Some(ps) => ps,
            None => return None,
        }
    } else {
        let none: Vec<(String, String)> = Vec::new();
        assert(pair_texts(none@) =~= Seq::<(Seq<char>, Seq<char>)>::empty());
        none
    };
    assert forall|j: int| 0 <= j < fs.len() implies number_field(e, #[trigger] fs[j]) is Some && tenths_within(
        number_field(e, fs[j])->0,
        adjustment_ranges(op@)[j].0,
        adjustment_ranges(op@)[j].1,
    ) by {
        assert(number_field(e, fs[j]) == Some(values@[j]@));
    }
    assert(texts(values@) =~= Seq::new(fs.len(), |j: int| number_field(e, fs[j])->0));
    Some((channel, values, points))
}

} // verus!
