//! The normal form of a validated operation: the authoring step that writes it with every
//! parameter explicit (an absent resize side as `null`, integers in plain decimal, numbers
//! otherwise as written), and the check that a committed step is written in that form.
use crate::document::{canvas_text, TargetId};
use crate::error::{ErrorCode, PicError};
use crate::operation::adjustments::Channel;
use crate::operation::decimal::tenths_within;
use crate::operation::geometry::{
    anchor_text, Anchor, CanvasParams, CropParams, FlipAxis, FlipParams, Interpolation, ResizeParams, RgbaColor,
};
use crate::operation::params::{
    adjustment_field_names, adjustment_fields, adjustment_params, adjustment_ranges, anchor_named, axis_named,
    canvas_params, channel_field, channel_named, channel_needed, color_field, crop_params, curve_points_ok, digit_value,
    digits_value, entries_view, field, find_field, flip_params, integer_text, interpolation_named, key_allowed,
    number_field, only, pair_texts, points_field, resize_params, rotate_params, texts, AdjustmentView, ParamValue,
    ParamValueView, Params, ParamsView, RotateView,
};
use crate::operation::{
    adjustment_named, adjustment_text, identity_text, operation_outcome, Adjustment, Operation, OperationSpec,
    OperationView, OP_VERSION,
};
use crate::text::{decimal, digit_char, push_decimal, text_eq};
use vstd::prelude::*;

verus! {

pub open spec fn interpolation_text(f: Interpolation) -> Seq<char> {
    match f {
        Interpolation::Nearest => "nearest"@,
        Interpolation::Bilinear => "bilinear"@,
    }
}

pub open spec fn axis_text(a: FlipAxis) -> Seq<char> {
    match a {
        FlipAxis::Horizontal => "horizontal"@,
        FlipAxis::Vertical => "vertical"@,
    }
}

pub open spec fn channel_text(c: Channel) -> Seq<char> {
    match c {
        Channel::Rgb => "rgb"@,
        Channel::Red => "red"@,
        Channel::Green => "green"@,
        Channel::Blue => "blue"@,
    }
}

/// An integer parameter, in plain decimal.
pub open spec fn count_value(n: u32) -> ParamValueView {
    ParamValueView::Number(decimal(n as nat))
}

/// An optional size: the integer, or `null`.
pub open spec fn size_value(n: Option<u32>) -> ParamValueView {
    match n {
        Some(v) => count_value(v),
        None => ParamValueView::Null,
    }
}

/// A color as its four components in plain decimal.
pub open spec fn color_value(c: RgbaColor) -> ParamValueView {
    ParamValueView::Numbers(
        seq![decimal(c.0[0] as nat), decimal(c.0[1] as nat), decimal(c.0[2] as nat), decimal(c.0[3] as nat)],
    )
}

/// The name an operation is written under.
pub open spec fn operation_name(o: OperationView) -> Seq<char> {
    match o {
        OperationView::Identity => identity_text(),
        OperationView::Crop(_) => "crop"@,
        OperationView::Resize(_) => "resize"@,
        OperationView::Rotate(_) => "rotate"@,
        OperationView::Flip(_) => "flip"@,
        OperationView::Canvas(_) => "canvas"@,
        OperationView::Adjustment(kind, _) => adjustment_text(kind),
    }
}

/// How many numeric fields of an adjustment are written: one per named field that has a
/// value.
pub open spec fn written_values(kind: Adjustment, values: Seq<Seq<char>>) -> nat {
    let n = adjustment_fields(adjustment_text(kind)).len();
    if n <= values.len() {
        n
    } else {
        values.len()
    }
}

/// The parameters of an operation in normal form, in this order: crop `x`, `y`, `width`,
/// `height`; resize `width`, `height` (`null` when absent), `filter`; rotate `degrees`,
/// `expand`, `filter`, `background`; flip `axis`; canvas `width`, `height`, `anchor`,
/// `background`; an adjustment's `channel` (where it has one), its numeric fields in their
/// order, and the curve's `points`.
pub open spec fn normal_params(o: OperationView) -> Seq<(Seq<char>, ParamValueView)> {
    match o {
        OperationView::Identity => Seq::empty(),
        OperationView::Crop(c) => seq![
            ("x"@, count_value(c.x)),
            ("y"@, count_value(c.y)),
            ("width"@, count_value(c.width)),
            ("height"@, count_value(c.height)),
        ],
        OperationView::Resize(r) => seq![
            ("width"@, size_value(r.width)),
            ("height"@, size_value(r.height)),
            ("filter"@, ParamValueView::Text(interpolation_text(r.filter))),
        ],
        OperationView::Rotate(v) => seq![
            ("degrees"@, ParamValueView::Number(v.degrees)),
            ("expand"@, ParamValueView::Bool(v.expand)),
            ("filter"@, ParamValueView::Text(interpolation_text(v.filter))),
            ("background"@, color_value(v.background)),
        ],
        OperationView::Flip(f) => seq![("axis"@, ParamValueView::Text(axis_text(f.axis)))],
        OperationView::Canvas(c) => seq![
            ("width"@, count_value(c.width)),
            ("height"@, count_value(c.height)),
            ("anchor"@, ParamValueView::Text(anchor_text(c.anchor))),
            ("background"@, color_value(c.background)),
        ],
        OperationView::Adjustment(kind, a) => {
            let fields = adjustment_fields(adjustment_text(kind));
            let channel = match a.channel {
                Some(ch) => seq![("channel"@, ParamValueView::Text(channel_text(ch)))],
                None => Seq::empty(),
            };
            let values = Seq::new(
                written_values(kind, a.values),
                |i: int| (fields[i], ParamValueView::Number(a.values[i])),
            );
            let points = if kind == Adjustment::Curves {
                seq![("points"@, ParamValueView::Pairs(a.points))]
            } else {
                Seq::empty()
            };
            channel + values + points
        },
    }
}

/// Two parameter objects that are the same JSON object, field order aside: as many fields,
/// each field of `n` found in `s` with the same value, and each field of `s` named in `n`.
pub open spec fn same_fields(n: Seq<(Seq<char>, ParamValueView)>, s: Seq<(Seq<char>, ParamValueView)>) -> bool {
    &&& n.len() == s.len()
    &&& forall|i: int| 0 <= i < n.len() ==> field(s, (#[trigger] n[i]).0) == Some(n[i].1)
    &&& forall|j: int| 0 <= j < s.len() ==> field(n, (#[trigger] s[j]).0) is Some
}

/// Whether the parameters `p` are the normal form of `o`.
pub open spec fn written_normally(o: OperationView, p: ParamsView) -> bool {
    p matches ParamsView::Object(f) && same_fields(normal_params(o), f)
}


/// No two fields share a name.
pub open spec fn distinct_keys(n: Seq<(Seq<char>, ParamValueView)>) -> bool {
    forall|i: int, j: int| 0 <= i < j < n.len() ==> (#[trigger] n[i]).0 != (#[trigger] n[j]).0
}

proof fn lemma_field_at(n: Seq<(Seq<char>, ParamValueView)>, i: int)
    requires
        0 <= i < n.len(),
        forall|j: int| 0 <= j < i ==> (#[trigger] n[j]).0 != n[i].0,
    ensures
        field(n, n[i].0) == Some(n[i].1),
    decreases i,
{
    if i > 0 {
        let m = n.drop_first();
        assert(n[0].0 != n[i].0);
        assert(m[i - 1] == n[i]);
        assert forall|j: int| 0 <= j < i - 1 implies (#[trigger] m[j]).0 != m[i - 1].0 by {
            assert(m[j] == n[j + 1]);
        }
        lemma_field_at(m, i - 1);
    }
}

proof fn lemma_field_missing(n: Seq<(Seq<char>, ParamValueView)>, k: Seq<char>)
    requires
        forall|j: int| 0 <= j < n.len() ==> (#[trigger] n[j]).0 != k,
    ensures
        field(n, k) is None,
    decreases n.len(),
{
    if n.len() > 0 {
        let m = n.drop_first();
        assert forall|j: int| 0 <= j < m.len() implies (#[trigger] m[j]).0 != k by {
            assert(m[j] == n[j + 1]);
        }
        lemma_field_missing(m, k);
    }
}

/// Fields with distinct names are each found with their value, and the object is the same
/// as itself.
proof fn lemma_distinct_fields(n: Seq<(Seq<char>, ParamValueView)>)
    requires
        distinct_keys(n),
    ensures
        forall|i: int| 0 <= i < n.len() ==> field(n, (#[trigger] n[i]).0) == Some(n[i].1),
        same_fields(n, n),
{
    assert forall|i: int| 0 <= i < n.len() implies field(n, (#[trigger] n[i]).0) == Some(n[i].1) by {
        lemma_field_at(n, i);
    }
}

proof fn lemma_decimal_value(n: nat)
    ensures
        decimal(n).len() > 0,
        digits_value(decimal(n)) == Some(n),
    decreases n,
{
    if n < 10 {
        let d = decimal(n);
        assert(d.drop_last() =~= Seq::<char>::empty());
        assert(digits_value(d.drop_last()) == Some(0nat));
        assert(digit_value(digit_char(n)) == Some(n));
    } else {
        lemma_decimal_value(n / 10);
        let d = decimal(n);
        assert(d.drop_last() =~= decimal(n / 10));
        assert(digit_value(digit_char(n % 10)) == Some(n % 10));
    }
}

proof fn lemma_integer_text(n: nat, max: nat)
    requires
        n <= max,
    ensures
        integer_text(decimal(n), max) == Some(n),
{
    lemma_decimal_value(n);
}

proof fn lemma_three_distinct(n: Seq<(Seq<char>, ParamValueView)>, a: Seq<char>, b: Seq<char>, c: Seq<char>)
    requires
        n.len() == 3,
        n[0].0 == a,
        n[1].0 == b,
        n[2].0 == c,
        a != b,
        a != c,
        b != c,
    ensures
        distinct_keys(n),
{
    assert forall|i: int, j: int| 0 <= i < j < n.len() implies (#[trigger] n[i]).0 != (#[trigger] n[j]).0 by {
        if i == 0 {
            if j == 1 {
            } else {
            }
        } else {
        }
    }
}

proof fn lemma_four_distinct(
    n: Seq<(Seq<char>, ParamValueView)>,
    a: Seq<char>,
    b: Seq<char>,
    c: Seq<char>,
    d: Seq<char>,
)
    requires
        n.len() == 4,
        n[0].0 == a,
        n[1].0 == b,
        n[2].0 == c,
        n[3].0 == d,
        a != b,
        a != c,
        a != d,
        b != c,
        b != d,
        c != d,
    ensures
        distinct_keys(n),
{
    assert forall|i: int, j: int| 0 <= i < j < n.len() implies (#[trigger] n[i]).0 != (#[trigger] n[j]).0 by {
        if i == 0 {
            if j == 1 {
            } else if j == 2 {
            } else {
            }
        } else if i == 1 {
            if j == 2 {
            } else {
            }
        } else {
        }
    }
}

proof fn lemma_crop_normal(c: CropParams)
    requires
        c.valid(),
    ensures
        distinct_keys(normal_params(OperationView::Crop(c))),
        crop_params(normal_params(OperationView::Crop(c))) == Some(c),
{
    let n = normal_params(OperationView::Crop(c));
    lemma_operation_names();
    reveal_strlit("x");
    reveal_strlit("y");
    reveal_strlit("width");
    reveal_strlit("height");
    assert("x"@ != "y"@) by {
        assert("x"@[0] != "y"@[0]);
    }
    assert("x"@.len() != "width"@.len());
    assert("x"@.len() != "height"@.len());
    assert("y"@.len() != "width"@.len());
    assert("y"@.len() != "height"@.len());
    assert("width"@.len() != "height"@.len());
    lemma_four_distinct(n, "x"@, "y"@, "width"@, "height"@);
    lemma_distinct_fields(n);
    lemma_only(n, "crop"@);
    assert(field(n, n[0].0) == Some(n[0].1));
    assert(field(n, n[1].0) == Some(n[1].1));
    assert(field(n, n[2].0) == Some(n[2].1));
    assert(field(n, n[3].0) == Some(n[3].1));
    lemma_integer_text(c.x as nat, u32::MAX as nat);
    lemma_integer_text(c.y as nat, u32::MAX as nat);
    lemma_integer_text(c.width as nat, u32::MAX as nat);
    lemma_integer_text(c.height as nat, u32::MAX as nat);
}


/// The operation names, each differing from the others.
proof fn lemma_operation_names()
    ensures
        "crop"@ != "resize"@,
        "crop"@ != "rotate"@,
        "crop"@ != "flip"@,
        "crop"@ != "canvas"@,
        "resize"@ != "rotate"@,
        "resize"@ != "flip"@,
        "resize"@ != "canvas"@,
        "rotate"@ != "flip"@,
        "rotate"@ != "canvas"@,
        "flip"@ != "canvas"@,
        "crop"@ != identity_text(),
        "resize"@ != identity_text(),
        "rotate"@ != identity_text(),
        "flip"@ != identity_text(),
        "canvas"@ != identity_text(),
        adjustment_named("crop"@) is None,
        adjustment_named("resize"@) is None,
        adjustment_named("rotate"@) is None,
        adjustment_named("flip"@) is None,
        adjustment_named("canvas"@) is None,
{
    lemma_adjustment_names(Adjustment::Adjust);
    lemma_adjustment_names(Adjustment::Levels);
    lemma_adjustment_names(Adjustment::Curves);
    lemma_adjustment_names(Adjustment::Grayscale);
    lemma_adjustment_names(Adjustment::Invert);
    lemma_adjustment_names(Adjustment::Blur);
    lemma_adjustment_names(Adjustment::Sharpen);
    reveal_strlit("crop");
    reveal_strlit("resize");
    reveal_strlit("rotate");
    reveal_strlit("flip");
    reveal_strlit("canvas");
    assert("crop"@.len() != "resize"@.len());
    assert("crop"@.len() != "rotate"@.len());
    assert("crop"@ != "flip"@) by {
        assert("crop"@[0] != "flip"@[0]);
    }
    assert("crop"@.len() != "canvas"@.len());
    assert("resize"@ != "rotate"@) by {
        assert("resize"@[1] != "rotate"@[1]);
    }
    assert("resize"@.len() != "flip"@.len());
    assert("resize"@ != "canvas"@) by {
        assert("resize"@[0] != "canvas"@[0]);
    }
    assert("rotate"@.len() != "flip"@.len());
    assert("rotate"@ != "canvas"@) by {
        assert("rotate"@[0] != "canvas"@[0]);
    }
    assert("flip"@.len() != "canvas"@.len());
    assert(identity_text().len() == 8);
}

proof fn lemma_only(n: Seq<(Seq<char>, ParamValueView)>, op: Seq<char>)
    requires
        n.len() <= 4,
        n.len() > 0 ==> key_allowed(op, n[0].0),
        n.len() > 1 ==> key_allowed(op, n[1].0),
        n.len() > 2 ==> key_allowed(op, n[2].0),
        n.len() > 3 ==> key_allowed(op, n[3].0),
    ensures
        only(n, op),
{
    assert forall|i: int| 0 <= i < n.len() implies key_allowed(op, (#[trigger] n[i]).0) by {
        if i == 0 {
        } else if i == 1 {
        } else if i == 2 {
        } else {
        }
    }
}


proof fn lemma_channel_name(c: Channel)
    ensures
        channel_named(channel_text(c)) == Some(c),
{
    reveal_strlit("rgb");
    reveal_strlit("red");
    reveal_strlit("green");
    reveal_strlit("blue");
    assert("rgb"@ != "red"@) by {
        assert("rgb"@[1] != "red"@[1]);
    }
    assert("red"@.len() != "green"@.len() && "red"@.len() != "blue"@.len());
    assert("rgb"@.len() != "green"@.len() && "rgb"@.len() != "blue"@.len());
    assert("green"@.len() != "blue"@.len());
}

/// The adjustment names differ from each other and from the other operations' names, and
/// each adjustment's numeric field names differ from each other and from `channel` and
/// `points`.
proof fn lemma_adjustment_names(kind: Adjustment)
    ensures
        adjustment_named(adjustment_text(kind)) == Some(kind),
        adjustment_text(kind) != identity_text(),
        adjustment_text(kind) != "crop"@,
        adjustment_text(kind) != "resize"@,
        adjustment_text(kind) != "rotate"@,
        adjustment_text(kind) != "flip"@,
        adjustment_text(kind) != "canvas"@,
        adjustment_text(kind) == "levels"@ <==> kind == Adjustment::Levels,
        adjustment_text(kind) == "curves"@ <==> kind == Adjustment::Curves,
        adjustment_fields(adjustment_text(kind)).len() <= 5,
        kind == Adjustment::Curves ==> adjustment_fields(adjustment_text(kind)).len() == 0,
        kind == Adjustment::Grayscale || kind == Adjustment::Invert ==> adjustment_fields(adjustment_text(kind)).len()
            == 0,
        forall|i: int, j: int|
            0 <= i < j < adjustment_fields(adjustment_text(kind)).len() ==> (#[trigger] adjustment_fields(
                adjustment_text(kind),
            )[i]) != (#[trigger] adjustment_fields(adjustment_text(kind))[j]),
        forall|i: int|
            0 <= i < adjustment_fields(adjustment_text(kind)).len() ==> (#[trigger] adjustment_fields(
                adjustment_text(kind),
            )[i]) != "channel"@ && adjustment_fields(adjustment_text(kind))[i] != "points"@,
{
    reveal_strlit("adjust");
    reveal_strlit("levels");
    reveal_strlit("curves");
    reveal_strlit("grayscale");
    reveal_strlit("invert");
    reveal_strlit("blur");
    reveal_strlit("sharpen");
    reveal_strlit("crop");
    reveal_strlit("resize");
    reveal_strlit("rotate");
    reveal_strlit("flip");
    reveal_strlit("canvas");
    reveal_strlit("channel");
    reveal_strlit("points");
    reveal_strlit("exposure");
    reveal_strlit("brightness");
    reveal_strlit("contrast");
    reveal_strlit("saturation");
    reveal_strlit("input_black");
    reveal_strlit("input_white");
    reveal_strlit("gamma");
    reveal_strlit("output_black");
    reveal_strlit("output_white");
    reveal_strlit("sigma");
    reveal_strlit("amount");
    let six = seq!["adjust"@, "levels"@, "curves"@, "invert"@, "resize"@, "rotate"@, "canvas"@];
    assert(six[0][0] == 'a' && six[1][0] == 'l' && six[2][0] == 'c' && six[3][0] == 'i');
    assert(six[4][0] == 'r' && six[5][0] == 'r' && six[6][0] == 'c');
    assert(six[2][1] == 'u' && six[6][1] == 'a');
    assert(forall|x: int, y: int| 0 <= x < 7 && 0 <= y < 7 && six[x][0] != six[y][0] ==> six[x] != six[y]);
    assert("curves"@ != "canvas"@) by {
        assert("curves"@[1] != "canvas"@[1]);
    }
    assert(identity_text().len() == 8);
    assert("adjust"@.len() == 6 && "levels"@.len() == 6 && "curves"@.len() == 6 && "invert"@.len() == 6);
    assert("grayscale"@.len() == 9 && "blur"@.len() == 4 && "sharpen"@.len() == 7);
    assert("crop"@.len() == 4 && "flip"@.len() == 4 && "resize"@.len() == 6 && "rotate"@.len() == 6);
    assert("blur"@ != "crop"@ && "blur"@ != "flip"@) by {
        assert("blur"@[0] != "crop"@[0] && "blur"@[0] != "flip"@[0]);
    }
    assert("channel"@.len() == 7 && "points"@.len() == 6 && "sharpen"@.len() == 7);
    assert("exposure"@ != "contrast"@) by {
        assert("exposure"@[0] != "contrast"@[0]);
    }
    assert("brightness"@ != "saturation"@) by {
        assert("brightness"@[0] != "saturation"@[0]);
    }
    assert("input_black"@ != "input_white"@) by {
        assert("input_black"@[6] != "input_white"@[6]);
    }
    assert("output_black"@ != "output_white"@) by {
        assert("output_black"@[7] != "output_white"@[7]);
    }
    assert("exposure"@.len() == 8 && "brightness"@.len() == 10 && "contrast"@.len() == 8 && "saturation"@.len() == 10);
    assert("input_black"@.len() == 11 && "input_white"@.len() == 11 && "gamma"@.len() == 5);
    assert("output_black"@.len() == 12 && "output_white"@.len() == 12);
    assert("sigma"@.len() == 5 && "amount"@.len() == 6);
    assert("amount"@ != "points"@) by {
        assert("amount"@[0] != "points"@[0]);
    }
    let f = adjustment_fields(adjustment_text(kind));
    assert forall|i: int, j: int| 0 <= i < j < f.len() implies (#[trigger] f[i]) != (#[trigger] f[j]) by {
        if kind == Adjustment::Adjust {
            assert(f == seq!["exposure"@, "brightness"@, "contrast"@, "saturation"@]);
        } else if kind == Adjustment::Levels {
            assert(f == seq!["input_black"@, "input_white"@, "gamma"@, "output_black"@, "output_white"@]);
        } else if kind == Adjustment::Sharpen {
            assert(f == seq!["sigma"@, "amount"@]);
        }
    }
}


proof fn lemma_adjustment_normal(kind: Adjustment, a: AdjustmentView)
    requires
        a.channel is Some <==> channel_needed(adjustment_text(kind)),
        a.values.len() == adjustment_fields(adjustment_text(kind)).len(),
        forall|i: int|
            0 <= i < a.values.len() ==> tenths_within(
                #[trigger] a.values[i],
                adjustment_ranges(adjustment_text(kind))[i].0,
                adjustment_ranges(adjustment_text(kind))[i].1,
            ),
        kind == Adjustment::Curves ==> 2 <= a.points.len() <= 256 && curve_points_ok(a.points),
        kind != Adjustment::Curves ==> a.points == Seq::<(Seq<char>, Seq<char>)>::empty(),
    ensures
        distinct_keys(normal_params(OperationView::Adjustment(kind, a))),
        adjustment_params(adjustment_text(kind), normal_params(OperationView::Adjustment(kind, a))) == Some(a),
{
    let op = adjustment_text(kind);
    let fields = adjustment_fields(op);
    lemma_adjustment_names(kind);
    assert(op != "crop"@);
    assert(op != "resize"@);
    assert(op != "rotate"@);
    assert(op != "flip"@);
    assert(op != "canvas"@);
    reveal_strlit("channel");
    reveal_strlit("points");
    assert("channel"@ != "points"@) by {
        assert("channel"@.len() != "points"@.len());
    }
    let cpart = match a.channel {
        Some(ch) => seq![("channel"@, ParamValueView::Text(channel_text(ch)))],
        None => Seq::<(Seq<char>, ParamValueView)>::empty(),
    };
    let vpart = Seq::new(written_values(kind, a.values), |i: int| (fields[i], ParamValueView::Number(a.values[i])));
    let ppart = if kind == Adjustment::Curves {
        seq![("points"@, ParamValueView::Pairs(a.points))]
    } else {
        Seq::<(Seq<char>, ParamValueView)>::empty()
    };
    let n = normal_params(OperationView::Adjustment(kind, a));
    assert(n == cpart + vpart + ppart);
    let c = cpart.len() as int;
    let v = vpart.len() as int;
    assert(v == fields.len());
    assert forall|i: int| 0 <= i < v implies #[trigger] n[c + i] == (fields[i], ParamValueView::Number(a.values[i])) by {
        assert(n[c + i] == vpart[i]);
    }
    assert(a.channel matches Some(ch) ==> n[0] == ("channel"@, ParamValueView::Text(channel_text(ch))));
    assert(kind == Adjustment::Curves ==> n[c + v] == ("points"@, ParamValueView::Pairs(a.points)));
    assert(n.len() == c + v + ppart.len());
    assert forall|i: int, j: int| 0 <= i < j < n.len() implies (#[trigger] n[i]).0 != (#[trigger] n[j]).0 by {
        if i < c {
            if j < c + v {
                assert(n[j] == (fields[j - c], ParamValueView::Number(a.values[j - c])));
                assert(fields[j - c] != "channel"@);
            }
        } else if i < c + v {
            assert(n[i] == (fields[i - c], ParamValueView::Number(a.values[i - c])));
            if j < c + v {
                assert(n[j] == (fields[j - c], ParamValueView::Number(a.values[j - c])));
                assert(fields[i - c] != fields[j - c]);
            } else {
                assert(fields[i - c] != "points"@);
            }
        }
    }
    lemma_distinct_fields(n);
    assert forall|i: int| 0 <= i < n.len() implies key_allowed(op, (#[trigger] n[i]).0) by {
        if i < c {
            assert(i == 0);
            assert(n[i].0 == "channel"@);
            assert(op == "levels"@ || op == "curves"@);
            assert(key_allowed(op, "channel"@));
        } else if i < c + v {
            assert(n[i] == (fields[i - c], ParamValueView::Number(a.values[i - c])));
            assert(fields.contains(fields[i - c]));
            assert(op != "crop"@ && op != "resize"@ && op != "rotate"@ && op != "flip"@ && op != "canvas"@);
            assert(op != "curves"@);
            if op == "levels"@ {
                assert(key_allowed(op, fields[i - c]));
            } else {
                assert(adjustment_fields(op).contains(fields[i - c]));
                assert(key_allowed(op, fields[i - c]));
            }
        } else {
            assert(kind == Adjustment::Curves);
            assert(i == c + v);
            assert(n[i].0 == "points"@);
            assert(op == "curves"@);
            assert(key_allowed(op, "points"@));
        }
    }
    assert forall|i: int| 0 <= i < fields.len() implies number_field(n, #[trigger] fields[i]) == Some(a.values[i]) by {
        assert(n[c + i] == (fields[i], ParamValueView::Number(a.values[i])));
        assert(field(n, n[c + i].0) == Some(n[c + i].1));
    }
    match a.channel {
        Some(ch) => {
            assert(field(n, n[0].0) == Some(n[0].1));
            lemma_channel_name(ch);
            assert(channel_field(n) == Some(ch));
        },
        None => {},
    }
    if kind == Adjustment::Curves {
        assert(field(n, n[c + v].0) == Some(n[c + v].1));
        assert(points_field(n) == Some(a.points));
    }
    let back = adjustment_params(op, n)->0;
    assert(back.values =~= a.values);
    assert(back.channel == a.channel);
    assert(back.points == a.points);
}

proof fn lemma_interpolation_name(f: Interpolation)
    ensures
        interpolation_named(interpolation_text(f)) == Some(f),
{
    reveal_strlit("nearest");
    reveal_strlit("bilinear");
    assert("nearest"@.len() != "bilinear"@.len());
}

proof fn lemma_axis_name(a: FlipAxis)
    ensures
        axis_named(axis_text(a)) == Some(a),
{
    reveal_strlit("horizontal");
    reveal_strlit("vertical");
    assert("horizontal"@.len() != "vertical"@.len());
}

proof fn lemma_anchor_name(a: Anchor)
    ensures
        anchor_named(anchor_text(a)) == Some(a),
{
    reveal_strlit("top_left");
    reveal_strlit("top");
    reveal_strlit("top_right");
    reveal_strlit("left");
    reveal_strlit("center");
    reveal_strlit("right");
    reveal_strlit("bottom_left");
    reveal_strlit("bottom");
    reveal_strlit("bottom_right");
    let names = seq![
        "top_left"@,
        "top"@,
        "top_right"@,
        "left"@,
        "center"@,
        "right"@,
        "bottom_left"@,
        "bottom"@,
        "bottom_right"@,
    ];
    assert(names[0].len() == 8 && names[1].len() == 3 && names[2].len() == 9 && names[3].len() == 4);
    assert(names[4].len() == 6 && names[5].len() == 5 && names[6].len() == 11 && names[7].len() == 6);
    assert(names[8].len() == 12);
    assert("center"@ != "bottom"@) by {
        assert("center"@[0] != "bottom"@[0]);
    }
    match a {
        Anchor::TopLeft => {},
        Anchor::Top => {},
        Anchor::TopRight => {},
        Anchor::Left => {},
        Anchor::Center => {},
        Anchor::Right => {},
        Anchor::BottomLeft => {},
        Anchor::Bottom => {
            assert("bottom"@ != "center"@);
        },
        Anchor::BottomRight => {},
    }
}

proof fn lemma_color_value(c: RgbaColor, p: Seq<(Seq<char>, ParamValueView)>, k: Seq<char>)
    requires
        field(p, k) == Some(color_value(c)),
    ensures
        color_field(p, k) == Some(c),
{
    lemma_integer_text(c.0[0] as nat, 255);
    lemma_integer_text(c.0[1] as nat, 255);
    lemma_integer_text(c.0[2] as nat, 255);
    lemma_integer_text(c.0[3] as nat, 255);
    let ns = seq![decimal(c.0[0] as nat), decimal(c.0[1] as nat), decimal(c.0[2] as nat), decimal(c.0[3] as nat)];
    let back = RgbaColor(
        [
            integer_text(ns[0], 255)->0 as u8,
            integer_text(ns[1], 255)->0 as u8,
            integer_text(ns[2], 255)->0 as u8,
            integer_text(ns[3], 255)->0 as u8,
        ],
    );
    assert(back.0 =~= c.0);
}

proof fn lemma_resize_normal(r: ResizeParams)
    requires
        r.valid(),
    ensures
        distinct_keys(normal_params(OperationView::Resize(r))),
        resize_params(normal_params(OperationView::Resize(r))) == Some(r),
{
    let n = normal_params(OperationView::Resize(r));
    lemma_operation_names();
    reveal_strlit("width");
    reveal_strlit("height");
    reveal_strlit("filter");
    assert("width"@.len() != "height"@.len());
    assert("width"@.len() != "filter"@.len());
    assert("height"@ != "filter"@) by {
        assert("height"@[0] != "filter"@[0]);
    }
    lemma_three_distinct(n, "width"@, "height"@, "filter"@);
    lemma_distinct_fields(n);
    lemma_only(n, "resize"@);
    assert(field(n, n[0].0) == Some(n[0].1));
    assert(field(n, n[1].0) == Some(n[1].1));
    assert(field(n, n[2].0) == Some(n[2].1));
    match r.width {
        Some(w) => lemma_integer_text(w as nat, u32::MAX as nat),
        None => {},
    }
    match r.height {
        Some(h) => lemma_integer_text(h as nat, u32::MAX as nat),
        None => {},
    }
    lemma_interpolation_name(r.filter);
}

proof fn lemma_rotate_normal(v: RotateView)
    requires
        tenths_within(v.degrees, -3600, 3600),
    ensures
        distinct_keys(normal_params(OperationView::Rotate(v))),
        rotate_params(normal_params(OperationView::Rotate(v))) == Some(v),
{
    let n = normal_params(OperationView::Rotate(v));
    lemma_operation_names();
    reveal_strlit("degrees");
    reveal_strlit("expand");
    reveal_strlit("filter");
    reveal_strlit("background");
    assert("degrees"@.len() != "expand"@.len());
    assert("degrees"@.len() != "filter"@.len());
    assert("degrees"@.len() != "background"@.len());
    assert("expand"@ != "filter"@) by {
        assert("expand"@[0] != "filter"@[0]);
    }
    assert("expand"@.len() != "background"@.len());
    assert("filter"@.len() != "background"@.len());
    lemma_four_distinct(n, "degrees"@, "expand"@, "filter"@, "background"@);
    lemma_distinct_fields(n);
    lemma_only(n, "rotate"@);
    assert(field(n, n[0].0) == Some(n[0].1));
    assert(field(n, n[1].0) == Some(n[1].1));
    assert(field(n, n[2].0) == Some(n[2].1));
    assert(field(n, n[3].0) == Some(n[3].1));
    lemma_interpolation_name(v.filter);
    lemma_color_value(v.background, n, "background"@);
}

proof fn lemma_flip_normal(f: FlipParams)
    ensures
        distinct_keys(normal_params(OperationView::Flip(f))),
        flip_params(normal_params(OperationView::Flip(f))) == Some(f),
{
    let n = normal_params(OperationView::Flip(f));
    lemma_operation_names();
    lemma_distinct_fields(n);
    lemma_only(n, "flip"@);
    assert(field(n, n[0].0) == Some(n[0].1));
    lemma_axis_name(f.axis);
}

proof fn lemma_canvas_normal(c: CanvasParams)
    requires
        c.width > 0,
        c.height > 0,
    ensures
        distinct_keys(normal_params(OperationView::Canvas(c))),
        canvas_params(normal_params(OperationView::Canvas(c))) == Some(c),
{
    let n = normal_params(OperationView::Canvas(c));
    lemma_operation_names();
    reveal_strlit("width");
    reveal_strlit("height");
    reveal_strlit("anchor");
    reveal_strlit("background");
    assert("width"@.len() != "height"@.len());
    assert("width"@.len() != "anchor"@.len());
    assert("width"@.len() != "background"@.len());
    assert("height"@ != "anchor"@) by {
        assert("height"@[0] != "anchor"@[0]);
    }
    assert("height"@.len() != "background"@.len());
    assert("anchor"@.len() != "background"@.len());
    lemma_four_distinct(n, "width"@, "height"@, "anchor"@, "background"@);
    lemma_distinct_fields(n);
    lemma_only(n, "canvas"@);
    assert(field(n, n[0].0) == Some(n[0].1));
    assert(field(n, n[1].0) == Some(n[1].1));
    assert(field(n, n[2].0) == Some(n[2].1));
    assert(field(n, n[3].0) == Some(n[3].1));
    lemma_integer_text(c.width as nat, u32::MAX as nat);
    lemma_integer_text(c.height as nat, u32::MAX as nat);
    lemma_anchor_name(c.anchor);
    lemma_color_value(c.background, n, "background"@);
}


proof fn lemma_adjustment_named(t: Seq<char>)
    requires
        adjustment_named(t) is Some,
    ensures
        t == adjustment_text(adjustment_named(t)->0),
{
}

/// Normalizing a validated step gives the same operation back: the normal form of the
/// operation `o` that a step validates to (what `Operation::to_spec` writes) validates to
/// `o` again and is written normally, so `OperationSpec::check_committed` accepts what a
/// commit records.
pub proof fn normal_form_validates_back(
    op: Seq<char>,
    op_version: u32,
    target: Seq<char>,
    params: ParamsView,
    o: OperationView,
)
    requires
        operation_outcome(op, op_version, target, params) == Ok::<OperationView, ErrorCode>(o),
    ensures
        operation_outcome(operation_name(o), OP_VERSION, canvas_text(), ParamsView::Object(normal_params(o)))
            == Ok::<OperationView, ErrorCode>(o),
        written_normally(o, ParamsView::Object(normal_params(o))),
{
    let p = params->Object_0;
    let n = normal_params(o);
    lemma_operation_names();
    match o {
        OperationView::Identity => {},
        OperationView::Crop(c) => lemma_crop_normal(c),
        OperationView::Resize(r) => lemma_resize_normal(r),
        OperationView::Rotate(v) => lemma_rotate_normal(v),
        OperationView::Flip(f) => lemma_flip_normal(f),
        OperationView::Canvas(c) => lemma_canvas_normal(c),
        OperationView::Adjustment(kind, a) => {
            lemma_adjustment_named(op);
            lemma_adjustment_names(kind);
            let fields = adjustment_fields(op);
            assert forall|i: int| 0 <= i < a.values.len() implies tenths_within(
                #[trigger] a.values[i],
                adjustment_ranges(adjustment_text(kind))[i].0,
                adjustment_ranges(adjustment_text(kind))[i].1,
            ) by {
                assert(a.values[i] == number_field(p, fields[i])->0);
            }
            lemma_adjustment_normal(kind, a);
        },
    }
    if n.len() > 0 {
        lemma_distinct_fields(n);
    }
}

proof fn lemma_adjustment_step(kind: Adjustment, a: AdjustmentView)
    requires
        a.channel is Some <==> channel_needed(adjustment_text(kind)),
        a.values.len() == adjustment_fields(adjustment_text(kind)).len(),
        forall|i: int|
            0 <= i < a.values.len() ==> tenths_within(
                #[trigger] a.values[i],
                adjustment_ranges(adjustment_text(kind))[i].0,
                adjustment_ranges(adjustment_text(kind))[i].1,
            ),
        kind == Adjustment::Curves ==> 2 <= a.points.len() <= 256 && curve_points_ok(a.points),
        kind != Adjustment::Curves ==> a.points == Seq::<(Seq<char>, Seq<char>)>::empty(),
    ensures
        operation_outcome(
            adjustment_text(kind),
            OP_VERSION,
            canvas_text(),
            ParamsView::Object(normal_params(OperationView::Adjustment(kind, a))),
        ) == Ok::<OperationView, ErrorCode>(OperationView::Adjustment(kind, a)),
{
    lemma_adjustment_normal(kind, a);
    lemma_adjustment_names(kind);
    lemma_operation_names();
}

/// An `adjust` step whose fields are JSON numbers with exposure in [-20, 20] EV, brightness
/// in [-1, 1], and contrast and saturation in [0, 10] (bounds written in tenths) validates,
/// keeping the numbers as written.
pub proof fn adjust_step_in_range_validates(e: Seq<char>, b: Seq<char>, c: Seq<char>, s: Seq<char>)
    requires
        tenths_within(e, -200, 200),
        tenths_within(b, -10, 10),
        tenths_within(c, 0, 100),
        tenths_within(s, 0, 100),
    ensures
        operation_outcome(
            "adjust"@,
            OP_VERSION,
            canvas_text(),
            ParamsView::Object(
                seq![
                    ("exposure"@, ParamValueView::Number(e)),
                    ("brightness"@, ParamValueView::Number(b)),
                    ("contrast"@, ParamValueView::Number(c)),
                    ("saturation"@, ParamValueView::Number(s)),
                ],
            ),
        ) == Ok::<OperationView, ErrorCode>(
            OperationView::Adjustment(
                Adjustment::Adjust,
                AdjustmentView { channel: None, values: seq![e, b, c, s], points: Seq::empty() },
            ),
        ),
{
    let a = AdjustmentView { channel: None, values: seq![e, b, c, s], points: Seq::empty() };
    lemma_adjustment_names(Adjustment::Adjust);
    assert forall|i: int| 0 <= i < a.values.len() implies tenths_within(
        #[trigger] a.values[i],
        adjustment_ranges(adjustment_text(Adjustment::Adjust))[i].0,
        adjustment_ranges(adjustment_text(Adjustment::Adjust))[i].1,
    ) by {
        if i == 0 {
        } else if i == 1 {
        } else if i == 2 {
        } else {
        }
    }
    lemma_adjustment_step(Adjustment::Adjust, a);
    assert(normal_params(OperationView::Adjustment(Adjustment::Adjust, a)) =~= seq![
        ("exposure"@, ParamValueView::Number(e)),
        ("brightness"@, ParamValueView::Number(b)),
        ("contrast"@, ParamValueView::Number(c)),
        ("saturation"@, ParamValueView::Number(s)),
    ]);
}

/// A `levels` step with a channel and its fields as JSON numbers, the input and output
/// endpoints in [0, 1] and gamma in [0.1, 10] (bounds in tenths), validates.
pub proof fn levels_step_in_range_validates(
    ch: Channel,
    input_black: Seq<char>,
    input_white: Seq<char>,
    gamma: Seq<char>,
    output_black: Seq<char>,
    output_white: Seq<char>,
)
    requires
        tenths_within(input_black, 0, 10),
        tenths_within(input_white, 0, 10),
        tenths_within(gamma, 1, 100),
        tenths_within(output_black, 0, 10),
        tenths_within(output_white, 0, 10),
    ensures
        operation_outcome(
            "levels"@,
            OP_VERSION,
            canvas_text(),
            ParamsView::Object(
                seq![
                    ("channel"@, ParamValueView::Text(channel_text(ch))),
                    ("input_black"@, ParamValueView::Number(input_black)),
                    ("input_white"@, ParamValueView::Number(input_white)),
                    ("gamma"@, ParamValueView::Number(gamma)),
                    ("output_black"@, ParamValueView::Number(output_black)),
                    ("output_white"@, ParamValueView::Number(output_white)),
                ],
            ),
        ) == Ok::<OperationView, ErrorCode>(
            OperationView::Adjustment(
                Adjustment::Levels,
                AdjustmentView {
                    channel: Some(ch),
                    values: seq![input_black, input_white, gamma, output_black, output_white],
                    points: Seq::empty(),
                },
            ),
        ),
{
    let a = AdjustmentView {
        channel: Some(ch),
        values: seq![input_black, input_white, gamma, output_black, output_white],
        points: Seq::empty(),
    };
    lemma_adjustment_names(Adjustment::Levels);
    assert forall|i: int| 0 <= i < a.values.len() implies tenths_within(
        #[trigger] a.values[i],
        adjustment_ranges(adjustment_text(Adjustment::Levels))[i].0,
        adjustment_ranges(adjustment_text(Adjustment::Levels))[i].1,
    ) by {
        if i == 0 {
        } else if i == 1 {
        } else if i == 2 {
        } else if i == 3 {
        } else {
        }
    }
    lemma_adjustment_step(Adjustment::Levels, a);
    assert(normal_params(OperationView::Adjustment(Adjustment::Levels, a)) =~= seq![
        ("channel"@, ParamValueView::Text(channel_text(ch))),
        ("input_black"@, ParamValueView::Number(input_black)),
        ("input_white"@, ParamValueView::Number(input_white)),
        ("gamma"@, ParamValueView::Number(gamma)),
        ("output_black"@, ParamValueView::Number(output_black)),
        ("output_white"@, ParamValueView::Number(output_white)),
    ]);
}

/// A `blur` step with sigma in [0, 100] and a `sharpen` step with sigma in [0, 100] and
/// amount in [0, 10] (bounds in tenths) validate.
pub proof fn filter_steps_in_range_validate(sigma: Seq<char>, amount: Seq<char>)
    requires
        tenths_within(sigma, 0, 1000),
        tenths_within(amount, 0, 100),
    ensures
        operation_outcome(
            "blur"@,
            OP_VERSION,
            canvas_text(),
            ParamsView::Object(seq![("sigma"@, ParamValueView::Number(sigma))]),
        ) == Ok::<OperationView, ErrorCode>(
            OperationView::Adjustment(
                Adjustment::Blur,
                AdjustmentView { channel: None, values: seq![sigma], points: Seq::empty() },
            ),
        ),
        operation_outcome(
            "sharpen"@,
            OP_VERSION,
            canvas_text(),
            ParamsView::Object(
                seq![("sigma"@, ParamValueView::Number(sigma)), ("amount"@, ParamValueView::Number(amount))],
            ),
        ) == Ok::<OperationView, ErrorCode>(
            OperationView::Adjustment(
                Adjustment::Sharpen,
                AdjustmentView { channel: None, values: seq![sigma, amount], points: Seq::empty() },
            ),
        ),
{
    let blur = AdjustmentView { channel: None, values: seq![sigma], points: Seq::empty() };
    let sharpen = AdjustmentView { channel: None, values: seq![sigma, amount], points: Seq::empty() };
    lemma_adjustment_names(Adjustment::Blur);
    lemma_adjustment_names(Adjustment::Sharpen);
    assert forall|i: int| 0 <= i < blur.values.len() implies tenths_within(
        #[trigger] blur.values[i],
        adjustment_ranges(adjustment_text(Adjustment::Blur))[i].0,
        adjustment_ranges(adjustment_text(Adjustment::Blur))[i].1,
    ) by {}
    assert forall|i: int| 0 <= i < sharpen.values.len() implies tenths_within(
        #[trigger] sharpen.values[i],
        adjustment_ranges(adjustment_text(Adjustment::Sharpen))[i].0,
        adjustment_ranges(adjustment_text(Adjustment::Sharpen))[i].1,
    ) by {
        if i == 0 {
        } else {
        }
    }
    lemma_adjustment_step(Adjustment::Blur, blur);
    lemma_adjustment_step(Adjustment::Sharpen, sharpen);
    assert(normal_params(OperationView::Adjustment(Adjustment::Blur, blur)) =~= seq![
        ("sigma"@, ParamValueView::Number(sigma)),
    ]);
    assert(normal_params(OperationView::Adjustment(Adjustment::Sharpen, sharpen)) =~= seq![
        ("sigma"@, ParamValueView::Number(sigma)),
        ("amount"@, ParamValueView::Number(amount)),
    ]);
}

/// Every validated photo adjustment keeps its numbers within the documented ranges (bounds
/// in tenths): adjust exposure [-20, 20], brightness [-1, 1], contrast and saturation
/// [0, 10]; levels endpoints [0, 1] and gamma [0.1, 10], with a channel; blur sigma
/// [0, 100]; sharpen sigma [0, 100] and amount [0, 10]; curves 2 to 256 points with every
/// coordinate in [0, 1], from input 0 to input 1, with a channel; grayscale and invert none.
#[verifier::rlimit(40)]
pub proof fn validated_adjustments_are_in_range(
    op: Seq<char>,
    op_version: u32,
    target: Seq<char>,
    params: ParamsView,
    kind: Adjustment,
    a: AdjustmentView,
)
    requires
        operation_outcome(op, op_version, target, params) == Ok::<OperationView, ErrorCode>(
            OperationView::Adjustment(kind, a),
        ),
    ensures
        kind == Adjustment::Adjust ==> a.values.len() == 4 && tenths_within(a.values[0], -200, 200) && tenths_within(
            a.values[1],
            -10,
            10,
        ) && tenths_within(a.values[2], 0, 100) && tenths_within(a.values[3], 0, 100),
        kind == Adjustment::Levels ==> a.channel is Some && a.values.len() == 5 && tenths_within(a.values[0], 0, 10)
            && tenths_within(a.values[1], 0, 10) && tenths_within(a.values[2], 1, 100) && tenths_within(
            a.values[3],
            0,
            10,
        ) && tenths_within(a.values[4], 0, 10),
        kind == Adjustment::Blur ==> a.values.len() == 1 && tenths_within(a.values[0], 0, 1000),
        kind == Adjustment::Sharpen ==> a.values.len() == 2 && tenths_within(a.values[0], 0, 1000) && tenths_within(
            a.values[1],
            0,
            100,
        ),
        kind == Adjustment::Curves ==> a.channel is Some && 2 <= a.points.len() <= 256 && (forall|i: int|
            0 <= i < a.points.len() ==> tenths_within((#[trigger] a.points[i]).0, 0, 10) && tenths_within(
                a.points[i].1,
                0,
                10,
            )) && tenths_within(a.points[0].0, 0, 0) && tenths_within(a.points.last().0, 10, 10),
        kind == Adjustment::Grayscale || kind == Adjustment::Invert ==> a.values.len() == 0,
{
    let p = params->Object_0;
    lemma_adjustment_named(op);
    lemma_adjustment_names(kind);
    let fields = adjustment_fields(op);
    let ranges = adjustment_ranges(op);
    assert forall|i: int| 0 <= i < fields.len() implies tenths_within(#[trigger] a.values[i], ranges[i].0, ranges[i].1) by {
        assert(a.values[i] == number_field(p, fields[i])->0);
    }
    if fields.len() > 0 {
        assert(tenths_within(a.values[0], ranges[0].0, ranges[0].1));
    }
    if fields.len() > 1 {
        assert(tenths_within(a.values[1], ranges[1].0, ranges[1].1));
    }
    if fields.len() > 2 {
        assert(tenths_within(a.values[2], ranges[2].0, ranges[2].1));
    }
    if fields.len() > 3 {
        assert(tenths_within(a.values[3], ranges[3].0, ranges[3].1));
    }
    if fields.len() > 4 {
        assert(tenths_within(a.values[4], ranges[4].0, ranges[4].1));
    }
}

fn interpolation_name(f: Interpolation) -> (r: &'static str)
    ensures
        r@ == interpolation_text(f),
{
    match f {
        Interpolation::Nearest => "nearest",
        Interpolation::Bilinear => "bilinear",
    }
}

fn axis_name(a: FlipAxis) -> (r: &'static str)
    ensures
        r@ == axis_text(a),
{
    match a {
        FlipAxis::Horizontal => "horizontal",
        FlipAxis::Vertical => "vertical",
    }
}

fn channel_name(c: Channel) -> (r: &'static str)
    ensures
        r@ == channel_text(c),
{
    match c {
        Channel::Rgb => "rgb",
        Channel::Red => "red",
        Channel::Green => "green",
        Channel::Blue => "blue",
    }
}

fn anchor_name(a: Anchor) -> (r: &'static str)
    ensures
        r@ == anchor_text(a),
{
    match a {
        Anchor::TopLeft => "top_left",
        Anchor::Top => "top",
        Anchor::TopRight => "top_right",
        Anchor::Left => "left",
        Anchor::Center => "center",
        Anchor::Right => "right",
        Anchor::BottomLeft => "bottom_left",
        Anchor::Bottom => "bottom",
        Anchor::BottomRight => "bottom_right",
    }
}

fn decimal_string(n: u32) -> (s: String)
    ensures
        s@ == decimal(n as nat),
{
    let mut s = String::new();
    push_decimal(&mut s, n as u64);
    assert(s@ =~= decimal(n as nat));
    s
}

fn count_param(n: u32) -> (v: ParamValue)
    ensures
        v@ == count_value(n),
{
    ParamValue::Number(decimal_string(n))
}

fn size_param(n: Option<u32>) -> (v: ParamValue)
    ensures
        v@ == size_value(n),
{
    match n {
        Some(x) => count_param(x),
        None => ParamValue::Null,
    }
}

fn color_param(c: RgbaColor) -> (v: ParamValue)
    ensures
        v@ == color_value(c),
{
    let parts = vec![
        decimal_string(c.0[0] as u32),
        decimal_string(c.0[1] as u32),
        decimal_string(c.0[2] as u32),
        decimal_string(c.0[3] as u32),
    ];
    let v = ParamValue::Numbers(parts);
    assert(texts(parts@) =~= seq![
        decimal(c.0[0] as nat),
        decimal(c.0[1] as nat),
        decimal(c.0[2] as nat),
        decimal(c.0[3] as nat),
    ]);
    v
}

fn text_param(t: &str) -> (v: ParamValue)
    ensures
        v@ == ParamValueView::Text(t@),
{
    ParamValue::Text(String::from_str(t))
}

fn entry(name: &str, value: ParamValue) -> (e: (String, ParamValue))
    ensures
        e.0@ == name@,
        e.1@ == value@,
{
    (String::from_str(name), value)
}

impl Operation {
    /// The authoring step that writes this operation in normal form: its name, version
    /// `OP_VERSION`, the `canvas` target and every parameter explicit.
    pub fn to_spec(&self) -> (r: OperationSpec)
        ensures
            r.op@ == operation_name(self@),
            r.op_version == OP_VERSION,
            r.target.0@ == canvas_text(),
            r.params@ == ParamsView::Object(normal_params(self@)),
    {
        let mut p: Vec<(String, ParamValue)> = Vec::new();
        let name: String = match self {
            Operation::Identity => {
                proof {
                    reveal_strlit("identity");
                }
                String::from_str("identity")
            },
            Operation::Crop(c) => {
                p.push(entry("x", count_param(c.x)));
                p.push(entry("y", count_param(c.y)));
                p.push(entry("width", count_param(c.width)));
                p.push(entry("height", count_param(c.height)));
                String::from_str("crop")
            },
            Operation::Resize(r) => {
                p.push(entry("width", size_param(r.width)));
                p.push(entry("height", size_param(r.height)));
                p.push(entry("filter", text_param(interpolation_name(r.filter))));
                String::from_str("resize")
            },
            Operation::Rotate(v) => {
                p.push(entry("degrees", ParamValue::Number(v.degrees.clone())));
                p.push(entry("expand", ParamValue::Bool(v.expand)));
                p.push(entry("filter", text_param(interpolation_name(v.filter))));
                p.push(entry("background", color_param(v.background)));
                String::from_str("rotate")
            },
            Operation::Flip(f) => {
                p.push(entry("axis", text_param(axis_name(f.axis))));
                String::from_str("flip")
            },
            Operation::Canvas(c) => {
                p.push(entry("width", count_param(c.width)));
                p.push(entry("height", count_param(c.height)));
                p.push(entry("anchor", text_param(anchor_name(c.anchor))));
                p.push(entry("background", color_param(c.background)));
                String::from_str("canvas")
            },
            Operation::Adjustment(a) => {
                let op = adjustment_name_of(a.kind);
                match a.channel {
                    Some(ch) => p.push(entry("channel", text_param(channel_name(ch)))),
                    None => {},
                }
                let ghost channel_part = match a.channel {
                    Some(ch) => seq![("channel"@, ParamValueView::Text(channel_text(ch)))],
                    None => Seq::<(Seq<char>, ParamValueView)>::empty(),
                };
                assert(entries_view(p@) =~= channel_part);
                let names = adjustment_field_names(op);
                let ghost start = entries_view(p@);
                let ghost fields = adjustment_fields(adjustment_text(a.kind));
                assert(names@.len() == fields.len()) by {
                    assert(names@.map_values(|f: &str| f@).len() == names@.len());
                }
                let mut i: usize = 0;
                while i < names.len() && i < a.values.len()
                    invariant
                        op@ == adjustment_text(a.kind),
                        names@.map_values(|f: &str| f@) == fields,
                        names@.len() == fields.len(),
                        i <= names@.len(),
                        i <= a.values@.len(),
                        entries_view(p@) == start + Seq::new(
                            i as nat,
                            |j: int| (fields[j], ParamValueView::Number(a.values@[j]@)),
                        ),
                    decreases names@.len() - i,
                {
                    assert(names@.map_values(|f: &str| f@)[i as int] == names@[i as int]@);
                    let ghost before = p@;
                    let e = entry(names[i], ParamValue::Number(a.values[i].clone()));
                    assert(e.0@ == fields[i as int]);
                    p.push(e);
                    assert(entries_view(p@) =~= entries_view(before).push((e.0@, e.1@)));
                    assert(entries_view(p@) =~= start + Seq::new(
                        (i + 1) as nat,
                        |j: int| (fields[j], ParamValueView::Number(a.values@[j]@)),
                    ));
                    i += 1;
                }
                let ghost values_part = Seq::new(
                    written_values(a.kind, texts(a.values@)),
                    |j: int| (fields[j], ParamValueView::Number(texts(a.values@)[j])),
                );
                assert(Seq::new(i as nat, |j: int| (fields[j], ParamValueView::Number(a.values@[j]@))) =~= values_part);
                assert(entries_view(p@) == channel_part + values_part);
                let ghost before_points = p@;
                if a.kind == Adjustment::Curves {
                    let mut pts: Vec<(String, String)> = Vec::new();
                    let mut k: usize = 0;
                    while k < a.points.len()
                        invariant
                            k <= a.points@.len(),
                            pair_texts(pts@) == pair_texts(a.points@).take(k as int),
                        decreases a.points@.len() - k,
                    {
                        let ghost before = pts@;
                        pts.push((a.points[k].0.clone(), a.points[k].1.clone()));
                        assert(pair_texts(a.points@)[k as int] == (a.points@[k as int].0@, a.points@[k as int].1@));
                        assert(pair_texts(pts@) =~= pair_texts(before).push(
                            (a.points@[k as int].0@, a.points@[k as int].1@),
                        ));
                        assert(pair_texts(pts@) =~= pair_texts(a.points@).take((k + 1) as int));
                        k += 1;
                    }
                    assert(pair_texts(a.points@).take(k as int) =~= pair_texts(a.points@));
                    p.push(entry("points", ParamValue::Pairs(pts)));
                    assert(entries_view(p@) =~= entries_view(before_points).push(
                        ("points"@, ParamValueView::Pairs(pair_texts(a.points@))),
                    ));
                }
                assert(entries_view(p@) =~= normal_params(self@));
                String::from_str(op)
            },
        };
        let r = OperationSpec { op: name, op_version: OP_VERSION, target: TargetId::canvas(), params: Params::Object(p) };
        proof {
            assert(entries_view(p@) =~= normal_params(self@));
        }
        r
    }
}

fn adjustment_name_of(kind: Adjustment) -> (r: &'static str)
    ensures
        r@ == adjustment_text(kind),
{
    match kind {
        Adjustment::Adjust => "adjust",
        Adjustment::Levels => "levels",
        Adjustment::Curves => "curves",
        Adjustment::Grayscale => "grayscale",
        Adjustment::Invert => "invert",
        Adjustment::Blur => "blur",
        Adjustment::Sharpen => "sharpen",
    }
}

fn same_texts(a: &Vec<String>, b: &Vec<String>) -> (r: bool)
    ensures
        r == (texts(a@) == texts(b@)),
{
    if a.len() != b.len() {
        assert(texts(a@).len() != texts(b@).len());
        return false;
    }
    let mut i: usize = 0;
    while i < a.len()
        invariant
            a@.len() == b@.len(),
            i <= a@.len(),
            forall|j: int| 0 <= j < i ==> a@[j]@ == b@[j]@,
        decreases a@.len() - i,
    {
        if !text_eq(a[i].as_str(), b[i].as_str()) {
            assert(texts(a@)[i as int] != texts(b@)[i as int]);
            return false;
        }
        i += 1;
    }
    assert(texts(a@) =~= texts(b@));
    true
}

fn same_pairs(a: &Vec<(String, String)>, b: &Vec<(String, String)>) -> (r: bool)
    ensures
        r == (pair_texts(a@) == pair_texts(b@)),
{
    if a.len() != b.len() {
        assert(pair_texts(a@).len() != pair_texts(b@).len());
        return false;
    }
    let mut i: usize = 0;
    while i < a.len()
        invariant
            a@.len() == b@.len(),
            i <= a@.len(),
            forall|j: int| 0 <= j < i ==> a@[j].0@ == b@[j].0@ && a@[j].1@ == b@[j].1@,
        decreases a@.len() - i,
    {
        if !text_eq(a[i].0.as_str(), b[i].0.as_str()) || !text_eq(a[i].1.as_str(), b[i].1.as_str()) {
            assert(pair_texts(a@)[i as int] != pair_texts(b@)[i as int]);
            return false;
        }
        i += 1;
    }
    assert(pair_texts(a@) =~= pair_texts(b@));
    true
}

/// Whether two parameter values are the same.
fn same_value(a: &ParamValue, b: &ParamValue) -> (r: bool)
    ensures
        r == (a@ == b@),
{
    match (a, b) {
        (ParamValue::Null, ParamValue::Null) => true,
        (ParamValue::Bool(x), ParamValue::Bool(y)) => *x == *y,
        (ParamValue::Number(x), ParamValue::Number(y)) => text_eq(x.as_str(), y.as_str()),
        (ParamValue::Text(x), ParamValue::Text(y)) => text_eq(x.as_str(), y.as_str()),
        (ParamValue::Numbers(x), ParamValue::Numbers(y)) => same_texts(x, y),
        (ParamValue::Pairs(x), ParamValue::Pairs(y)) => same_pairs(x, y),
        (ParamValue::Other(x), ParamValue::Other(y)) => text_eq(x.as_str(), y.as_str()),
        _ => false,
    }
}

/// Whether two parameter objects are the same JSON object, field order aside.
fn fields_match(n: &Vec<(String, ParamValue)>, s: &Vec<(String, ParamValue)>) -> (r: bool)
    ensures
        r == same_fields(entries_view(n@), entries_view(s@)),
{
    let ghost nv = entries_view(n@);
    let ghost sv = entries_view(s@);
    if n.len() != s.len() {
        return false;
    }
    let mut i: usize = 0;
    while i < n.len()
        invariant
            nv == entries_view(n@),
            sv == entries_view(s@),
            n@.len() == s@.len(),
            i <= n@.len(),
            forall|j: int| 0 <= j < i ==> field(sv, (#[trigger] nv[j]).0) == Some(nv[j].1),
        decreases n@.len() - i,
    {
        match find_field(s, n[i].0.as_str()) {
            Some(v) => {
                if !same_value(v, &n[i].1) {
                    assert(field(sv, nv[i as int].0) != Some(nv[i as int].1));
                    return false;
                }
            },
            None => {
                assert(field(sv, nv[i as int].0) != Some(nv[i as int].1));
                return false;
            },
        }
        i += 1;
    }
    let mut j: usize = 0;
    while j < s.len()
        invariant
            nv == entries_view(n@),
            sv == entries_view(s@),
            n@.len() == s@.len(),
            j <= s@.len(),
            forall|i: int| 0 <= i < n@.len() ==> field(sv, (#[trigger] nv[i]).0) == Some(nv[i].1),
            forall|k: int| 0 <= k < j ==> field(nv, (#[trigger] sv[k]).0) is Some,
        decreases s@.len() - j,
    {
        if find_field(n, s[j].0.as_str()).is_none() {
            assert(field(nv, sv[j as int].0) is None);
            return false;
        }
        j += 1;
    }
    true
}

impl OperationSpec {
    /// Check a committed step: it must validate, and its parameters must be the normal form
    /// of the operation it validates to (`Operation::to_spec`), as JSON objects compare.
    pub fn check_committed(&self) -> (r: Result<(), PicError>)
        ensures
            match operation_outcome(self.op@, self.op_version, self.target.0@, self.params@) {
                Err(c) => r matches Err(e) && e.code == c,
                Ok(o) => match r {
                    Ok(()) => written_normally(o, self.params@),
                    Err(e) => !written_normally(o, self.params@) && e.code == ErrorCode::InvalidArgument,
                },
            },
    {
        let op = self.validate()?;
        let normal = op.to_spec();
        let same = match (&normal.params, &self.params) {
            (Params::Object(n), Params::Object(s)) => fields_match(n, s),
            _ => false,
        };
        if !same {
            return Err(PicError::new(ErrorCode::InvalidArgument, "committed operation parameters are not normalized"));
        }
        Ok(())
    }
}

} // verus!
