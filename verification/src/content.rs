//! The content-stream operator parser: tokenises a page's content bytes
//! into the typed painting operators, reading operands before the
//! operator keyword. Numbers use the permissive stacked-sign grammar of
//! the content layer and arrive in micro-units.

use vstd::prelude::*;

use crate::color::{color_space_from_bytes, spec_clamp, spec_normalize, ColorSpace, Rgb};
use crate::error::ParseError;
use crate::geom::{Point, Vector};
use crate::numbers::{
    parse_content_number, parse_digits_u64, parse_real_micros, parse_u32, spec_cn_end,
    spec_cn_present, spec_cn_val_micros, spec_minus_at, spec_real_end, spec_real_form,
    spec_real_mag_micros, spec_sign_at, Fixed, NUMBER_LIMIT, REAL_LIMIT,
};
use crate::object::Stream;
use crate::parse::{copy_region, parse_name_obj};
use crate::scan::{
    skip_ws, spec_balanced_end, spec_skip_ws, spec_tag_at, tag_at, take_until_unmatched,
};
use crate::shared::{DashPattern, Height, LineCap, LineWidth, Width};

verus! {

/// A text block: its font, optional colour, size, position, and the raw
/// bytes between the string delimiters, passed through unrendered.
#[derive(Debug, PartialEq)]
pub struct TextContent {
    pub font_family: Vec<u8>,
    pub rgb: Option<Rgb>,
    pub font_size: u32,
    pub l_r: (Fixed, Fixed),
    pub contents: Vec<u8>,
}

/// One painting operator of a content stream.
#[derive(Debug, PartialEq)]
pub enum StreamObject {
    Text(TextContent),
    CapStyle(LineCap),
    MoveTo(Vector),
    LineTo(Vector),
    Rect(Vector, Width, Height),
    Stroke(bool),
    Fill,
    LineWidth(LineWidth),
    NonStrokeColor(Vec<Fixed>),
    StrokeColor(Vec<Fixed>),
    StrokeColorSpace(ColorSpace),
    NonStrokeColorSpace(ColorSpace),
    DashPattern(DashPattern),
}

/// The cap style an operand names: 0 butt, 1 round, 2 square; anything
/// else is refused with the value it carried.
pub fn cap_style_from_value(v: u8) -> (r: Result<LineCap, ParseError>)
    ensures
        match r {
            Ok(c) => (v == 0 && c == LineCap::Butt) || (v == 1 && c == LineCap::Round) || (v == 2
                && c == LineCap::Square),
            Err(e) => v > 2 && e == ParseError::InvalidCapStyle(v as i32),
        },
{
    if v == 0 {
        Ok(LineCap::Butt)
    } else if v == 1 {
        Ok(LineCap::Round)
    } else if v == 2 {
        Ok(LineCap::Square)
    } else {
        Err(ParseError::InvalidCapStyle(v as i32))
    }
}

/// The position after the whitespace-wrapped number at `pos`.
pub open spec fn spec_num_ws_end(s: Seq<u8>, pos: int) -> int {
    spec_skip_ws(s, spec_cn_end(s, spec_skip_ws(s, pos)))
}

/// The value of the whitespace-wrapped number at `pos`, in micro-units.
pub open spec fn spec_num_ws_val(s: Seq<u8>, pos: int) -> int {
    spec_cn_val_micros(s, spec_skip_ws(s, pos))
}

/// A whitespace-wrapped number within the limit stands at `pos`.
pub open spec fn spec_num_present(s: Seq<u8>, pos: int) -> bool {
    spec_cn_present(s, spec_skip_ws(s, pos))
}

/// A `x y m` move stands at `pos`.
pub open spec fn spec_move_to_present(s: Seq<u8>, pos: int) -> bool {
    let q1 = spec_num_ws_end(s, pos);
    let w = spec_skip_ws(s, spec_num_ws_end(s, q1));
    &&& spec_num_present(s, pos)
    &&& spec_num_present(s, q1)
    &&& w < s.len() && s[w] == 109
}

/// A `x y l` line stands at `pos`.
pub open spec fn spec_line_to_present(s: Seq<u8>, pos: int) -> bool {
    let q1 = spec_num_ws_end(s, pos);
    let w = spec_skip_ws(s, spec_num_ws_end(s, q1));
    &&& spec_num_present(s, pos)
    &&& spec_num_present(s, q1)
    &&& w < s.len() && s[w] == 108
}

/// A `x y w h re` rectangle stands at `pos`.
pub open spec fn spec_rect_present(s: Seq<u8>, pos: int) -> bool {
    let q1 = spec_num_ws_end(s, pos);
    let q2 = spec_num_ws_end(s, q1);
    let q3 = spec_num_ws_end(s, q2);
    let w = spec_skip_ws(s, spec_num_ws_end(s, q3));
    &&& spec_num_present(s, pos)
    &&& spec_num_present(s, q1)
    &&& spec_num_present(s, q2)
    &&& spec_num_present(s, q3)
    &&& spec_tag_at(s, w, seq![114u8, 101u8])
}

/// A `n J` cap style with a permitted operand stands at `pos`.
pub open spec fn spec_cap_style_present(s: Seq<u8>, pos: int) -> bool {
    let w = spec_skip_ws(s, pos);
    let de = crate::scan::spec_digits_end(s, w);
    let j = spec_skip_ws(s, spec_skip_ws(s, de));
    &&& de > w
    &&& crate::scan::spec_digits_val(s, w, de) <= 2
    &&& j < s.len() && s[j] == 74
}

/// A `x w` line width stands at `pos`.
pub open spec fn spec_line_width_present(s: Seq<u8>, pos: int) -> bool {
    let w = spec_skip_ws(s, spec_num_ws_end(s, pos));
    &&& spec_num_present(s, pos)
    &&& w < s.len() && s[w] == 119
}

/// A stroke operator stands at `pos`.
pub open spec fn spec_stroke_present(s: Seq<u8>, pos: int) -> bool {
    let w = spec_skip_ws(s, pos);
    w < s.len() && (s[w] == 83 || s[w] == 115)
}

/// A fill operator stands at `pos`.
pub open spec fn spec_fill_present(s: Seq<u8>, pos: int) -> bool {
    let w = spec_skip_ws(s, pos);
    w < s.len() && (s[w] == 102 || s[w] == 70)
}

// ------------------------------------------------------------------
// The operator grammar as functions of the input: each alternative has
// an end position and parsed values beside its presence predicate, and
// the whole stream tokenises to the operator sequence those alternatives
// yield in priority order.
// ------------------------------------------------------------------

/// End of the `x y m` move at `pos`.
pub open spec fn spec_move_to_end(s: Seq<u8>, pos: int) -> int {
    let q1 = spec_num_ws_end(s, pos);
    let w = spec_skip_ws(s, spec_num_ws_end(s, q1));
    spec_skip_ws(s, w + 1)
}

/// End of the `x y l` line at `pos`.
pub open spec fn spec_line_to_end(s: Seq<u8>, pos: int) -> int {
    let q1 = spec_num_ws_end(s, pos);
    let w = spec_skip_ws(s, spec_num_ws_end(s, q1));
    spec_skip_ws(s, w + 1)
}

/// End of the `x y w h re` rectangle at `pos`.
pub open spec fn spec_rect_end(s: Seq<u8>, pos: int) -> int {
    let q1 = spec_num_ws_end(s, pos);
    let q2 = spec_num_ws_end(s, q1);
    let q3 = spec_num_ws_end(s, q2);
    let w = spec_skip_ws(s, spec_num_ws_end(s, q3));
    spec_skip_ws(s, w + 2)
}

/// Operand value of the `n J` cap style at `pos`.
pub open spec fn spec_cap_style_val(s: Seq<u8>, pos: int) -> nat {
    let w = spec_skip_ws(s, pos);
    crate::scan::spec_digits_val(s, w, crate::scan::spec_digits_end(s, w))
}

/// End of the `n J` cap style at `pos`.
pub open spec fn spec_cap_style_end(s: Seq<u8>, pos: int) -> int {
    let w = spec_skip_ws(s, pos);
    let de = crate::scan::spec_digits_end(s, w);
    let j = spec_skip_ws(s, spec_skip_ws(s, de));
    spec_skip_ws(s, j + 1)
}

/// The cap style a permitted operand value names.
pub open spec fn spec_cap_of(v: nat) -> LineCap {
    if v == 0 {
        LineCap::Butt
    } else if v == 1 {
        LineCap::Round
    } else {
        LineCap::Square
    }
}

/// End of the `x w` line width at `pos`.
pub open spec fn spec_line_width_end(s: Seq<u8>, pos: int) -> int {
    let w = spec_skip_ws(s, spec_num_ws_end(s, pos));
    spec_skip_ws(s, w + 1)
}

/// End of the stroke operator at `pos`.
pub open spec fn spec_stroke_end(s: Seq<u8>, pos: int) -> int {
    spec_skip_ws(s, spec_skip_ws(s, pos) + 1)
}

/// The stroke at `pos` is the closing, lower-case form.
pub open spec fn spec_stroke_close(s: Seq<u8>, pos: int) -> bool {
    let w = spec_skip_ws(s, pos);
    0 <= w < s.len() && s[w] == 115
}

/// End of the fill operator at `pos`: `f*` spans two bytes, `f` and `F`
/// one.
pub open spec fn spec_fill_end(s: Seq<u8>, pos: int) -> int {
    let w = spec_skip_ws(s, pos);
    if spec_tag_at(s, w, seq![102u8, 42u8]) {
        spec_skip_ws(s, w + 2)
    } else {
        spec_skip_ws(s, w + 1)
    }
}

/// The micro-unit values of a sequence of fixed-point numbers.
pub open spec fn spec_micros_of(v: Seq<Fixed>) -> Seq<int> {
    v.map_values(|f: Fixed| f.micros as int)
}

/// End of the maximal run of whitespace-wrapped numbers at `pos`.
pub open spec fn spec_num_run_end(s: Seq<u8>, pos: int) -> int
    decreases s.len() - pos
        when 0 <= pos <= s.len()
{
    if spec_num_present(s, pos) && pos < spec_num_ws_end(s, pos) <= s.len() {
        spec_num_run_end(s, spec_num_ws_end(s, pos))
    } else {
        pos
    }
}

/// Values of the maximal run of whitespace-wrapped numbers at `pos`, in
/// micro-units.
pub open spec fn spec_num_run_vals(s: Seq<u8>, pos: int) -> Seq<int>
    decreases s.len() - pos
        when 0 <= pos <= s.len()
{
    if spec_num_present(s, pos) && pos < spec_num_ws_end(s, pos) <= s.len() {
        seq![spec_num_ws_val(s, pos)] + spec_num_run_vals(s, spec_num_ws_end(s, pos))
    } else {
        Seq::empty()
    }
}

/// A colour operand list stands at `pos`: one or more numbers, then the
/// operator keyword.
pub open spec fn spec_color_ops_present(s: Seq<u8>, pos: int, kw: Seq<u8>) -> bool {
    &&& spec_num_present(s, pos)
    &&& spec_tag_at(s, spec_skip_ws(s, spec_num_run_end(s, pos)), kw)
}

/// End of the colour operand list and keyword at `pos`.
pub open spec fn spec_color_ops_end(s: Seq<u8>, pos: int, kw: Seq<u8>) -> int {
    let w = spec_skip_ws(s, spec_num_run_end(s, pos));
    spec_skip_ws(s, w + kw.len())
}

/// The device colour space a name selects, if any.
pub open spec fn spec_cs_of_name(name: Seq<u8>) -> Option<ColorSpace> {
    if name == seq![68u8, 101u8, 118u8, 105u8, 99u8, 101u8, 82u8, 71u8, 66u8] {
        Some(ColorSpace::DeviceRGB)
    } else if name == seq![68u8, 101u8, 118u8, 105u8, 99u8, 101u8, 71u8, 114u8, 97u8, 121u8] {
        Some(ColorSpace::DeviceGray)
    } else if name == seq![68u8, 101u8, 118u8, 105u8, 99u8, 101u8, 67u8, 77u8, 89u8, 75u8] {
        Some(ColorSpace::DeviceCMYK)
    } else {
        None
    }
}

/// End of the whitespace-wrapped name object at `pos`.
pub open spec fn spec_name_obj_end(s: Seq<u8>, pos: int) -> int {
    spec_skip_ws(s, crate::strings::spec_name_end(s, spec_skip_ws(s, pos) + 1))
}

/// The decoded name object at `pos`.
pub open spec fn spec_name_obj_val(s: Seq<u8>, pos: int) -> Seq<u8> {
    crate::strings::spec_name_decode(s, spec_skip_ws(s, pos) + 1)
}

/// A `/Name kw` selection of a device colour space stands at `pos`.
pub open spec fn spec_color_space_present(s: Seq<u8>, pos: int, kw: Seq<u8>) -> bool {
    &&& crate::parse::spec_name_at(s, pos)
    &&& spec_cs_of_name(spec_name_obj_val(s, pos)) is Some
    &&& spec_tag_at(s, spec_skip_ws(s, spec_name_obj_end(s, pos)), kw)
}

/// End of the colour-space selection at `pos`.
pub open spec fn spec_color_space_end(s: Seq<u8>, pos: int, kw: Seq<u8>) -> int {
    let w = spec_skip_ws(s, spec_name_obj_end(s, pos));
    spec_skip_ws(s, w + kw.len())
}

/// A `[len ...] phase d` dash pattern stands at `pos`.
pub open spec fn spec_dash_present(s: Seq<u8>, pos: int) -> bool {
    let w0 = spec_skip_ws(s, pos);
    &&& 0 <= w0 < s.len() && s[w0] == 91
    &&& ({
        let p = spec_skip_ws(s, w0 + 1);
        let w1 = spec_skip_ws(s, spec_num_run_end(s, p));
        &&& w1 < s.len() && s[w1] == 93
        &&& ({
            let p3 = spec_skip_ws(s, w1 + 1);
            &&& spec_num_present(s, p3)
            &&& ({
                let w2 = spec_skip_ws(s, spec_num_ws_end(s, p3));
                w2 < s.len() && s[w2] == 100
            })
        })
    })
}

/// The segment lengths of the dash pattern at `pos`, in micro-units.
pub open spec fn spec_dash_lens(s: Seq<u8>, pos: int) -> Seq<int> {
    spec_num_run_vals(s, spec_skip_ws(s, spec_skip_ws(s, pos) + 1))
}

/// The phase of the dash pattern at `pos`, in micro-units.
pub open spec fn spec_dash_phase(s: Seq<u8>, pos: int) -> int {
    let w0 = spec_skip_ws(s, pos);
    let p = spec_skip_ws(s, w0 + 1);
    let w1 = spec_skip_ws(s, spec_num_run_end(s, p));
    spec_num_ws_val(s, spec_skip_ws(s, w1 + 1))
}

/// End of the dash pattern at `pos`.
pub open spec fn spec_dash_end(s: Seq<u8>, pos: int) -> int {
    let w0 = spec_skip_ws(s, pos);
    let p = spec_skip_ws(s, w0 + 1);
    let w1 = spec_skip_ws(s, spec_num_run_end(s, p));
    let p3 = spec_skip_ws(s, w1 + 1);
    let w2 = spec_skip_ws(s, spec_num_ws_end(s, p3));
    spec_skip_ws(s, w2 + 1)
}

/// An `r g b rg` text colour stands at `pos`.
pub open spec fn spec_rg_present(s: Seq<u8>, pos: int) -> bool {
    let q1 = spec_num_ws_end(s, pos);
    let q2 = spec_num_ws_end(s, q1);
    let w = spec_skip_ws(s, spec_num_ws_end(s, q2));
    &&& spec_num_present(s, pos)
    &&& spec_num_present(s, q1)
    &&& spec_num_present(s, q2)
    &&& spec_tag_at(s, w, seq![114u8, 103u8])
}

/// End of the `rg` colour at `pos`.
pub open spec fn spec_rg_end(s: Seq<u8>, pos: int) -> int {
    let q1 = spec_num_ws_end(s, pos);
    let q2 = spec_num_ws_end(s, q1);
    let w = spec_skip_ws(s, spec_num_ws_end(s, q2));
    spec_skip_ws(s, w + 2)
}

/// The clamped, normalised components of the `rg` colour at `pos`.
pub open spec fn spec_rg_vals(s: Seq<u8>, pos: int) -> (int, int, int) {
    let q1 = spec_num_ws_end(s, pos);
    let q2 = spec_num_ws_end(s, q1);
    (
        spec_normalize(spec_clamp(spec_num_ws_val(s, pos))),
        spec_normalize(spec_clamp(spec_num_ws_val(s, q1))),
        spec_normalize(spec_clamp(spec_num_ws_val(s, q2))),
    )
}

/// Start of the signed real at `pos`: one optional sign byte.
pub open spec fn spec_rm_start(s: Seq<u8>, pos: int) -> int {
    if spec_sign_at(s, pos) {
        pos + 1
    } else {
        pos
    }
}

/// A signed real within the representable range stands at `pos`.
pub open spec fn spec_rm_ok(s: Seq<u8>, pos: int) -> bool {
    &&& spec_real_form(s, spec_rm_start(s, pos))
    &&& spec_real_mag_micros(s, spec_rm_start(s, pos)) <= REAL_LIMIT
}

/// End of the signed real at `pos`.
pub open spec fn spec_rm_end(s: Seq<u8>, pos: int) -> int {
    spec_real_end(s, spec_rm_start(s, pos))
}

/// Value of the signed real at `pos`, in micro-units.
pub open spec fn spec_rm_val(s: Seq<u8>, pos: int) -> int {
    if spec_minus_at(s, pos) {
        -(spec_real_mag_micros(s, spec_rm_start(s, pos)) as int)
    } else {
        spec_real_mag_micros(s, spec_rm_start(s, pos)) as int
    }
}

/// First position at or after `pos` holding none of the four plain
/// whitespace bytes a text block's delimiters allow.
pub open spec fn spec_skip_multispace(s: Seq<u8>, pos: int) -> int
    decreases s.len() - pos
        when 0 <= pos <= s.len()
{
    if 0 <= pos < s.len() && (s[pos] == 32 || s[pos] == 9 || s[pos] == 13 || s[pos] == 10) {
        spec_skip_multispace(s, pos + 1)
    } else {
        pos
    }
}

/// Position after the `BT` keyword and the optional `rg` colour.
pub open spec fn spec_text_p1(s: Seq<u8>, pos: int) -> int {
    let p0 = spec_skip_ws(s, spec_skip_ws(s, pos) + 2);
    if spec_rg_present(s, p0) {
        spec_rg_end(s, p0)
    } else {
        p0
    }
}

/// The optional colour of the text block at `pos`.
pub open spec fn spec_text_rgb(s: Seq<u8>, pos: int) -> Option<(int, int, int)> {
    let p0 = spec_skip_ws(s, spec_skip_ws(s, pos) + 2);
    if spec_rg_present(s, p0) {
        Some(spec_rg_vals(s, p0))
    } else {
        None
    }
}

/// The font name of the text block at `pos`.
pub open spec fn spec_text_font(s: Seq<u8>, pos: int) -> Seq<u8> {
    spec_name_obj_val(s, spec_text_p1(s, pos))
}

/// Position of the font-size digits of the text block at `pos`.
pub open spec fn spec_text_w2(s: Seq<u8>, pos: int) -> int {
    spec_skip_ws(s, spec_name_obj_end(s, spec_text_p1(s, pos)))
}

/// The font size of the text block at `pos`.
pub open spec fn spec_text_size(s: Seq<u8>, pos: int) -> nat {
    let w2 = spec_text_w2(s, pos);
    crate::scan::spec_digits_val(s, w2, crate::scan::spec_digits_end(s, w2))
}

/// Position of the first `Td` operand of the text block at `pos`.
pub open spec fn spec_text_w5(s: Seq<u8>, pos: int) -> int {
    let p3 = crate::scan::spec_digits_end(s, spec_text_w2(s, pos));
    let p4 = spec_skip_ws(s, p3);
    spec_skip_ws(s, p4 + 2)
}

/// Position of the second `Td` operand of the text block at `pos`.
pub open spec fn spec_text_w6(s: Seq<u8>, pos: int) -> int {
    spec_skip_ws(s, spec_rm_end(s, spec_text_w5(s, pos)))
}

/// The two `Td` operands of the text block at `pos`, in micro-units.
pub open spec fn spec_text_tx(s: Seq<u8>, pos: int) -> int {
    spec_rm_val(s, spec_text_w5(s, pos))
}

pub open spec fn spec_text_ty(s: Seq<u8>, pos: int) -> int {
    spec_rm_val(s, spec_text_w6(s, pos))
}

/// Position of the `(` opening the string of the text block at `pos`.
pub open spec fn spec_text_p9(s: Seq<u8>, pos: int) -> int {
    let p7 = spec_rm_end(s, spec_text_w6(s, pos));
    let p8 = spec_skip_ws(s, p7);
    spec_skip_multispace(s, p8 + 2)
}

/// Position of the `)` closing the string of the text block at `pos`.
pub open spec fn spec_text_cend(s: Seq<u8>, pos: int) -> int {
    match spec_balanced_end(s, spec_text_p9(s, pos) + 1, seq![40u8], seq![41u8], 0) {
        Some(c) => c,
        None => s.len() as int,
    }
}

/// The raw string bytes of the text block at `pos`.
pub open spec fn spec_text_contents(s: Seq<u8>, pos: int) -> Seq<u8> {
    s.subrange(spec_text_p9(s, pos) + 1, spec_text_cend(s, pos))
}

/// Position of the `Tj` keyword of the text block at `pos`.
pub open spec fn spec_text_p10(s: Seq<u8>, pos: int) -> int {
    spec_skip_multispace(s, spec_text_cend(s, pos) + 1)
}

/// End of the text block at `pos`.
pub open spec fn spec_text_end(s: Seq<u8>, pos: int) -> int {
    let we = spec_skip_ws(s, spec_text_p10(s, pos) + 2);
    spec_skip_ws(s, we + 2)
}

/// A complete `BT ... ET` text block stands at `pos`.
pub open spec fn spec_text_present(s: Seq<u8>, pos: int) -> bool {
    &&& spec_tag_at(s, spec_skip_ws(s, pos), seq![66u8, 84u8])
    &&& crate::parse::spec_name_at(s, spec_text_p1(s, pos))
    &&& ({
        let w2 = spec_text_w2(s, pos);
        let p3 = crate::scan::spec_digits_end(s, w2);
        p3 > w2 && crate::scan::spec_digits_val(s, w2, p3) <= u32::MAX
    })
    &&& spec_tag_at(
        s,
        spec_skip_ws(s, crate::scan::spec_digits_end(s, spec_text_w2(s, pos))),
        seq![84u8, 102u8],
    )
    &&& spec_rm_ok(s, spec_text_w5(s, pos))
    &&& spec_rm_ok(s, spec_text_w6(s, pos))
    &&& spec_tag_at(s, spec_skip_ws(s, spec_rm_end(s, spec_text_w6(s, pos))), seq![84u8, 100u8])
    &&& ({
        let p9 = spec_text_p9(s, pos);
        0 <= p9 < s.len() && s[p9] == 40
    })
    &&& ({
        let bend = spec_balanced_end(s, spec_text_p9(s, pos) + 1, seq![40u8], seq![41u8], 0);
        bend is Some && bend.unwrap() < s.len() && s[bend.unwrap()] == 41
    })
    &&& spec_tag_at(s, spec_text_p10(s, pos), seq![84u8, 106u8])
    &&& spec_tag_at(s, spec_skip_ws(s, spec_text_p10(s, pos) + 2), seq![69u8, 84u8])
    &&& -NUMBER_LIMIT <= spec_text_tx(s, pos) <= NUMBER_LIMIT
    &&& -NUMBER_LIMIT <= spec_text_ty(s, pos) <= NUMBER_LIMIT
}

/// The mathematical form of one parsed operator: quantities as
/// unbounded integers in micro-units, byte payloads as sequences.
pub enum OpSpec {
    Text { font: Seq<u8>, rgb: Option<(int, int, int)>, size: nat, lr: (int, int), contents: Seq<u8> },
    CapStyle(LineCap),
    MoveTo(int, int),
    LineTo(int, int),
    Rect(int, int, int, int),
    Stroke(bool),
    Fill,
    LineWidth(int),
    NonStrokeColor(Seq<int>),
    StrokeColor(Seq<int>),
    StrokeColorSpace(ColorSpace),
    NonStrokeColorSpace(ColorSpace),
    Dash(Seq<int>, int),
}

/// The mathematical form of an operator value.
pub open spec fn spec_op_of(o: StreamObject) -> OpSpec {
    match o {
        StreamObject::Text(t) => (OpSpec::Text {
            font: t.font_family@,
            rgb: match t.rgb {
                Some(c) => Some(
                    (c.red.micros as int, c.green.micros as int, c.blue.micros as int),
                ),
                None => None,
            },
            size: t.font_size as nat,
            lr: (t.l_r.0.micros as int, t.l_r.1.micros as int),
            contents: t.contents@,
        }),
        StreamObject::CapStyle(c) => OpSpec::CapStyle(c),
        StreamObject::MoveTo(v) => OpSpec::MoveTo(v.x as int, v.y as int),
        StreamObject::LineTo(v) => OpSpec::LineTo(v.x as int, v.y as int),
        StreamObject::Rect(v, w, h) => OpSpec::Rect(
            v.x as int,
            v.y as int,
            w.value.micros as int,
            h.value.micros as int,
        ),
        StreamObject::Stroke(c) => OpSpec::Stroke(c),
        StreamObject::Fill => OpSpec::Fill,
        StreamObject::LineWidth(w) => OpSpec::LineWidth(w.value.micros as int),
        StreamObject::NonStrokeColor(v) => OpSpec::NonStrokeColor(spec_micros_of(v@)),
        StreamObject::StrokeColor(v) => OpSpec::StrokeColor(spec_micros_of(v@)),
        StreamObject::StrokeColorSpace(c) => OpSpec::StrokeColorSpace(c),
        StreamObject::NonStrokeColorSpace(c) => OpSpec::NonStrokeColorSpace(c),
        StreamObject::DashPattern(d) => OpSpec::Dash(
            spec_micros_of(d.array@),
            d.phase.micros as int,
        ),
    }
}

/// The mathematical form of an operator sequence.
pub open spec fn spec_ops_of(v: Seq<StreamObject>) -> Seq<OpSpec> {
    v.map_values(|o: StreamObject| spec_op_of(o))
}

pub open spec fn spec_sc_kw() -> Seq<u8> {
    seq![115u8, 99u8]
}

pub open spec fn spec_scu_kw() -> Seq<u8> {
    seq![83u8, 67u8]
}

pub open spec fn spec_csu_kw() -> Seq<u8> {
    seq![67u8, 83u8]
}

pub open spec fn spec_csl_kw() -> Seq<u8> {
    seq![99u8, 115u8]
}

/// The first operator at `pos`, by the tokeniser's priority order, with
/// the position after it; `None` when no operator stands at `pos`.
pub open spec fn spec_next_op(s: Seq<u8>, pos: int) -> Option<(int, OpSpec)> {
    if spec_text_present(s, pos) {
        Some(
            (
                spec_text_end(s, pos),
                (OpSpec::Text {
                    font: spec_text_font(s, pos),
                    rgb: spec_text_rgb(s, pos),
                    size: spec_text_size(s, pos),
                    lr: (spec_text_tx(s, pos), spec_text_ty(s, pos)),
                    contents: spec_text_contents(s, pos),
                }),
            ),
        )
    } else if spec_cap_style_present(s, pos) {
        Some(
            (spec_cap_style_end(s, pos), OpSpec::CapStyle(spec_cap_of(spec_cap_style_val(s, pos)))),
        )
    } else if spec_move_to_present(s, pos) {
        Some(
            (
                spec_move_to_end(s, pos),
                OpSpec::MoveTo(
                    spec_num_ws_val(s, pos),
                    spec_num_ws_val(s, spec_num_ws_end(s, pos)),
                ),
            ),
        )
    } else if spec_line_to_present(s, pos) {
        Some(
            (
                spec_line_to_end(s, pos),
                OpSpec::LineTo(
                    spec_num_ws_val(s, pos),
                    spec_num_ws_val(s, spec_num_ws_end(s, pos)),
                ),
            ),
        )
    } else if spec_rect_present(s, pos) {
        Some(
            (
                spec_rect_end(s, pos),
                ({
                    let q1 = spec_num_ws_end(s, pos);
                    let q2 = spec_num_ws_end(s, q1);
                    let q3 = spec_num_ws_end(s, q2);
                    OpSpec::Rect(
                        spec_num_ws_val(s, pos),
                        spec_num_ws_val(s, q1),
                        spec_num_ws_val(s, q2),
                        spec_num_ws_val(s, q3),
                    )
                }),
            ),
        )
    } else if spec_stroke_present(s, pos) {
        Some((spec_stroke_end(s, pos), OpSpec::Stroke(spec_stroke_close(s, pos))))
    } else if spec_fill_present(s, pos) {
        Some((spec_fill_end(s, pos), OpSpec::Fill))
    } else if spec_line_width_present(s, pos) {
        Some((spec_line_width_end(s, pos), OpSpec::LineWidth(spec_num_ws_val(s, pos))))
    } else if spec_color_ops_present(s, pos, spec_sc_kw()) {
        Some(
            (
                spec_color_ops_end(s, pos, spec_sc_kw()),
                OpSpec::NonStrokeColor(spec_num_run_vals(s, pos)),
            ),
        )
    } else if spec_color_ops_present(s, pos, spec_scu_kw()) {
        Some(
            (
                spec_color_ops_end(s, pos, spec_scu_kw()),
                OpSpec::StrokeColor(spec_num_run_vals(s, pos)),
            ),
        )
    } else if spec_color_space_present(s, pos, spec_csu_kw()) {
        Some(
            (
                spec_color_space_end(s, pos, spec_csu_kw()),
                OpSpec::StrokeColorSpace(spec_cs_of_name(spec_name_obj_val(s, pos)).unwrap()),
            ),
        )
    } else if spec_color_space_present(s, pos, spec_csl_kw()) {
        Some(
            (
                spec_color_space_end(s, pos, spec_csl_kw()),
                OpSpec::NonStrokeColorSpace(spec_cs_of_name(spec_name_obj_val(s, pos)).unwrap()),
            ),
        )
    } else if spec_dash_present(s, pos) {
        Some((spec_dash_end(s, pos), OpSpec::Dash(spec_dash_lens(s, pos), spec_dash_phase(s, pos))))
    } else {
        None
    }
}

/// The operator sequence the stream tokenises to from `pos`.
pub open spec fn spec_stream_ops(s: Seq<u8>, pos: int) -> Seq<OpSpec>
    decreases s.len() - pos
        when 0 <= pos <= s.len()
{
    match spec_next_op(s, pos) {
        Some((end, op)) => if pos < end <= s.len() {
            seq![op] + spec_stream_ops(s, end)
        } else {
            seq![op]
        },
        None => Seq::empty(),
    }
}

/// The position where the operator sequence from `pos` stops: the first
/// position at which no operator stands.
pub open spec fn spec_stream_end(s: Seq<u8>, pos: int) -> int
    decreases s.len() - pos
        when 0 <= pos <= s.len()
{
    match spec_next_op(s, pos) {
        Some((end, op)) => if pos < end <= s.len() {
            spec_stream_end(s, end)
        } else {
            end
        },
        None => pos,
    }
}

/// Reads one whitespace-wrapped content-stream number.
fn num_ws(s: &[u8], pos: usize) -> (r: Option<(usize, i64)>)
    requires
        pos <= s@.len(),
    ensures
        r is Some <==> spec_num_present(s@, pos as int),
        match r {
            Some((end, v)) => {
                &&& pos < end <= s@.len()
                &&& -NUMBER_LIMIT <= v <= NUMBER_LIMIT
                &&& v == spec_num_ws_val(s@, pos as int)
                &&& end == spec_num_ws_end(s@, pos as int)
            },
            None => true,
        },
{
    let w = skip_ws(s, pos);
    match parse_content_number(s, w) {
        None => None,
        Some((end, v)) => Some((skip_ws(s, end), v)),
    }
}

/// Reads a single-byte operator keyword after whitespace, with its
/// trailing whitespace.
fn byte_op(s: &[u8], pos: usize, op: u8) -> (r: Option<usize>)
    requires
        pos <= s@.len(),
    ensures
        match r {
            Some(end) => ({
                let w = spec_skip_ws(s@, pos as int);
                &&& w < s@.len() && s@[w] == op
                &&& end == spec_skip_ws(s@, w + 1)
                &&& pos < end <= s@.len()
            }),
            None => ({
                let w = spec_skip_ws(s@, pos as int);
                !(w < s@.len() && s@[w] == op)
            }),
        },
{
    let w = skip_ws(s, pos);
    if w < s.len() && s[w] == op {
        Some(skip_ws(s, w + 1))
    } else {
        None
    }
}

/// Reads a keyword after whitespace, with its trailing whitespace.
fn tag_op(s: &[u8], pos: usize, tag: &[u8]) -> (r: Option<usize>)
    requires
        pos <= s@.len(),
        tag@.len() > 0,
    ensures
        match r {
            Some(end) => ({
                let w = spec_skip_ws(s@, pos as int);
                &&& spec_tag_at(s@, w, tag@)
                &&& end == spec_skip_ws(s@, w + tag@.len())
                &&& pos < end <= s@.len()
            }),
            None => !spec_tag_at(s@, spec_skip_ws(s@, pos as int), tag@),
        },
{
    let w = skip_ws(s, pos);
    if tag_at(s, w, tag) {
        let n = s.len();
        proof {
            assert(w + tag@.len() <= n);
        }
        Some(skip_ws(s, w + tag.len()))
    } else {
        None
    }
}

/// Parses `x y m`: a move.
pub fn parse_move_to(s: &[u8], pos: usize) -> (r: Option<(usize, Vector)>)
    requires
        pos <= s@.len(),
    ensures
        r is Some <==> spec_move_to_present(s@, pos as int),
        match r {
            Some((end, v)) => ({
                let q1 = spec_num_ws_end(s@, pos as int);
                &&& pos < end <= s@.len()
                &&& -NUMBER_LIMIT <= v.x <= NUMBER_LIMIT
                &&& -NUMBER_LIMIT <= v.y <= NUMBER_LIMIT
                &&& v.x == spec_num_ws_val(s@, pos as int)
                &&& v.y == spec_num_ws_val(s@, q1)
                &&& end == spec_move_to_end(s@, pos as int)
            }),
            None => true,
        },
{
    let (p1, x) = match num_ws(s, pos) {
        None => {
            return None;
        },
        Some(t) => t,
    };
    let (p2, y) = match num_ws(s, p1) {
        None => {
            return None;
        },
        Some(t) => t,
    };
    match byte_op(s, p2, 109) {
        None => None,
        Some(end) => Some((end, Point { x, y })),
    }
}

/// Parses `x y l`: a line.
pub fn parse_line_to(s: &[u8], pos: usize) -> (r: Option<(usize, Vector)>)
    requires
        pos <= s@.len(),
    ensures
        r is Some <==> spec_line_to_present(s@, pos as int),
        match r {
            Some((end, v)) => ({
                let q1 = spec_num_ws_end(s@, pos as int);
                &&& pos < end <= s@.len()
                &&& -NUMBER_LIMIT <= v.x <= NUMBER_LIMIT
                &&& -NUMBER_LIMIT <= v.y <= NUMBER_LIMIT
                &&& v.x == spec_num_ws_val(s@, pos as int)
                &&& v.y == spec_num_ws_val(s@, q1)
                &&& end == spec_line_to_end(s@, pos as int)
            }),
            None => true,
        },
{
    let (p1, x) = match num_ws(s, pos) {
        None => {
            return None;
        },
        Some(t) => t,
    };
    let (p2, y) = match num_ws(s, p1) {
        None => {
            return None;
        },
        Some(t) => t,
    };
    match byte_op(s, p2, 108) {
        None => None,
        Some(end) => Some((end, Point { x, y })),
    }
}

/// Parses `x y w h re`: a rectangle from its lower-left corner.
pub fn parse_rect(s: &[u8], pos: usize) -> (r: Option<(usize, Vector, Width, Height)>)
    requires
        pos <= s@.len(),
    ensures
        r is Some <==> spec_rect_present(s@, pos as int),
        match r {
            Some((end, v, w, h)) => ({
                let q1 = spec_num_ws_end(s@, pos as int);
                let q2 = spec_num_ws_end(s@, q1);
                let q3 = spec_num_ws_end(s@, q2);
                &&& pos < end <= s@.len()
                &&& -NUMBER_LIMIT <= v.x <= NUMBER_LIMIT
                &&& -NUMBER_LIMIT <= v.y <= NUMBER_LIMIT
                &&& -NUMBER_LIMIT <= w.value.micros <= NUMBER_LIMIT
                &&& -NUMBER_LIMIT <= h.value.micros <= NUMBER_LIMIT
                &&& v.x == spec_num_ws_val(s@, pos as int)
                &&& v.y == spec_num_ws_val(s@, q1)
                &&& w.value.micros == spec_num_ws_val(s@, q2)
                &&& h.value.micros == spec_num_ws_val(s@, q3)
                &&& end == spec_rect_end(s@, pos as int)
            }),
            None => true,
        },
{
    let (p1, x) = match num_ws(s, pos) {
        None => {
            return None;
        },
        Some(t) => t,
    };
    let (p2, y) = match num_ws(s, p1) {
        None => {
            return None;
        },
        Some(t) => t,
    };
    let (p3, w) = match num_ws(s, p2) {
        None => {
            return None;
        },
        Some(t) => t,
    };
    let (p4, h) = match num_ws(s, p3) {
        None => {
            return None;
        },
        Some(t) => t,
    };
    let kw = vec![114u8, 101u8];
    proof {
        assert(kw@ =~= seq![114u8, 101u8]);
    }
    match tag_op(s, p4, kw.as_slice()) {
        None => None,
        Some(end) => Some(
            (
                end,
                Point { x, y },
                Width::new(Fixed::from_micros(w)),
                Height::new(Fixed::from_micros(h)),
            ),
        ),
    }
}

/// Parses `S` or `s`: a stroke; the lower-case form closes the path
/// first.
pub fn parse_stroke(s: &[u8], pos: usize) -> (r: Option<(usize, bool)>)
    requires
        pos <= s@.len(),
    ensures
        match r {
            Some((end, close)) => ({
                let w = spec_skip_ws(s@, pos as int);
                &&& pos < end <= s@.len()
                &&& w < s@.len()
                &&& (s@[w] == 83 || s@[w] == 115)
                &&& close == spec_stroke_close(s@, pos as int)
                &&& end == spec_stroke_end(s@, pos as int)
            }),
            None => ({
                let w = spec_skip_ws(s@, pos as int);
                !(w < s@.len() && (s@[w] == 83 || s@[w] == 115))
            }),
        },
{
    proof {
        crate::scan::lemma_skip_ws_bounds(s@, pos as int);
    }
    match byte_op(s, pos, 83) {
        Some(end) => Some((end, false)),
        None => match byte_op(s, pos, 115) {
            Some(end) => Some((end, true)),
            None => None,
        },
    }
}

/// Parses `f`, `F` or `f*`: a fill.
pub fn parse_fill(s: &[u8], pos: usize) -> (r: Option<usize>)
    requires
        pos <= s@.len(),
    ensures
        match r {
            Some(end) => ({
                let w = spec_skip_ws(s@, pos as int);
                &&& pos < end <= s@.len()
                &&& w < s@.len() && (s@[w] == 102 || s@[w] == 70)
                &&& end == spec_fill_end(s@, pos as int)
            }),
            None => ({
                let w = spec_skip_ws(s@, pos as int);
                !(w < s@.len() && (s@[w] == 102 || s@[w] == 70))
            }),
        },
{
    let star = vec![102u8, 42u8];
    proof {
        assert(star@ =~= seq![102u8, 42u8]);
    }
    match tag_op(s, pos, star.as_slice()) {
        Some(end) => Some(end),
        None => match byte_op(s, pos, 102) {
            Some(end) => Some(end),
            None => byte_op(s, pos, 70),
        },
    }
}

/// Parses `n J`: the cap style. An operand other than 0, 1 or 2 fails
/// the parse.
pub fn parse_cap_style(s: &[u8], pos: usize) -> (r: Option<(usize, LineCap)>)
    requires
        pos <= s@.len(),
    ensures
        r is Some <==> spec_cap_style_present(s@, pos as int),
        match r {
            Some((end, c)) => ({
                let w = spec_skip_ws(s@, pos as int);
                let de = crate::scan::spec_digits_end(s@, w);
                let v = crate::scan::spec_digits_val(s@, w, de);
                &&& pos < end <= s@.len()
                &&& de > w
                &&& (v == 0 && c == LineCap::Butt) || (v == 1 && c == LineCap::Round) || (v == 2
                    && c == LineCap::Square)
                &&& c == spec_cap_of(spec_cap_style_val(s@, pos as int))
                &&& end == spec_cap_style_end(s@, pos as int)
            }),
            None => true,
        },
{
    let w = skip_ws(s, pos);
    let (p1, v) = match parse_digits_u64(s, w) {
        None => {
            return None;
        },
        Some(t) => t,
    };
    if v > 255 {
        return None;
    }
    let p2 = skip_ws(s, p1);
    match byte_op(s, p2, 74) {
        None => None,
        Some(end) => match cap_style_from_value(v as u8) {
            Ok(c) => Some((end, c)),
            Err(_) => None,
        },
    }
}

/// Parses `x w`: the line width.
pub fn parse_line_width(s: &[u8], pos: usize) -> (r: Option<(usize, LineWidth)>)
    requires
        pos <= s@.len(),
    ensures
        r is Some <==> spec_line_width_present(s@, pos as int),
        match r {
            Some((end, lw)) => {
                &&& pos < end <= s@.len()
                &&& -NUMBER_LIMIT <= lw.value.micros <= NUMBER_LIMIT
                &&& lw.value.micros == spec_num_ws_val(s@, pos as int)
                &&& end == spec_line_width_end(s@, pos as int)
            },
            None => true,
        },
{
    let (p1, v) = match num_ws(s, pos) {
        None => {
            return None;
        },
        Some(t) => t,
    };
    match byte_op(s, p1, 119) {
        None => None,
        Some(end) => Some((end, LineWidth::new(Fixed::from_micros(v)))),
    }
}

/// Parses one or more numbers followed by the given keyword: the operand
/// list of a colour operator.
fn parse_color_operands(s: &[u8], pos: usize, kw: &[u8]) -> (r: Option<(usize, Vec<Fixed>)>)
    requires
        pos <= s@.len(),
        kw@.len() > 0,
    ensures
        r is Some <==> spec_color_ops_present(s@, pos as int, kw@),
        match r {
            Some((end, v)) => {
                &&& pos < end <= s@.len()
                &&& end == spec_color_ops_end(s@, pos as int, kw@)
                &&& v@.len() >= 1
                &&& spec_micros_of(v@) == spec_num_run_vals(s@, pos as int)
                &&& forall|i: int|
                    0 <= i < v@.len() ==> -NUMBER_LIMIT <= (#[trigger] v@[i]).micros
                        <= NUMBER_LIMIT
            },
            None => true,
        },
{
    let mut out: Vec<Fixed> = Vec::new();
    let (mut p, first) = match num_ws(s, pos) {
        None => {
            return None;
        },
        Some(t) => t,
    };
    out.push(Fixed::from_micros(first));
    proof {
        assert(spec_micros_of(out@) =~= seq![spec_num_ws_val(s@, pos as int)]);
    }
    loop
        invariant
            pos < p <= s@.len(),
            out@.len() >= 1,
            forall|i: int|
                0 <= i < out@.len() ==> -NUMBER_LIMIT <= (#[trigger] out@[i]).micros
                    <= NUMBER_LIMIT,
            kw@.len() > 0,
            spec_num_run_end(s@, pos as int) == spec_num_run_end(s@, p as int),
            spec_num_run_vals(s@, pos as int) =~= spec_micros_of(out@) + spec_num_run_vals(
                s@,
                p as int,
            ),
        ensures
            !spec_num_present(s@, p as int),
        decreases s@.len() - p,
    {
        match num_ws(s, p) {
            Some((p2, v)) => {
                let ghost prior = out@;
                out.push(Fixed::from_micros(v));
                proof {
                    assert(spec_micros_of(out@) =~= spec_micros_of(prior) + seq![
                        spec_num_ws_val(s@, p as int),
                    ]);
                }
                p = p2;
            },
            None => {
                break ;
            },
        }
    }
    proof {
        assert(spec_num_run_end(s@, p as int) == p);
        assert(spec_num_run_vals(s@, p as int) =~= Seq::<int>::empty());
        assert(spec_micros_of(out@) =~= spec_num_run_vals(s@, pos as int));
    }
    match tag_op(s, p, kw) {
        None => None,
        Some(end) => Some((end, out)),
    }
}

/// Parses `/Name cs` or `/Name CS`: a colour-space selection; only the
/// device spaces are recognised.
fn parse_color_space_op(s: &[u8], pos: usize, kw: &[u8]) -> (r: Option<(usize, ColorSpace)>)
    requires
        pos <= s@.len(),
        kw@.len() > 0,
    ensures
        r is Some <==> spec_color_space_present(s@, pos as int, kw@),
        match r {
            Some((end, c)) => {
                &&& pos < end <= s@.len()
                &&& end == spec_color_space_end(s@, pos as int, kw@)
                &&& Some(c) == spec_cs_of_name(spec_name_obj_val(s@, pos as int))
            },
            None => true,
        },
{
    let (p1, name) = match parse_name_obj(s, pos) {
        None => {
            return None;
        },
        Some(t) => t,
    };
    let cs = match color_space_from_bytes(name.as_slice()) {
        Err(_) => {
            return None;
        },
        Ok(c) => c,
    };
    proof {
        assert(Some(cs) == spec_cs_of_name(name@));
    }
    match tag_op(s, p1, kw) {
        None => None,
        Some(end) => Some((end, cs)),
    }
}

/// Parses `[len len ...] phase d`: the dash pattern.
pub fn parse_dash_pattern(s: &[u8], pos: usize) -> (r: Option<(usize, DashPattern)>)
    requires
        pos <= s@.len(),
    ensures
        r is Some <==> spec_dash_present(s@, pos as int),
        match r {
            Some((end, d)) => {
                &&& pos < end <= s@.len()
                &&& end == spec_dash_end(s@, pos as int)
                &&& spec_micros_of(d.array@) == spec_dash_lens(s@, pos as int)
                &&& d.phase.micros == spec_dash_phase(s@, pos as int)
            },
            None => true,
        },
{
    proof {
        crate::scan::lemma_skip_ws_bounds(s@, pos as int);
    }
    let mut p = match byte_op(s, pos, 91) {
        None => {
            return None;
        },
        Some(t) => t,
    };
    let ghost pstart: int = p as int;
    let mut lens: Vec<Fixed> = Vec::new();
    loop
        invariant
            pos < p <= s@.len(),
            0 <= pstart <= s@.len(),
            spec_num_run_end(s@, pstart) == spec_num_run_end(s@, p as int),
            spec_num_run_vals(s@, pstart) =~= spec_micros_of(lens@) + spec_num_run_vals(
                s@,
                p as int,
            ),
        ensures
            !spec_num_present(s@, p as int),
        decreases s@.len() - p,
    {
        match num_ws(s, p) {
            Some((p2, v)) => {
                let ghost prior = lens@;
                lens.push(Fixed::from_micros(v));
                proof {
                    assert(spec_micros_of(lens@) =~= spec_micros_of(prior) + seq![
                        spec_num_ws_val(s@, p as int),
                    ]);
                }
                p = p2;
            },
            None => {
                break ;
            },
        }
    }
    proof {
        assert(spec_num_run_end(s@, p as int) == p);
        assert(spec_num_run_vals(s@, p as int) =~= Seq::<int>::empty());
        assert(spec_micros_of(lens@) =~= spec_num_run_vals(s@, pstart));
    }
    let p3 = match byte_op(s, p, 93) {
        None => {
            return None;
        },
        Some(t) => t,
    };
    let (p4, phase) = match num_ws(s, p3) {
        None => {
            return None;
        },
        Some(t) => t,
    };
    match byte_op(s, p4, 100) {
        None => None,
        Some(end) => Some((end, DashPattern::new(lens, Fixed::from_micros(phase)))),
    }
}

/// Skips the plain whitespace bytes a text block's delimiters allow.
fn skip_multispace(s: &[u8], pos: usize) -> (r: usize)
    requires
        pos <= s@.len(),
    ensures
        pos <= r <= s@.len(),
        r == spec_skip_multispace(s@, pos as int),
{
    let n = s.len();
    let mut i = pos;
    while i < n && (s[i] == 32 || s[i] == 9 || s[i] == 13 || s[i] == 10)
        invariant
            pos <= i <= n,
            n == s@.len(),
            spec_skip_multispace(s@, pos as int) == spec_skip_multispace(s@, i as int),
        decreases n - i,
    {
        i = i + 1;
    }
    i
}

/// Parses a `BT ... ET` text block: an optional `r g b rg` colour, the
/// font and size from `Tf`, the position from `Td`, and the raw string
/// bytes of `Tj`.
pub fn parse_text(s: &[u8], pos: usize) -> (r: Option<(usize, TextContent)>)
    requires
        pos <= s@.len(),
    ensures
        r is Some <==> spec_text_present(s@, pos as int),
        match r {
            Some((end, t)) => {
                &&& pos < end <= s@.len()
                &&& end == spec_text_end(s@, pos as int)
                &&& t.font_family@ == spec_text_font(s@, pos as int)
                &&& (match t.rgb {
                    Some(c) => spec_text_rgb(s@, pos as int) == Some(
                        ((c.red.micros as int, c.green.micros as int, c.blue.micros as int)),
                    ),
                    None => spec_text_rgb(s@, pos as int) is None,
                })
                &&& t.font_size == spec_text_size(s@, pos as int)
                &&& t.l_r.0.micros == spec_text_tx(s@, pos as int)
                &&& t.l_r.1.micros == spec_text_ty(s@, pos as int)
                &&& t.contents@ == spec_text_contents(s@, pos as int)
                &&& -NUMBER_LIMIT <= t.l_r.0.micros <= NUMBER_LIMIT
                &&& -NUMBER_LIMIT <= t.l_r.1.micros <= NUMBER_LIMIT
            },
            None => true,
        },
{
    let n = s.len();
    let bt = vec![66u8, 84u8];
    proof {
        assert(bt@ =~= seq![66u8, 84u8]);
    }
    let p0 = match tag_op(s, pos, bt.as_slice()) {
        None => {
            proof {
                assert(!spec_text_present(s@, pos as int));
            }
            return None;
        },
        Some(t) => t,
    };
    // optional `r g b rg`
    let (p1, rgb) = match parse_rg(s, p0) {
        Some((p, c)) => (p, Some(c)),
        None => (p0, None),
    };
    proof {
        assert(p1 as int == spec_text_p1(s@, pos as int));
    }
    // `/Font size Tf`
    let (p2, font_family) = match parse_name_obj(s, p1) {
        None => {
            proof {
                assert(!spec_text_present(s@, pos as int));
            }
            return None;
        },
        Some(t) => t,
    };
    let w2 = skip_ws(s, p2);
    proof {
        assert(w2 as int == spec_text_w2(s@, pos as int));
    }
    let (p3, font_size) = match parse_u32(s, w2) {
        None => {
            proof {
                assert(!spec_text_present(s@, pos as int));
            }
            return None;
        },
        Some(t) => t,
    };
    let p4 = skip_ws(s, p3);
    let tf = vec![84u8, 102u8];
    proof {
        assert(tf@ =~= seq![84u8, 102u8]);
    }
    if !tag_at(s, p4, tf.as_slice()) {
        proof {
            assert(!spec_text_present(s@, pos as int));
        }
        return None;
    }
    proof {
        assert(p4 + 2 <= n);
    }
    // `tx ty Td`
    let w5 = skip_ws(s, p4 + 2);
    proof {
        assert(w5 as int == spec_text_w5(s@, pos as int));
    }
    let (p6, tx) = match parse_real_micros(s, w5) {
        None => {
            proof {
                assert(!spec_rm_ok(s@, w5 as int));
                assert(!spec_text_present(s@, pos as int));
            }
            return None;
        },
        Some(t) => t,
    };
    let w6 = skip_ws(s, p6);
    proof {
        assert(p6 as int == spec_rm_end(s@, w5 as int));
        assert(w6 as int == spec_text_w6(s@, pos as int));
    }
    let (p7, ty) = match parse_real_micros(s, w6) {
        None => {
            proof {
                assert(!spec_rm_ok(s@, w6 as int));
                assert(!spec_text_present(s@, pos as int));
            }
            return None;
        },
        Some(t) => t,
    };
    let p8 = skip_ws(s, p7);
    let td = vec![84u8, 100u8];
    proof {
        assert(p7 as int == spec_rm_end(s@, w6 as int));
        assert(td@ =~= seq![84u8, 100u8]);
    }
    if !tag_at(s, p8, td.as_slice()) {
        proof {
            assert(!spec_text_present(s@, pos as int));
        }
        return None;
    }
    proof {
        assert(p8 + 2 <= n);
    }
    // `( ... ) Tj`
    let p9 = skip_multispace(s, p8 + 2);
    proof {
        assert(p9 as int == spec_text_p9(s@, pos as int));
    }
    if !(p9 < s.len() && s[p9] == 40) {
        proof {
            assert(!spec_text_present(s@, pos as int));
        }
        return None;
    }
    let copen = vec![40u8];
    let cclose = vec![41u8];
    proof {
        assert(copen@ =~= seq![40u8]);
        assert(cclose@ =~= seq![41u8]);
    }
    let cend = match take_until_unmatched(copen.as_slice(), cclose.as_slice(), s, p9 + 1) {
        None => {
            proof {
                assert(spec_balanced_end(s@, p9 + 1, seq![40u8], seq![41u8], 0) is None);
                assert(!spec_text_present(s@, pos as int));
            }
            return None;
        },
        Some(t) => t,
    };
    proof {
        assert(Some(cend as int) == spec_balanced_end(s@, p9 + 1, seq![40u8], seq![41u8], 0));
        assert(cend as int == spec_text_cend(s@, pos as int));
    }
    if !(cend < s.len() && s[cend] == 41) {
        proof {
            assert(!spec_text_present(s@, pos as int));
        }
        return None;
    }
    let contents = copy_region(s, p9 + 1, cend);
    let p10 = skip_multispace(s, cend + 1);
    proof {
        assert(p10 as int == spec_text_p10(s@, pos as int));
    }
    let tj = vec![84u8, 106u8];
    proof {
        assert(tj@ =~= seq![84u8, 106u8]);
    }
    if !tag_at(s, p10, tj.as_slice()) {
        proof {
            assert(!spec_text_present(s@, pos as int));
        }
        return None;
    }
    proof {
        assert(p10 + 2 <= n);
    }
    // closing `ET`
    let et = vec![69u8, 84u8];
    proof {
        assert(et@ =~= seq![69u8, 84u8]);
    }
    let end = match tag_op(s, p10 + 2, et.as_slice()) {
        None => {
            proof {
                assert(!spec_text_present(s@, pos as int));
            }
            return None;
        },
        Some(t) => t,
    };
    proof {
        assert(end as int == spec_text_end(s@, pos as int));
        assert(tx == spec_text_tx(s@, pos as int));
        assert(ty == spec_text_ty(s@, pos as int));
    }
    if -NUMBER_LIMIT <= tx && tx <= NUMBER_LIMIT && -NUMBER_LIMIT <= ty && ty
        <= NUMBER_LIMIT {
        proof {
            assert(spec_text_present(s@, pos as int));
        }
        Some(
            (
                end,
                TextContent {
                    font_family,
                    rgb,
                    font_size,
                    l_r: (Fixed::from_micros(tx), Fixed::from_micros(ty)),
                    contents,
                },
            ),
        )
    } else {
        proof {
            assert(!spec_text_present(s@, pos as int));
        }
        None
    }
}

/// Parses `r g b rg`: a text colour.
fn parse_rg(s: &[u8], pos: usize) -> (r: Option<(usize, Rgb)>)
    requires
        pos <= s@.len(),
    ensures
        r is Some <==> spec_rg_present(s@, pos as int),
        match r {
            Some((end, c)) => {
                &&& pos < end <= s@.len()
                &&& end == spec_rg_end(s@, pos as int)
                &&& (c.red.micros as int, c.green.micros as int, c.blue.micros as int)
                    == spec_rg_vals(s@, pos as int)
            },
            None => true,
        },
{
    let (p1, rv) = match num_ws(s, pos) {
        None => {
            return None;
        },
        Some(t) => t,
    };
    let (p2, gv) = match num_ws(s, p1) {
        None => {
            return None;
        },
        Some(t) => t,
    };
    let (p3, bv) = match num_ws(s, p2) {
        None => {
            return None;
        },
        Some(t) => t,
    };
    let kw = vec![114u8, 103u8];
    proof {
        assert(kw@ =~= seq![114u8, 103u8]);
    }
    match tag_op(s, p3, kw.as_slice()) {
        None => None,
        Some(end) => Some(
            (
                end,
                Rgb::new(Fixed::from_micros(rv), Fixed::from_micros(gv), Fixed::from_micros(bv)),
            ),
        ),
    }
}

/// Unfolds one step of the operator-sequence grammar.
proof fn lemma_ops_unfold(s: Seq<u8>, pos: int, end: int, op: OpSpec)
    requires
        0 <= pos <= s.len(),
        pos < end <= s.len(),
        spec_next_op(s, pos) == Some((end, op)),
    ensures
        spec_stream_ops(s, pos) == seq![op] + spec_stream_ops(s, end),
        spec_stream_end(s, pos) == spec_stream_end(s, end),
{
}

/// Reads the single operator at `p`, if any, trying the alternatives in
/// the grammar's priority order.
#[verifier::rlimit(100)]
#[verifier::spinoff_prover]
fn parse_one(s: &[u8], p: usize) -> (r: Option<(usize, StreamObject)>)
    requires
        p <= s@.len(),
    ensures
        match r {
            Some((p2, o)) => {
                &&& p < p2 <= s@.len()
                &&& spec_next_op(s@, p as int) == Some((p2 as int, spec_op_of(o)))
                &&& (match o {
                    StreamObject::MoveTo(v) => -NUMBER_LIMIT <= v.x <= NUMBER_LIMIT
                        && -NUMBER_LIMIT <= v.y <= NUMBER_LIMIT,
                    StreamObject::LineTo(v) => -NUMBER_LIMIT <= v.x <= NUMBER_LIMIT
                        && -NUMBER_LIMIT <= v.y <= NUMBER_LIMIT,
                    StreamObject::Rect(v, w, h) => -NUMBER_LIMIT <= v.x <= NUMBER_LIMIT
                        && -NUMBER_LIMIT <= v.y <= NUMBER_LIMIT && -NUMBER_LIMIT
                        <= w.value.micros <= NUMBER_LIMIT && -NUMBER_LIMIT <= h.value.micros
                        <= NUMBER_LIMIT,
                    _ => true,
                })
            },
            None => spec_next_op(s@, p as int) is None,
        },
{
    if let Some((p2, t)) = parse_text(s, p) {
        return Some((p2, StreamObject::Text(t)));
    }
    if let Some((p2, c)) = parse_cap_style(s, p) {
        return Some((p2, StreamObject::CapStyle(c)));
    }
    if let Some((p2, v)) = parse_move_to(s, p) {
        return Some((p2, StreamObject::MoveTo(v)));
    }
    if let Some((p2, v)) = parse_line_to(s, p) {
        return Some((p2, StreamObject::LineTo(v)));
    }
    if let Some((p2, v, w, h)) = parse_rect(s, p) {
        return Some((p2, StreamObject::Rect(v, w, h)));
    }
    if let Some((p2, close)) = parse_stroke(s, p) {
        return Some((p2, StreamObject::Stroke(close)));
    }
    if let Some(p2) = parse_fill(s, p) {
        return Some((p2, StreamObject::Fill));
    }
    if let Some((p2, lw)) = parse_line_width(s, p) {
        return Some((p2, StreamObject::LineWidth(lw)));
    }
    let sc = vec![115u8, 99u8];
    proof {
        assert(sc@ =~= seq![115u8, 99u8]);
    }
    if let Some((p2, ops)) = parse_color_operands(s, p, sc.as_slice()) {
        return Some((p2, StreamObject::NonStrokeColor(ops)));
    }
    let scu = vec![83u8, 67u8];
    proof {
        assert(scu@ =~= seq![83u8, 67u8]);
    }
    if let Some((p2, ops)) = parse_color_operands(s, p, scu.as_slice()) {
        return Some((p2, StreamObject::StrokeColor(ops)));
    }
    let csu = vec![67u8, 83u8];
    proof {
        assert(csu@ =~= seq![67u8, 83u8]);
    }
    if let Some((p2, cs)) = parse_color_space_op(s, p, csu.as_slice()) {
        return Some((p2, StreamObject::StrokeColorSpace(cs)));
    }
    let csl = vec![99u8, 115u8];
    proof {
        assert(csl@ =~= seq![99u8, 115u8]);
    }
    if let Some((p2, cs)) = parse_color_space_op(s, p, csl.as_slice()) {
        return Some((p2, StreamObject::NonStrokeColorSpace(cs)));
    }
    if let Some((p2, d)) = parse_dash_pattern(s, p) {
        return Some((p2, StreamObject::DashPattern(d)));
    }
    None
}

/// Tokenises a whole content stream into operators, reading them in
/// order until no operator matches; returns exactly the operator
/// sequence of the grammar and the position where it stops.
pub fn parse_stream_objects(s: &[u8]) -> (r: (Vec<StreamObject>, usize))
    ensures
        r.1 <= s@.len(),
        r.1 == spec_stream_end(s@, 0),
        spec_next_op(s@, r.1 as int) is None,
        spec_ops_of(r.0@) == spec_stream_ops(s@, 0),
        forall|i: int|
            0 <= i < r.0@.len() ==> match #[trigger] r.0@[i] {
                StreamObject::MoveTo(v) => -NUMBER_LIMIT <= v.x <= NUMBER_LIMIT && -NUMBER_LIMIT
                    <= v.y <= NUMBER_LIMIT,
                StreamObject::LineTo(v) => -NUMBER_LIMIT <= v.x <= NUMBER_LIMIT && -NUMBER_LIMIT
                    <= v.y <= NUMBER_LIMIT,
                StreamObject::Rect(v, w, h) => -NUMBER_LIMIT <= v.x <= NUMBER_LIMIT
                    && -NUMBER_LIMIT <= v.y <= NUMBER_LIMIT && -NUMBER_LIMIT <= w.value.micros
                    <= NUMBER_LIMIT && -NUMBER_LIMIT <= h.value.micros <= NUMBER_LIMIT,
                _ => true,
            },
{
    let n = s.len();
    let mut out: Vec<StreamObject> = Vec::new();
    let mut p: usize = 0;
    proof {
        assert(spec_ops_of(out@) =~= Seq::<OpSpec>::empty());
    }
    loop
        invariant
            0 <= p <= n,
            n == s@.len(),
            spec_stream_end(s@, 0) == spec_stream_end(s@, p as int),
            spec_stream_ops(s@, 0) =~= spec_ops_of(out@) + spec_stream_ops(s@, p as int),
            forall|i: int|
                0 <= i < out@.len() ==> match #[trigger] out@[i] {
                    StreamObject::MoveTo(v) => -NUMBER_LIMIT <= v.x <= NUMBER_LIMIT
                        && -NUMBER_LIMIT <= v.y <= NUMBER_LIMIT,
                    StreamObject::LineTo(v) => -NUMBER_LIMIT <= v.x <= NUMBER_LIMIT
                        && -NUMBER_LIMIT <= v.y <= NUMBER_LIMIT,
                    StreamObject::Rect(v, w, h) => -NUMBER_LIMIT <= v.x <= NUMBER_LIMIT
                        && -NUMBER_LIMIT <= v.y <= NUMBER_LIMIT && -NUMBER_LIMIT
                        <= w.value.micros <= NUMBER_LIMIT && -NUMBER_LIMIT <= h.value.micros
                        <= NUMBER_LIMIT,
                    _ => true,
                },
        ensures
            spec_next_op(s@, p as int) is None,
        decreases n - p,
    {
        let ghost pprev: int = p as int;
        let ghost prior: Seq<StreamObject> = out@;
        match parse_one(s, p) {
            Some((p2, o)) => {
                let ghost opv = spec_op_of(o);
                out.push(o);
                proof {
                    lemma_ops_unfold(s@, pprev, p2 as int, opv);
                    assert(spec_ops_of(out@) =~= spec_ops_of(prior) + seq![opv]);
                    assert(spec_stream_ops(s@, 0) =~= spec_ops_of(out@) + spec_stream_ops(
                        s@,
                        p2 as int,
                    ));
                }
                p = p2;
            },
            None => {
                break ;
            },
        }
    }
    proof {
        assert(spec_stream_end(s@, p as int) == p);
        assert(spec_stream_ops(s@, p as int) =~= Seq::<OpSpec>::empty());
        assert(spec_ops_of(out@) =~= spec_stream_ops(s@, 0));
    }
    (out, p)
}

impl Stream {
    /// Tokenises the stream's payload into operators: `Ok` exactly when
    /// the operator grammar consumes every byte, and then it carries the
    /// operator sequence in file order; otherwise the unconsumed suffix,
    /// at which no operator stands, is carried in the failure.
    pub fn get_content(&self) -> (r: Result<Vec<StreamObject>, ParseError>)
        ensures
            r is Ok <==> spec_stream_end(self.content@, 0) == self.content@.len(),
            match r {
                Ok(v) => spec_ops_of(v@) == spec_stream_ops(self.content@, 0),
                Err(e) => e matches ParseError::FailedToParseAllStreamContent(rest) && ({
                    let a = spec_stream_end(self.content@, 0);
                    &&& 0 <= a < self.content@.len()
                    &&& rest@ == self.content@.subrange(a, self.content@.len() as int)
                    &&& rest@.len() > 0
                    &&& spec_next_op(self.content@, a) is None
                }),
            },
    {
        let (ops, rest) = parse_stream_objects(self.content.as_slice());
        if rest < self.content.len() {
            let remainder = copy_region(self.content.as_slice(), rest, self.content.len());
            proof {
                assert(remainder@ == self.content@.subrange(
                    rest as int,
                    self.content@.len() as int,
                ));
            }
            return Err(ParseError::FailedToParseAllStreamContent(remainder));
        }
        Ok(ops)
    }
}

} // verus!
