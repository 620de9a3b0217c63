//! Tests for the draw state machines, the path builder and its fillable
//! rewrite, the graphics state machine, the operator parser and the
//! colour values.

use pdfgeom::color::{ColorError, ColorSpace, ColorSpaceWithColor, Cmyk, Gray, Rgb};
use pdfgeom::content::{cap_style_from_value, parse_stream_objects, StreamObject};
use pdfgeom::draw_state::{Command, Commands, DrawState};
use pdfgeom::error::ParseError;
use pdfgeom::geom::{point, Point};
use pdfgeom::graphics_state::{GraphicsState, State};
use pdfgeom::numbers::Fixed;
use pdfgeom::path_builder::{Path, PathEvent};
use pdfgeom::shared::{Height, LineCap, LineWidth, Width};
use pdfgeom::tessellation::{
    Command as TessCommand, Commands as TessCommands, DrawState as TessDrawState,
};
use pdfgeom::utils::invert_index;

fn units(v: i64) -> Fixed {
    Fixed { micros: v * 1000000 }
}

#[test]
fn test_invert_index() {
    let len = 8;
    assert_eq!(invert_index(0, len), 7);
    assert_eq!(invert_index(1, len), 6);
    assert_eq!(invert_index(2, len), 5);
    assert_eq!(invert_index(3, len), 4);
    assert_eq!(invert_index(4, len), 3);
    assert_eq!(invert_index(5, len), 2);
    assert_eq!(invert_index(6, len), 1);
    assert_eq!(invert_index(7, len), 0);
}

#[test]
fn test_draw_state_transitions() {
    let mut state = DrawState::default();
    assert!(state.assert_is_inactive().is_ok());
    assert!(state.assert_is_active().is_err());
    assert!(state.assert_is_commands().is_err());
    assert!(state.make_inactive().is_ok());
    assert!(state.make_commands(Command::LineTo).is_err());
    assert!(state.make_active(point(0, 0)).is_ok());
    assert!(state.assert_is_active().is_ok());
    assert!(state.assert_is_inactive().is_err());
    assert!(state.assert_is_commands().is_err());
    assert!(state.make_commands(Command::LineTo).is_ok());
    assert!(state.assert_is_inactive().is_err());
    assert!(state.assert_is_active().is_err());
    assert!(state.assert_is_commands().is_ok());
    let given_commands = state.assert_is_commands().unwrap();
    assert_eq!(*given_commands, Commands::new(point(0, 0)).with_command(Command::LineTo));
    assert!(state.make_commands(Command::QuadraticBezier).is_ok());
    assert!(state.assert_is_commands().is_ok());
    let given_commands = state.assert_is_commands().unwrap();
    assert_eq!(
        *given_commands,
        Commands::new(point(0, 0)).with_command(Command::QuadraticBezier).with_command(
            Command::LineTo,
        )
    );
    assert!(state.make_active(point(0, 0)).is_err());
    assert!(state.make_inactive().is_ok());
}

#[test]
fn draw_state_test_draw_state_transitions() {
    let mut state = TessDrawState::default();
    assert!(state.as_inactive().is_ok());
    assert!(state.as_begun().is_err());
    assert!(state.as_has_given_commands().is_err());
    assert!(state.to_inactive().is_ok());
    assert!(state.to_has_given_commands(TessCommand::LineTo).is_err());
    assert!(state.to_begun().is_ok());
    assert!(state.as_begun().is_ok());
    assert!(state.as_inactive().is_err());
    assert!(state.as_has_given_commands().is_err());
    assert!(state.to_has_given_commands(TessCommand::LineTo).is_ok());
    assert!(state.as_inactive().is_err());
    assert!(state.as_begun().is_err());
    assert!(state.as_has_given_commands().is_ok());
    let given_commands = state.as_has_given_commands().unwrap();
    assert_eq!(
        *given_commands,
        TessCommands { line_to: true, ..TessCommands::default() }
    );
    assert!(state.to_has_given_commands(TessCommand::QuadraticBezier).is_ok());
    assert!(state.as_has_given_commands().is_ok());
    let given_commands = state.as_has_given_commands().unwrap();
    assert_eq!(
        *given_commands,
        TessCommands { line_to: true, quadratic_bezier: true, ..TessCommands::default() }
    );
    assert!(state.to_begun().is_err());
    assert!(state.to_inactive().is_ok());
}

#[test]
fn draw_state_scenario_collects_command_kinds() {
    // from inactive: activate at the origin, then a line and a quadratic
    let mut state = DrawState::default();
    assert!(state.make_active(point(0, 0)).is_ok());
    assert!(state.make_commands(Command::LineTo).is_ok());
    assert!(state.make_commands(Command::QuadraticBezier).is_ok());
    let c = *state.assert_is_commands().unwrap();
    assert_eq!(c.first, point(0, 0));
    assert_eq!(c.current, point(0, 0));
    assert!(c.line_to);
    assert!(c.quadratic_bezier);
    assert!(!c.cubic_bezier);
    // a sub-path with commands cannot be reopened
    assert!(state.make_active(point(1, 1)).is_err());
}

#[test]
fn test_empty_path() {
    let w = Width::new(units(800));
    let h = Height::new(units(800));
    let mut pdf = Path::new(w, h);
    let path = pdf.build().unwrap();
    assert_eq!(path, Vec::<PathEvent>::new());
}

fn assert_close(p: Point, x_micros: i64, y_micros: i64) {
    // a thousandth of a unit
    assert!((p.x - x_micros).abs() <= 1000, "x was {} expected {}", p.x, x_micros);
    assert!((p.y - y_micros).abs() <= 1000, "y was {} expected {}", p.y, y_micros);
}

#[test]
fn test_converts_single_line_to_rect() {
    let w = Width::new(units(800));
    let h = Height::new(units(800));
    let mut pdf = Path::new(w, h);
    pdf.line_to(point(10000000, 10000000)).unwrap();
    pdf.close().unwrap();
    pdf.make_fillable_if_needed();
    let path = pdf.build().unwrap();

    assert_eq!(path.len(), 5);
    let (p1, p2, p3, p4) = match (path[0], path[1], path[2], path[3], path[4]) {
        (
            PathEvent::Begin { at },
            PathEvent::Line { from: f1, to: t1 },
            PathEvent::Line { from: f2, to: t2 },
            PathEvent::Line { from: f3, to: t3 },
            PathEvent::End { first, last, close },
        ) => {
            assert_eq!(at, f1);
            assert_eq!(t1, f2);
            assert_eq!(t2, f3);
            assert_eq!(first, at);
            assert_eq!(last, t3);
            assert!(close);
            (at, t1, t2, t3)
        },
        other => panic!("unexpected events {:?}", other),
    };
    assert_close(p1, -389646450, 390353550);
    assert_close(p2, -390353550, 389646450);
    assert_close(p3, -400353550, 399646450);
    assert_close(p4, -399646450, 400353550);
}

#[test]
fn fillable_rewrite_is_idempotent_at_runtime() {
    let w = Width::new(units(800));
    let h = Height::new(units(800));
    let mut a = Path::new(w, h);
    a.line_to(point(10000000, 10000000)).unwrap();
    a.move_to(point(50000000, 50000000)).unwrap();
    a.line_to(point(60000000, 50000000)).unwrap();
    a.line_to(point(60000000, 60000000)).unwrap();
    a.close().unwrap();
    a.make_fillable_if_needed();
    let once = a.events.clone();
    a.make_fillable_if_needed();
    assert_eq!(a.events, once);
}

#[test]
fn degenerate_rect_is_floored_to_one_unit() {
    let w = Width::new(units(800));
    let h = Height::new(units(800));
    let mut zero = Path::new(w, h);
    zero.rect(point(0, 0), Width::new(units(0)), Height::new(units(0))).unwrap();
    let mut unit = Path::new(w, h);
    unit.rect(point(0, 0), Width::new(units(1)), Height::new(units(1))).unwrap();
    assert_eq!(zero.build().unwrap(), unit.build().unwrap());
}

#[test]
fn graphics_state_refuses_illegal_transitions() {
    let mut gs = GraphicsState::new(Width::new(units(800)), Height::new(units(800)));
    // a path refuses text
    gs.move_to(point(0, 0)).unwrap();
    assert!(gs.begin_text().is_err());
    assert!(matches!(gs.state, State::Path(_)));
    // text refuses path construction, and the failure changes nothing
    let mut gs2 = GraphicsState::new(Width::new(units(800)), Height::new(units(800)));
    gs2.begin_text().unwrap();
    assert!(gs2.move_to(point(0, 0)).is_err());
    assert!(matches!(gs2.state, State::Text));
    assert!(gs2.end_text().is_ok());
    assert!(matches!(gs2.state, State::PageDescription));
}

#[test]
fn fill_rewrites_bare_line_and_returns_to_page_description() {
    let mut gs = GraphicsState::new(Width::new(units(800)), Height::new(units(800)));
    gs.move_to(point(0, 0)).unwrap();
    gs.line_to(point(10000000, 10000000)).unwrap();
    let events = gs.fill().unwrap();
    assert!(matches!(gs.state, State::PageDescription));
    // the single line came back as a thin four-sided rectangle
    assert_eq!(events.len(), 5);
    assert!(matches!(events[0], PathEvent::Begin { .. }));
    assert!(matches!(events[4], PathEvent::End { close: true, .. }));
}

#[test]
fn stroke_keeps_the_line_and_honours_close() {
    let mut gs = GraphicsState::new(Width::new(units(800)), Height::new(units(800)));
    gs.move_to(point(0, 0)).unwrap();
    gs.line_to(point(10000000, 10000000)).unwrap();
    let events = gs.stroke(false).unwrap();
    assert_eq!(events.len(), 3);
    assert!(matches!(events[2], PathEvent::End { close: false, .. }));

    let mut gs2 = GraphicsState::new(Width::new(units(800)), Height::new(units(800)));
    gs2.move_to(point(0, 0)).unwrap();
    gs2.line_to(point(10000000, 10000000)).unwrap();
    let events2 = gs2.stroke(true).unwrap();
    assert!(matches!(events2[2], PathEvent::End { close: true, .. }));
}

#[test]
fn property_mutators_land_in_page_description() {
    let mut gs = GraphicsState::new(Width::new(units(800)), Height::new(units(800)));
    gs.move_to(point(0, 0)).unwrap();
    gs.set_line_width(LineWidth::new(units(3))).unwrap();
    assert!(matches!(gs.state, State::PageDescription));
    assert_eq!(gs.properties.line_width, LineWidth::new(units(3)));
    gs.set_cap_style(LineCap::Round).unwrap();
    assert_eq!(gs.properties.line_cap, LineCap::Round);
    gs.set_stroke_color_space(ColorSpace::DeviceCMYK).unwrap();
    assert_eq!(gs.properties.stroke_color.color_space, ColorSpace::DeviceCMYK);
    gs.set_non_stroke_color_space(ColorSpace::DeviceGray).unwrap();
    assert_eq!(gs.properties.non_stroke_color.color_space, ColorSpace::DeviceGray);
}

#[test]
fn colour_operand_counts_select_their_space() {
    let mut gs = GraphicsState::new(Width::new(units(800)), Height::new(units(800)));
    gs.set_non_stroke_color(vec![units(1)]).unwrap();
    assert_eq!(gs.properties.non_stroke_color.gray, Gray::new(units(1)));
    gs.set_non_stroke_color(vec![units(1), units(0), units(0)]).unwrap();
    assert_eq!(gs.properties.non_stroke_color.rgb, Rgb::new(units(1), units(0), units(0)));
    gs.set_stroke_color(vec![units(0), units(1), units(0), units(0)]).unwrap();
    assert_eq!(
        gs.properties.stroke_color.cmyk,
        Cmyk::new(units(0), units(1), units(0), units(0))
    );
    assert_eq!(gs.set_stroke_color(vec![]), Err(ColorError::TooFewParams));
    assert_eq!(gs.set_stroke_color(vec![units(1), units(1)]), Err(ColorError::TooManyParams(2)));
}

#[test]
fn cmyk_min_max() {
    let c = Cmyk::new(units(256), units(-1), units(130), units(0));
    assert_eq!(c, Cmyk::new(units(255), units(0), units(130), units(0)));
}

#[test]
fn gray_min_max() {
    let g = Gray::new(units(256));
    assert_eq!(g, Gray::new(units(255)));
}

#[test]
fn rgb_min_max() {
    let c = Rgb::new(units(256), units(-1), units(130));
    assert_eq!(c, Rgb::new(units(255), units(0), units(130)));
}

#[test]
fn current_colour_follows_the_space() {
    let mut gs = GraphicsState::new(Width::new(units(800)), Height::new(units(800)));
    gs.set_non_stroke_color(vec![units(1)]).unwrap();
    gs.set_non_stroke_color_space(ColorSpace::DeviceGray).unwrap();
    assert_eq!(
        gs.properties.non_stroke_color.get_current_color(),
        ColorSpaceWithColor::DeviceGray(Gray::new(units(1)))
    );
}

#[test]
fn test_move_to() {
    let m = |input: &[u8]| pdfgeom::content::parse_move_to(input, 0).unwrap().1;
    assert_eq!(m(b"1.23 1.23 m"), point(1230000, 1230000));
    assert_eq!(m(b"1 +1.23 m"), point(1000000, 1230000));
    assert_eq!(m(b"1 -1.23 m"), point(1000000, -1230000));
    // the sign of a stacked prefix is the parity of its minus signs
    assert_eq!(m(b"+-+1.23 --1.24 m"), point(-1230000, 1240000));
    assert_eq!(m(b"+-+10 ++1.24 m"), point(-10000000, 1240000));
    assert_eq!(m(b"-----10 +-+1 m"), point(-10000000, -1000000));
}

#[test]
fn test_line_to() {
    let l = |input: &[u8]| pdfgeom::content::parse_line_to(input, 0).unwrap().1;
    assert_eq!(l(b"1.23 1.23 l"), point(1230000, 1230000));
    assert_eq!(l(b"1 +1.23 l"), point(1000000, 1230000));
    assert_eq!(l(b"1 -1.23 l"), point(1000000, -1230000));
    assert_eq!(l(b"+-+1.23 --1.24 l"), point(-1230000, 1240000));
    assert_eq!(l(b"+-+10 ++1.24 l"), point(-10000000, 1240000));
    assert_eq!(l(b"-----10 +-+1 l"), point(-10000000, -1000000));
}

#[test]
fn test_rect() {
    let (_, v, w, h) = pdfgeom::content::parse_rect(b"100 101 102 0 re", 0).unwrap();
    assert_eq!(v, point(100000000, 101000000));
    assert_eq!(w, Width::new(units(102)));
    assert_eq!(h, Height::new(units(0)));
}

#[test]
fn test_stroke() {
    assert_eq!(pdfgeom::content::parse_stroke(b" s ", 0).unwrap().1, true);
    assert_eq!(pdfgeom::content::parse_stroke(b"S", 0).unwrap().1, false);
}

#[test]
fn test_color_space() {
    let (ops, rest) = parse_stream_objects(b"/DeviceRGB CS");
    assert_eq!(rest, 13);
    assert_eq!(ops, vec![StreamObject::StrokeColorSpace(ColorSpace::DeviceRGB)]);
    let (ops, _) = parse_stream_objects(b"  /DeviceGray   CS");
    assert_eq!(ops, vec![StreamObject::StrokeColorSpace(ColorSpace::DeviceGray)]);
}

#[test]
fn test_dash_pattern() {
    let (end, dash) = pdfgeom::content::parse_dash_pattern(b"[10 5] 0 d ", 0).unwrap();
    assert_eq!(end, 11);
    assert_eq!(dash.array, vec![units(10), units(5)]);
    assert_eq!(dash.phase, units(0));
    let (_, dash) = pdfgeom::content::parse_dash_pattern(b"[] 0.0000 d ", 0).unwrap();
    assert_eq!(dash.array, Vec::<Fixed>::new());
    assert_eq!(dash.phase, units(0));
    let (_, dash) = pdfgeom::content::parse_dash_pattern(b"[10.0 7.333 9.00] 0.0000 d ", 0)
        .unwrap();
    assert_eq!(dash.array, vec![units(10), Fixed { micros: 7333000 }, units(9)]);
    assert_eq!(dash.phase, units(0));
}

#[test]
fn test_text_stream() {
    let input: &[u8] = b"2 J
BT
0 0 0 rg
/F1 0027 Tf
57.3750 722.2800 Td
( Simple PDF File 2 ) Tj
ET
BT
/F1 0010 Tf
69.2500 688.6080 Td
( ...continued from page 1. Yet more text. And more text. And more text. ) Tj
ET";
    let (ops, rest) = parse_stream_objects(input);
    assert_eq!(rest, input.len());
    assert_eq!(ops.len(), 3);
    assert_eq!(ops[0], StreamObject::CapStyle(LineCap::Square));
    match &ops[1] {
        StreamObject::Text(t) => {
            assert_eq!(t.font_family, b"F1".to_vec());
            assert_eq!(t.rgb, Some(Rgb::new(units(0), units(0), units(0))));
            assert_eq!(t.font_size, 27);
            assert_eq!(t.l_r, (Fixed { micros: 57375000 }, Fixed { micros: 722280000 }));
            assert_eq!(t.contents, b" Simple PDF File 2 ".to_vec());
        },
        other => panic!("expected text, got {:?}", other),
    }
    match &ops[2] {
        StreamObject::Text(t) => {
            assert_eq!(t.font_family, b"F1".to_vec());
            assert_eq!(t.rgb, None);
            assert_eq!(t.font_size, 10);
            assert_eq!(t.l_r, (Fixed { micros: 69250000 }, Fixed { micros: 688608000 }));
            assert_eq!(
                t.contents,
                b" ...continued from page 1. Yet more text. And more text. And more text. "
                    .to_vec()
            );
        },
        other => panic!("expected text, got {:?}", other),
    }
}

#[test]
fn test_drawing_stream() {
    let input: &[u8] = b"500 500 m
600 600 l
f";
    let (ops, rest) = parse_stream_objects(input);
    assert_eq!(rest, input.len());
    assert_eq!(
        ops,
        vec![
            StreamObject::MoveTo(point(500000000, 500000000)),
            StreamObject::LineTo(point(600000000, 600000000)),
            StreamObject::Fill,
        ]
    );
}

#[test]
fn mixed_operators_drive_the_state_machine() {
    let input: &[u8] =
        b"2 J\nBT\n0 0 0 rg\n/F1 27 Tf\n57.375 722.28 Td\n( hi ) Tj\nET\n500 500 m\n600 600 l\nf";
    let (ops, rest) = parse_stream_objects(input);
    assert_eq!(rest, input.len());
    assert_eq!(ops.len(), 5);
    assert_eq!(ops[0], StreamObject::CapStyle(LineCap::Square));
    match &ops[1] {
        StreamObject::Text(t) => assert_eq!(t.contents, b" hi ".to_vec()),
        other => panic!("expected text, got {:?}", other),
    }
    assert_eq!(ops[2], StreamObject::MoveTo(point(500000000, 500000000)));
    assert_eq!(ops[3], StreamObject::LineTo(point(600000000, 600000000)));
    assert_eq!(ops[4], StreamObject::Fill);
}

#[test]
fn cap_style_rejects_other_values() {
    assert_eq!(cap_style_from_value(0), Ok(LineCap::Butt));
    assert_eq!(cap_style_from_value(1), Ok(LineCap::Round));
    assert_eq!(cap_style_from_value(2), Ok(LineCap::Square));
    assert_eq!(cap_style_from_value(7), Err(ParseError::InvalidCapStyle(7)));
}
