//! The top-level graphics state machine over the four page states, with
//! the mutable rendering properties it owns. Property changes land the
//! machine in the page-description state first; path construction lands
//! it in the path state; a fill or stroke builds the accumulated path and
//! returns to page description. An illegal request changes nothing.

use vstd::prelude::*;

use crate::color::{ColorError, ColorSpace, NonStrokeColor, StrokeColor};
use crate::draw_state::State as SubState;
use crate::geom::{spec_in_bounds, Point, Vector};
use crate::numbers::{Fixed, NUMBER_LIMIT};
use crate::path_builder::{
    spec_bottom_left, spec_close_events, spec_make_fillable, spec_to_internal, spec_wf_events,
    Path, PathEvent,
};
use crate::shared::{DashPattern, Height, LineCap, LineWidth, Width};

verus! {

/// Errors of the graphics state machine.
#[derive(Debug)]
pub enum GraphicsStateError {
    /// The machine cannot move from the first named state to the second.
    InvalidStateTransition(&'static str, &'static str),
    /// The machine was read as a state it is not in.
    InvalidAttemptToAccessState(&'static str),
}

/// The four page states; the path state owns the path under construction.
#[derive(Debug)]
pub enum State {
    PageDescription,
    Text,
    Path(Path),
    ClippingPath,
}

/// The mutable rendering properties the graphics state owns.
#[derive(Debug)]
pub struct Properties {
    pub line_width: LineWidth,
    pub line_cap: LineCap,
    pub dash_pattern: DashPattern,
    pub stroke_color: StrokeColor,
    pub non_stroke_color: NonStrokeColor,
}

impl Default for Properties {
    /// One-unit lines with square caps, no dashing, black colours.
    fn default() -> (r: Properties)
        ensures
            r.line_width.value.micros == 1000000,
            r.line_cap == LineCap::Square,
            r.dash_pattern.array@.len() == 0,
            r.dash_pattern.phase.micros == 0,
            r.stroke_color.color_space == ColorSpace::DeviceGray,
            r.non_stroke_color.color_space == ColorSpace::DeviceRGB,
            r.stroke_color == (StrokeColor::spec_black()),
            r.non_stroke_color == (NonStrokeColor::spec_black()),
    {
        Properties {
            line_width: LineWidth::default(),
            line_cap: LineCap::Square,
            dash_pattern: DashPattern::default(),
            stroke_color: StrokeColor::default(),
            non_stroke_color: NonStrokeColor::default(),
        }
    }
}

/// The graphics state: the current page state and the properties.
#[derive(Debug)]
pub struct GraphicsState {
    pub properties: Properties,
    pub page_width: Width,
    pub page_height: Height,
    pub state: State,
}

impl GraphicsState {
    /// Page dimensions are sane and any path under construction is
    /// well-formed and belongs to this page.
    pub open spec fn wf(self) -> bool {
        &&& 0 <= self.page_width.value.micros <= NUMBER_LIMIT
        &&& 0 <= self.page_height.value.micros <= NUMBER_LIMIT
        &&& match self.state {
            State::Path(p) => p.wf() && p.bottom_left_of_page == spec_bottom_left(
                self.page_width.value.micros as int,
                self.page_height.value.micros as int,
            ),
            _ => true,
        }
    }

    /// A fresh state for a page: page description, default properties.
    pub fn new(page_width: Width, page_height: Height) -> (r: GraphicsState)
        requires
            0 <= page_width.value.micros <= NUMBER_LIMIT,
            0 <= page_height.value.micros <= NUMBER_LIMIT,
        ensures
            r.wf(),
            r.state is PageDescription,
            r.page_width == page_width,
            r.page_height == page_height,
            r.properties.line_width.value.micros == 1000000,
            r.properties.line_cap == LineCap::Square,
            r.properties.dash_pattern.array@.len() == 0,
            r.properties.dash_pattern.phase.micros == 0,
            r.properties.stroke_color.color_space == ColorSpace::DeviceGray,
            r.properties.non_stroke_color.color_space == ColorSpace::DeviceRGB,
            r.properties.stroke_color == (StrokeColor::spec_black()),
            r.properties.non_stroke_color == (NonStrokeColor::spec_black()),
    {
        GraphicsState {
            properties: Properties::default(),
            page_width,
            page_height,
            state: State::PageDescription,
        }
    }

    pub fn properties(&self) -> (r: &Properties)
        ensures
            *r == self.properties,
    {
        &self.properties
    }

    /// Moves to page description: permitted from every state, so this
    /// always succeeds; a path under construction is dropped.
    fn page_description(&mut self) -> (r: Result<(), GraphicsStateError>)
        requires
            old(self).wf(),
        ensures
            r is Ok,
            final(self).wf(),
            final(self).state is PageDescription,
            final(self).properties == old(self).properties,
            final(self).page_width == old(self).page_width,
            final(self).page_height == old(self).page_height,
    {
        self.state = State::PageDescription;
        Ok(())
    }

    /// Moves to the text state: only from page description or text; a
    /// failing request leaves the state unchanged.
    fn text(&mut self) -> (r: Result<(), GraphicsStateError>)
        requires
            old(self).wf(),
        ensures
            final(self).wf(),
            final(self).properties == old(self).properties,
            final(self).page_width == old(self).page_width,
            final(self).page_height == old(self).page_height,
            match old(self).state {
                State::PageDescription => r is Ok && final(self).state is Text,
                State::Text => r is Ok && final(self).state is Text,
                State::Path(_) => final(self).state == old(self).state && (r matches Err(
                    GraphicsStateError::InvalidStateTransition(a, b),
                ) && a@ == "Path"@ && b@ == "Text"@),
                State::ClippingPath => final(self).state is ClippingPath && (r matches Err(
                    GraphicsStateError::InvalidStateTransition(a, b),
                ) && a@ == "ClippingPath"@ && b@ == "Text"@),
            },
    {
        match &self.state {
            State::PageDescription => {
                self.state = State::Text;
                Ok(())
            },
            State::Text => Ok(()),
            State::Path(_) => Err(GraphicsStateError::InvalidStateTransition("Path", "Text")),
            State::ClippingPath => Err(
                GraphicsStateError::InvalidStateTransition("ClippingPath", "Text"),
            ),
        }
    }

    /// Moves to the path state: from page description a fresh path
    /// builder is installed; an existing path is kept; text and clipping
    /// path refuse, leaving the state unchanged.
    fn path(&mut self) -> (r: Result<(), GraphicsStateError>)
        requires
            old(self).wf(),
        ensures
            final(self).wf(),
            final(self).properties == old(self).properties,
            final(self).page_width == old(self).page_width,
            final(self).page_height == old(self).page_height,
            match old(self).state {
                State::PageDescription => r is Ok && (final(self).state matches State::Path(p)
                    && p.events@.len() == 0 && p.draw_state.0 is Inactive && p.current_position
                    == (Point { x: 0, y: 0 })),
                State::Path(_) => r is Ok && final(self).state == old(self).state,
                State::Text => final(self).state is Text && (r matches Err(
                    GraphicsStateError::InvalidStateTransition(a, b),
                ) && a@ == "Text"@ && b@ == "Path"@),
                State::ClippingPath => final(self).state is ClippingPath && (r matches Err(
                    GraphicsStateError::InvalidStateTransition(a, b),
                ) && a@ == "ClippingPath"@ && b@ == "Path"@),
            },
    {
        match &self.state {
            State::PageDescription => {
                self.state = State::Path(Path::new(self.page_width, self.page_height));
                Ok(())
            },
            State::Path(_) => Ok(()),
            State::Text => Err(GraphicsStateError::InvalidStateTransition("Text", "Path")),
            State::ClippingPath => Err(
                GraphicsStateError::InvalidStateTransition("ClippingPath", "Path"),
            ),
        }
    }

    /// Moves to the clipping path state: only from a path; the message of
    /// the text-state refusal names the clipping path first.
    fn clipping_path(&mut self) -> (r: Result<(), GraphicsStateError>)
        requires
            old(self).wf(),
        ensures
            final(self).wf(),
            final(self).properties == old(self).properties,
            final(self).page_width == old(self).page_width,
            final(self).page_height == old(self).page_height,
            match old(self).state {
                State::PageDescription => final(self).state is PageDescription && (r matches Err(
                    GraphicsStateError::InvalidStateTransition(a, b),
                ) && a@ == "PageDescription"@ && b@ == "ClippingPath"@),
                State::Text => final(self).state is Text && (r matches Err(
                    GraphicsStateError::InvalidStateTransition(a, b),
                ) && a@ == "ClippingPath"@ && b@ == "Text"@),
                State::Path(_) => r is Ok && final(self).state is ClippingPath,
                State::ClippingPath => r is Ok && final(self).state is ClippingPath,
            },
    {
        match &self.state {
            State::PageDescription => Err(
                GraphicsStateError::InvalidStateTransition("PageDescription", "ClippingPath"),
            ),
            State::Text => Err(
                GraphicsStateError::InvalidStateTransition("ClippingPath", "Text"),
            ),
            State::Path(_) => {
                self.state = State::ClippingPath;
                Ok(())
            },
            State::ClippingPath => Ok(()),
        }
    }

    /// Opens a sub-path at `to`, entering the path state first.
    pub fn move_to(&mut self, to: Vector) -> (r: Result<(), GraphicsStateError>)
        requires
            old(self).wf(),
            spec_in_bounds(to, 2 * NUMBER_LIMIT as int),
        ensures
            final(self).wf(),
            final(self).properties == old(self).properties,
            match old(self).state {
                State::Text => final(self).state is Text && (r matches Err(
                    GraphicsStateError::InvalidStateTransition(a, b),
                ) && a@ == "Text"@ && b@ == "Path"@),
                State::ClippingPath => final(self).state is ClippingPath && (r matches Err(
                    GraphicsStateError::InvalidStateTransition(a, b),
                ) && a@ == "ClippingPath"@ && b@ == "Path"@),
                State::PageDescription => r is Ok && (final(self).state matches State::Path(p)
                    && ({
                    let bl = spec_bottom_left(
                        old(self).page_width.value.micros as int,
                        old(self).page_height.value.micros as int,
                    );
                    let at = spec_to_internal(to, bl);
                    p.events@ == seq![PathEvent::Begin { at }] && p.current_position == at
                })),
                State::Path(q) => r is Ok && (final(self).state matches State::Path(p) && ({
                    let at = spec_to_internal(to, q.bottom_left_of_page);
                    p.events@ == q.events@ + spec_close_events(q.draw_state.0, false) + seq![
                        PathEvent::Begin { at },
                    ] && p.current_position == at
                })),
            },
    {
        match self.path() {
            Err(e) => {
                return Err(e);
            },
            Ok(()) => {},
        }
        match &mut self.state {
            State::Path(p) => {
                let _ = p.move_to(to);
                proof {
                    if old(self).state is PageDescription {
                        assert(p.events@ =~= seq![
                            PathEvent::Begin {
                                at: spec_to_internal(
                                    to,
                                    spec_bottom_left(
                                        old(self).page_width.value.micros as int,
                                        old(self).page_height.value.micros as int,
                                    ),
                                ),
                            },
                        ]);
                    }
                }
                Ok(())
            },
            _ => {
                proof {
                    assert(false);
                }
                Ok(())
            },
        }
    }

    /// Adds a line to `to`, entering the path state first.
    pub fn line_to(&mut self, to: Vector) -> (r: Result<(), GraphicsStateError>)
        requires
            old(self).wf(),
            spec_in_bounds(to, 2 * NUMBER_LIMIT as int),
        ensures
            final(self).wf(),
            final(self).properties == old(self).properties,
            match old(self).state {
                State::Text => final(self).state is Text && (r matches Err(
                    GraphicsStateError::InvalidStateTransition(a, b),
                ) && a@ == "Text"@ && b@ == "Path"@),
                State::ClippingPath => final(self).state is ClippingPath && (r matches Err(
                    GraphicsStateError::InvalidStateTransition(a, b),
                ) && a@ == "ClippingPath"@ && b@ == "Path"@),
                State::PageDescription => r is Ok && (final(self).state matches State::Path(p)
                    && ({
                    let bl = spec_bottom_left(
                        old(self).page_width.value.micros as int,
                        old(self).page_height.value.micros as int,
                    );
                    let at = spec_to_internal(to, bl);
                    p.events@ == seq![
                        PathEvent::Begin { at: bl },
                        PathEvent::Line { from: bl, to: at },
                    ] && p.current_position == at
                })),
                State::Path(q) => r is Ok && (final(self).state matches State::Path(p) && ({
                    let at = spec_to_internal(to, q.bottom_left_of_page);
                    &&& p.current_position == at
                    &&& match q.draw_state.0 {
                        SubState::Inactive => {
                            let at0 = if q.events@.len() == 0 {
                                q.bottom_left_of_page
                            } else {
                                q.current_position
                            };
                            p.events@ == q.events@ + seq![
                                PathEvent::Begin { at: at0 },
                                PathEvent::Line { from: at0, to: at },
                            ]
                        },
                        SubState::Active(a) => p.events@ == q.events@ + seq![
                            PathEvent::Line { from: a.first, to: at },
                        ],
                        SubState::Commands(c) => p.events@ == q.events@ + seq![
                            PathEvent::Line { from: c.current, to: at },
                        ],
                    }
                })),
            },
    {
        match self.path() {
            Err(e) => {
                return Err(e);
            },
            Ok(()) => {},
        }
        match &mut self.state {
            State::Path(p) => {
                let _ = p.line_to(to);
                Ok(())
            },
            _ => {
                proof {
                    assert(false);
                }
                Ok(())
            },
        }
    }

    /// Draws a rectangle, entering the path state first; each dimension is
    /// at least one unit.
    pub fn rect(&mut self, low_left: Vector, width: Width, height: Height) -> (r: Result<
        (),
        GraphicsStateError,
    >)
        requires
            old(self).wf(),
            spec_in_bounds(low_left, NUMBER_LIMIT as int),
            -NUMBER_LIMIT <= width.value.micros <= NUMBER_LIMIT,
            -NUMBER_LIMIT <= height.value.micros <= NUMBER_LIMIT,
        ensures
            final(self).wf(),
            final(self).properties == old(self).properties,
            match old(self).state {
                State::Text => final(self).state is Text && (r matches Err(
                    GraphicsStateError::InvalidStateTransition(a, b),
                ) && a@ == "Text"@ && b@ == "Path"@),
                State::ClippingPath => final(self).state is ClippingPath && (r matches Err(
                    GraphicsStateError::InvalidStateTransition(a, b),
                ) && a@ == "ClippingPath"@ && b@ == "Path"@),
                _ => r is Ok && (final(self).state matches State::Path(p) && ({
                    let bl = spec_bottom_left(
                        old(self).page_width.value.micros as int,
                        old(self).page_height.value.micros as int,
                    );
                    let w = if width.value.micros < 1000000 {
                        1000000int
                    } else {
                        width.value.micros as int
                    };
                    let h = if height.value.micros < 1000000 {
                        1000000int
                    } else {
                        height.value.micros as int
                    };
                    let p0 = spec_to_internal(low_left, bl);
                    let p1 = spec_to_internal(
                        Point { x: (low_left.x + w) as i64, y: low_left.y },
                        bl,
                    );
                    let p2 = spec_to_internal(
                        Point { x: (low_left.x + w) as i64, y: (low_left.y + h) as i64 },
                        bl,
                    );
                    let p3 = spec_to_internal(
                        Point { x: low_left.x, y: (low_left.y + h) as i64 },
                        bl,
                    );
                    let prior = match old(self).state {
                        State::Path(q) => q.events@ + spec_close_events(q.draw_state.0, false),
                        _ => Seq::<PathEvent>::empty(),
                    };
                    &&& p.events@ == prior + seq![
                        PathEvent::Begin { at: p0 },
                        PathEvent::Line { from: p0, to: p1 },
                        PathEvent::Line { from: p1, to: p2 },
                        PathEvent::Line { from: p2, to: p3 },
                    ]
                    &&& p.current_position == p3
                })),
            },
    {
        match self.path() {
            Err(e) => {
                return Err(e);
            },
            Ok(()) => {},
        }
        match &mut self.state {
            State::Path(p) => {
                let _ = p.rect(low_left, width, height);
                proof {
                    if !(old(self).state is Path) {
                        assert(p.events@ =~= Seq::<PathEvent>::empty() + p.events@);
                    }
                }
                Ok(())
            },
            _ => {
                proof {
                    assert(false);
                }
                Ok(())
            },
        }
    }

    /// Builds the accumulated path for filling: the open sub-path is
    /// closed, every single-line sub-path becomes a thin rectangle, and
    /// the machine returns to page description. The emitted events are a
    /// well-formed sequence.
    pub fn fill(&mut self) -> (r: Result<Vec<PathEvent>, GraphicsStateError>)
        requires
            old(self).wf(),
        ensures
            final(self).wf(),
            final(self).properties == old(self).properties,
            match old(self).state {
                State::Text => final(self).state is Text && (r matches Err(
                    GraphicsStateError::InvalidStateTransition(a, b),
                ) && a@ == "Text"@ && b@ == "Path"@),
                State::ClippingPath => final(self).state is ClippingPath && (r matches Err(
                    GraphicsStateError::InvalidStateTransition(a, b),
                ) && a@ == "ClippingPath"@ && b@ == "Path"@),
                _ => {
                    &&& r is Ok
                    &&& final(self).state is PageDescription
                    &&& (r matches Ok(events) && ({
                        let prior = match old(self).state {
                            State::Path(q) => q.events@ + spec_close_events(
                                q.draw_state.0,
                                true,
                            ),
                            _ => Seq::<PathEvent>::empty(),
                        };
                        events@ == spec_make_fillable(prior) && spec_wf_events(events@)
                    }))
                },
            },
    {
        match self.path() {
            Err(e) => {
                return Err(e);
            },
            Ok(()) => {},
        }
        let mut taken = Path::new(self.page_width, self.page_height);
        match &mut self.state {
            State::Path(p) => {
                core::mem::swap(p, &mut taken);
            },
            _ => {
                proof {
                    assert(false);
                }
            },
        }
        let _ = taken.close();
        taken.make_fillable_if_needed();
        let events = match taken.build() {
            Ok(evts) => evts,
            Err(_) => {
                proof {
                    assert(false);
                }
                Vec::new()
            },
        };
        let _ = self.page_description();
        proof {
            if !(old(self).state is Path) {
                assert(events@ =~= spec_make_fillable(Seq::<PathEvent>::empty()));
            }
            assert(events@ =~= spec_make_fillable(
                match old(self).state {
                    State::Path(q) => q.events@ + spec_close_events(q.draw_state.0, true),
                    _ => Seq::<PathEvent>::empty(),
                },
            ));
        }
        Ok(events)
    }

    /// Builds the accumulated path for stroking: the open sub-path ends,
    /// marked closed exactly when the operator asked for it, and the
    /// machine returns to page description. The emitted events are a
    /// well-formed sequence.
    pub fn stroke(&mut self, close: bool) -> (r: Result<Vec<PathEvent>, GraphicsStateError>)
        requires
            old(self).wf(),
        ensures
            final(self).wf(),
            final(self).properties == old(self).properties,
            match old(self).state {
                State::Text => final(self).state is Text && (r matches Err(
                    GraphicsStateError::InvalidStateTransition(a, b),
                ) && a@ == "Text"@ && b@ == "Path"@),
                State::ClippingPath => final(self).state is ClippingPath && (r matches Err(
                    GraphicsStateError::InvalidStateTransition(a, b),
                ) && a@ == "ClippingPath"@ && b@ == "Path"@),
                _ => {
                    &&& r is Ok
                    &&& final(self).state is PageDescription
                    &&& (r matches Ok(events) && ({
                        let prior = match old(self).state {
                            State::Path(q) => q.events@ + spec_close_events(
                                q.draw_state.0,
                                close,
                            ),
                            _ => Seq::<PathEvent>::empty(),
                        };
                        events@ == prior && spec_wf_events(events@)
                    }))
                },
            },
    {
        match self.path() {
            Err(e) => {
                return Err(e);
            },
            Ok(()) => {},
        }
        let mut taken = Path::new(self.page_width, self.page_height);
        match &mut self.state {
            State::Path(p) => {
                core::mem::swap(p, &mut taken);
            },
            _ => {
                proof {
                    assert(false);
                }
            },
        }
        let _ = taken.end(close);
        let events = match taken.build() {
            Ok(evts) => evts,
            Err(_) => {
                proof {
                    assert(false);
                }
                Vec::new()
            },
        };
        let _ = self.page_description();
        proof {
            assert(events@ =~= match old(self).state {
                State::Path(q) => q.events@ + spec_close_events(q.draw_state.0, close),
                _ => Seq::<PathEvent>::empty(),
            });
        }
        Ok(events)
    }

    /// Sets the line width, returning to page description first.
    pub fn set_line_width(&mut self, w: LineWidth) -> (r: Result<(), GraphicsStateError>)
        requires
            old(self).wf(),
        ensures
            r is Ok,
            final(self).wf(),
            final(self).state is PageDescription,
            final(self).properties.line_width == w,
            final(self).properties.line_cap == old(self).properties.line_cap,
            final(self).properties.dash_pattern == old(self).properties.dash_pattern,
            final(self).properties.stroke_color == old(self).properties.stroke_color,
            final(self).properties.non_stroke_color == old(self).properties.non_stroke_color,
    {
        let _ = self.page_description();
        self.properties.line_width.set(w);
        Ok(())
    }

    /// Sets the non-stroking colour from the operand list, returning to
    /// page description first.
    pub fn set_non_stroke_color(&mut self, c: Vec<Fixed>) -> (r: Result<(), ColorError>)
        requires
            old(self).wf(),
        ensures
            final(self).wf(),
            final(self).state is PageDescription,
            final(self).properties.stroke_color == old(self).properties.stroke_color,
            final(self).properties.line_width == old(self).properties.line_width,
            final(self).properties.line_cap == old(self).properties.line_cap,
            final(self).properties.dash_pattern == old(self).properties.dash_pattern,
            final(self).properties.non_stroke_color.color_space == old(
                self,
            ).properties.non_stroke_color.color_space,
            r is Ok <==> crate::color::spec_set_color_ok(c@),
            r is Err ==> final(self).properties.non_stroke_color == old(
                self,
            ).properties.non_stroke_color,
    {
        let _ = self.page_description();
        self.properties.non_stroke_color.set_color(c)
    }

    /// Sets the stroking colour from the operand list, returning to page
    /// description first.
    pub fn set_stroke_color(&mut self, c: Vec<Fixed>) -> (r: Result<(), ColorError>)
        requires
            old(self).wf(),
        ensures
            final(self).wf(),
            final(self).state is PageDescription,
            final(self).properties.non_stroke_color == old(self).properties.non_stroke_color,
            final(self).properties.line_width == old(self).properties.line_width,
            final(self).properties.line_cap == old(self).properties.line_cap,
            final(self).properties.dash_pattern == old(self).properties.dash_pattern,
            final(self).properties.stroke_color.color_space == old(
                self,
            ).properties.stroke_color.color_space,
            r is Ok <==> crate::color::spec_set_color_ok(c@),
            r is Err ==> final(self).properties.stroke_color == old(
                self,
            ).properties.stroke_color,
    {
        let _ = self.page_description();
        self.properties.stroke_color.set_color(c)
    }

    /// Selects the non-stroking colour space, returning to page
    /// description first.
    pub fn set_non_stroke_color_space(&mut self, c: ColorSpace) -> (r: Result<
        (),
        GraphicsStateError,
    >)
        requires
            old(self).wf(),
        ensures
            r is Ok,
            final(self).wf(),
            final(self).state is PageDescription,
            final(self).properties.non_stroke_color.color_space == c,
            final(self).properties.stroke_color == old(self).properties.stroke_color,
            final(self).properties.non_stroke_color.rgb == old(
                self,
            ).properties.non_stroke_color.rgb,
            final(self).properties.non_stroke_color.cmyk == old(
                self,
            ).properties.non_stroke_color.cmyk,
            final(self).properties.non_stroke_color.gray == old(
                self,
            ).properties.non_stroke_color.gray,
    {
        let _ = self.page_description();
        self.properties.non_stroke_color.set_color_space(c);
        Ok(())
    }

    /// Selects the stroking colour space, returning to page description
    /// first.
    pub fn set_stroke_color_space(&mut self, c: ColorSpace) -> (r: Result<
        (),
        GraphicsStateError,
    >)
        requires
            old(self).wf(),
        ensures
            r is Ok,
            final(self).wf(),
            final(self).state is PageDescription,
            final(self).properties.stroke_color.color_space == c,
            final(self).properties.non_stroke_color == old(self).properties.non_stroke_color,
            final(self).properties.stroke_color.rgb == old(self).properties.stroke_color.rgb,
            final(self).properties.stroke_color.cmyk == old(self).properties.stroke_color.cmyk,
            final(self).properties.stroke_color.gray == old(self).properties.stroke_color.gray,
    {
        let _ = self.page_description();
        self.properties.stroke_color.set_color_space(c);
        Ok(())
    }

    /// Sets the line cap style, returning to page description first.
    pub fn set_cap_style(&mut self, c: LineCap) -> (r: Result<(), GraphicsStateError>)
        requires
            old(self).wf(),
        ensures
            r is Ok,
            final(self).wf(),
            final(self).state is PageDescription,
            final(self).properties.line_cap == c,
            final(self).properties.line_width == old(self).properties.line_width,
            final(self).properties.dash_pattern == old(self).properties.dash_pattern,
            final(self).properties.stroke_color == old(self).properties.stroke_color,
            final(self).properties.non_stroke_color == old(self).properties.non_stroke_color,
    {
        let _ = self.page_description();
        self.properties.line_cap = c;
        Ok(())
    }

    /// Sets the dash pattern, returning to page description first.
    pub fn set_dash_pattern(&mut self, d: DashPattern) -> (r: Result<(), GraphicsStateError>)
        requires
            old(self).wf(),
        ensures
            r is Ok,
            final(self).wf(),
            final(self).state is PageDescription,
            final(self).properties.dash_pattern == d,
            final(self).properties.line_width == old(self).properties.line_width,
            final(self).properties.line_cap == old(self).properties.line_cap,
            final(self).properties.stroke_color == old(self).properties.stroke_color,
            final(self).properties.non_stroke_color == old(self).properties.non_stroke_color,
    {
        let _ = self.page_description();
        self.properties.dash_pattern = d;
        Ok(())
    }

    /// Enters the text state; text content passes through to the
    /// downstream consumer unrendered.
    pub fn begin_text(&mut self) -> (r: Result<(), GraphicsStateError>)
        requires
            old(self).wf(),
        ensures
            final(self).wf(),
            final(self).properties == old(self).properties,
            match old(self).state {
                State::PageDescription => r is Ok && final(self).state is Text,
                State::Text => r is Ok && final(self).state is Text,
                State::Path(_) => final(self).state == old(self).state && (r matches Err(
                    GraphicsStateError::InvalidStateTransition(a, b),
                ) && a@ == "Path"@ && b@ == "Text"@),
                State::ClippingPath => final(self).state is ClippingPath && (r matches Err(
                    GraphicsStateError::InvalidStateTransition(a, b),
                ) && a@ == "ClippingPath"@ && b@ == "Text"@),
            },
    {
        self.text()
    }

    /// Leaves the text state for page description.
    pub fn end_text(&mut self) -> (r: Result<(), GraphicsStateError>)
        requires
            old(self).wf(),
        ensures
            r is Ok,
            final(self).wf(),
            final(self).state is PageDescription,
            final(self).properties == old(self).properties,
    {
        self.page_description()
    }
}

} // verus!
