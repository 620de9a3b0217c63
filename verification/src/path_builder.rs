//! The path builder: low-level path events in the internal page space,
//! the coordinate transform from source space, the well-formedness of
//! event sequences, and the fillable-thin-rectangle rewrite.
//!
//! The internal space has its origin at the top centre of the page with
//! the y axis pointing down; the source space has its origin at the
//! bottom left with the y axis pointing up.

use vstd::prelude::*;

use crate::draw_state::{Command, Commands, DrawState, GraphicsStateError, State};
use crate::geom::{
    as_rect, spec_in_bounds, spec_rect_corners, spec_tdiv, Point, Vector, POINT_LIMIT,
    SEGMENT_LIMIT,
};
use crate::numbers::NUMBER_LIMIT;
use crate::shared::{Height, Width};

verus! {

/// One path event. A well-formed sequence is a concatenation of
/// sub-paths: each starts with one `Begin`, carries zero or more segment
/// events, and ends with one `End`.
#[derive(Debug, Clone, Copy, PartialEq, Eq, Structural)]
pub enum PathEvent {
    Begin { at: Point },
    Line { from: Point, to: Point },
    Quadratic { from: Point, ctrl: Point, to: Point },
    Cubic { from: Point, ctrl1: Point, ctrl2: Point, to: Point },
    End { first: Point, last: Point, close: bool },
}

/// Scans an event sequence with `open` telling whether a sub-path is
/// under way: `Some(open')` is the state after the whole sequence, `None`
/// a malformed sequence (a segment or an `End` outside a sub-path, or a
/// `Begin` inside one).
pub open spec fn spec_scan_events(s: Seq<PathEvent>, open: bool) -> Option<bool>
    decreases s.len(),
{
    if s.len() == 0 {
        Some(open)
    } else {
        match s[0] {
            PathEvent::Begin { .. } => if open {
                None
            } else {
                spec_scan_events(s.skip(1), true)
            },
            PathEvent::End { .. } => if open {
                spec_scan_events(s.skip(1), false)
            } else {
                None
            },
            _ => if open {
                spec_scan_events(s.skip(1), true)
            } else {
                None
            },
        }
    }
}

/// A complete well-formed sequence: sub-paths only, all of them closed.
pub open spec fn spec_wf_events(s: Seq<PathEvent>) -> bool {
    spec_scan_events(s, false) == Some(false)
}

/// Scanning a concatenation scans the parts in turn.
pub proof fn lemma_scan_concat(x: Seq<PathEvent>, y: Seq<PathEvent>, open: bool)
    ensures
        spec_scan_events(x + y, open) == (match spec_scan_events(x, open) {
            Some(m) => spec_scan_events(y, m),
            None => None::<bool>,
        }),
    decreases x.len(),
{
    if x.len() == 0 {
        assert(x + y =~= y);
    } else {
        assert((x + y).skip(1) =~= x.skip(1) + y);
        match x[0] {
            PathEvent::Begin { .. } => {
                if !open {
                    lemma_scan_concat(x.skip(1), y, true);
                }
            },
            PathEvent::End { .. } => {
                if open {
                    lemma_scan_concat(x.skip(1), y, false);
                }
            },
            _ => {
                if open {
                    lemma_scan_concat(x.skip(1), y, true);
                }
            },
        }
    }
}

/// Every point of the event lies within `limit`.
pub open spec fn spec_event_bounded(e: PathEvent, limit: int) -> bool {
    match e {
        PathEvent::Begin { at } => spec_in_bounds(at, limit),
        PathEvent::Line { from, to } => spec_in_bounds(from, limit) && spec_in_bounds(to, limit),
        PathEvent::Quadratic { from, ctrl, to } => spec_in_bounds(from, limit) && spec_in_bounds(
            ctrl,
            limit,
        ) && spec_in_bounds(to, limit),
        PathEvent::Cubic { from, ctrl1, ctrl2, to } => spec_in_bounds(from, limit)
            && spec_in_bounds(ctrl1, limit) && spec_in_bounds(ctrl2, limit) && spec_in_bounds(
            to,
            limit,
        ),
        PathEvent::End { first, last, .. } => spec_in_bounds(first, limit) && spec_in_bounds(
            last,
            limit,
        ),
    }
}

pub open spec fn spec_events_bounded(s: Seq<PathEvent>, limit: int) -> bool {
    forall|i: int| 0 <= i < s.len() ==> spec_event_bounded(#[trigger] s[i], limit)
}

// ------------------------------------------------------------------
// The source-to-internal coordinate map
// ------------------------------------------------------------------

/// Where a source-space point lands in the internal space: shifted by the
/// bottom-left corner of the page, with the y axis flipped.
pub open spec fn spec_to_internal(v: Vector, bl: Point) -> Point {
    Point { x: (bl.x + v.x) as i64, y: (bl.y - v.y) as i64 }
}

/// The bottom-left corner the page dimensions put the origin at.
pub open spec fn spec_bottom_left(w: int, h: int) -> Point {
    Point { x: (-spec_tdiv(w, 2)) as i64, y: spec_tdiv(h, 2) as i64 }
}

/// The map into the internal space is a reflection composed with a
/// translation: applied twice, the y coordinate is negated twice and so
/// restored exactly; the x coordinate gains the horizontal shift twice,
/// so the double application is the identity precisely when that shift
/// is zero.
pub proof fn lemma_internal_map_reflection(v: Vector, bl: Point)
    requires
        spec_in_bounds(v, 2 * NUMBER_LIMIT as int),
        spec_in_bounds(bl, NUMBER_LIMIT as int),
    ensures
        spec_to_internal(spec_to_internal(v, bl), bl).y == v.y,
        spec_to_internal(spec_to_internal(v, bl), bl).x == v.x + 2 * bl.x,
        bl.x == 0 ==> spec_to_internal(spec_to_internal(v, bl), bl) == v,
{
}

// ------------------------------------------------------------------
// The fillable-thin-rectangle rewrite
// ------------------------------------------------------------------

/// The head of `s` is a single-line sub-path whose coordinates are small
/// enough to rewrite: `Begin`, one `Line`, `End`.
pub open spec fn spec_fill_window(s: Seq<PathEvent>) -> bool {
    &&& s.len() >= 3
    &&& s[0] is Begin
    &&& s[1] is Line
    &&& s[2] is End
    &&& spec_event_bounded(s[0], SEGMENT_LIMIT as int)
    &&& spec_event_bounded(s[1], SEGMENT_LIMIT as int)
    &&& spec_event_bounded(s[2], SEGMENT_LIMIT as int)
}

/// A degenerate segment is nudged one unit right and one unit up in
/// source terms (down is positive y here) so it has positive length.
pub open spec fn spec_perturb(from: Point, to: Point) -> Point {
    if from == to {
        Point { x: (to.x + 1000000) as i64, y: (to.y - 1000000) as i64 }
    } else {
        to
    }
}

/// The five events of the one-unit-wide rectangle that replaces a single
/// line from `from` to `to0`.
pub open spec fn spec_thin_rect_events(from: Point, to0: Point) -> Seq<PathEvent> {
    let to = spec_perturb(from, to0);
    let c = spec_rect_corners(from, to);
    seq![
        PathEvent::Begin { at: c.0 },
        PathEvent::Line { from: c.0, to: c.1 },
        PathEvent::Line { from: c.1, to: c.2 },
        PathEvent::Line { from: c.2, to: c.3 },
        PathEvent::End { first: c.0, last: c.3, close: true },
    ]
}

/// The rewrite: each single-line sub-path becomes its thin rectangle;
/// everything else passes through unchanged.
pub open spec fn spec_make_fillable(s: Seq<PathEvent>) -> Seq<PathEvent>
    decreases s.len(),
{
    if spec_fill_window(s) {
        (match s[1] {
            PathEvent::Line { from, to } => spec_thin_rect_events(from, to),
            _ => Seq::empty(),
        }) + spec_make_fillable(s.skip(3))
    } else if s.len() >= 1 {
        seq![s[0]] + spec_make_fillable(s.skip(1))
    } else {
        Seq::empty()
    }
}

/// The rewrite touches no event of a prefix in which no window starts,
/// provided the prefix cannot combine with what follows into a window.
proof fn lemma_mf_prepend_inert(x: Seq<PathEvent>, y: Seq<PathEvent>)
    requires
        forall|j: int| 0 <= j < x.len() ==> !spec_fill_window((x + y).skip(j)),
    ensures
        spec_make_fillable(x + y) == x + spec_make_fillable(y),
    decreases x.len(),
{
    if x.len() == 0 {
        assert(x + y =~= y);
        assert(x + spec_make_fillable(y) =~= spec_make_fillable(y));
    } else {
        assert(!spec_fill_window(x + y)) by {
            assert((x + y).skip(0) =~= x + y);
        }
        assert((x + y).len() >= 1);
        assert(spec_make_fillable(x + y) == seq![(x + y)[0]] + spec_make_fillable(
            (x + y).skip(1),
        ));
        assert((x + y).skip(1) =~= x.skip(1) + y);
        assert forall|j: int| 0 <= j < x.skip(1).len() implies !spec_fill_window(
            (x.skip(1) + y).skip(j),
        ) by {
            assert((x.skip(1) + y).skip(j) =~= (x + y).skip(j + 1));
        }
        lemma_mf_prepend_inert(x.skip(1), y);
        assert(seq![(x + y)[0]] + (x.skip(1) + spec_make_fillable(y)) =~= x
            + spec_make_fillable(y));
    }
}

/// No window starts anywhere inside a thin rectangle, whatever follows.
proof fn lemma_thin_rect_inert(from: Point, to0: Point, y: Seq<PathEvent>)
    ensures
        forall|j: int|
            0 <= j < spec_thin_rect_events(from, to0).len() ==> !spec_fill_window(
                #[trigger] (spec_thin_rect_events(from, to0) + y).skip(j),
            ),
{
    let b = spec_thin_rect_events(from, to0);
    assert forall|j: int| 0 <= j < b.len() implies !spec_fill_window((b + y).skip(j)) by {
        let t = (b + y).skip(j);
        if j == 0 {
            assert(t[2] == b[2]);
            assert(!(b[2] is End));
        } else if j + 2 < b.len() + y.len() {
            assert(t[0] == b[j]);
            assert(!(b[j] is Begin));
        } else {
            assert(t.len() < 3);
        }
    }
}

/// Applying the rewrite twice is the same as applying it once: the
/// rectangles it makes are no longer single-line sub-paths, and what it
/// copied it copies again.
pub proof fn lemma_make_fillable_idempotent(s: Seq<PathEvent>)
    ensures
        spec_make_fillable(spec_make_fillable(s)) == spec_make_fillable(s),
    decreases s.len(),
{
    if spec_fill_window(s) {
        let (from, to0) = match s[1] {
            PathEvent::Line { from, to } => (from, to),
            _ => (s[1]->Line_from, s[1]->Line_to),
        };
        let b = spec_thin_rect_events(from, to0);
        let t = spec_make_fillable(s.skip(3));
        lemma_make_fillable_idempotent(s.skip(3));
        lemma_thin_rect_inert(from, to0, t);
        lemma_mf_prepend_inert(b, t);
        assert(spec_make_fillable(s) == b + t);
    } else if s.len() >= 1 {
        let t = spec_make_fillable(s.skip(1));
        lemma_make_fillable_idempotent(s.skip(1));
        // the copied head still opens no window in front of the rewritten
        // tail
        let e = seq![s[0]];
        assert forall|j: int| 0 <= j < e.len() implies !spec_fill_window((e + t).skip(j)) by {
            let w = (e + t).skip(j);
            assert(j == 0);
            assert(w =~= e + t);
            if s[0] is Begin && w.len() >= 3 {
                // what follows the head is the rewrite of the old tail
                if spec_fill_window(s.skip(1)) {
                    let b1 = match s.skip(1)[1] {
                        PathEvent::Line { from, to } => spec_thin_rect_events(from, to),
                        _ => Seq::empty(),
                    };
                    assert(t == b1 + spec_make_fillable(s.skip(1).skip(3)));
                    assert(t[0] == b1[0]);
                    assert(t[0] is Begin);
                    assert(!(w[1] is Line));
                } else if s.skip(1).len() >= 1 {
                    assert(t == seq![s.skip(1)[0]] + spec_make_fillable(s.skip(1).skip(1)));
                    assert(t[0] == s[1]);
                    if s[1] is Line {
                        // the head before the rewrite was no window, so either the
                        // third event is missing, no end, or out of bounds
                        if s.len() >= 3 {
                            let s2 = s.skip(1).skip(1);
                            assert(s2 =~= s.skip(2));
                            // inspect the second element of the rewritten
                            // tail
                            if spec_fill_window(s.skip(2)) {
                                let b2 = match s.skip(2)[1] {
                                    PathEvent::Line { from, to } => spec_thin_rect_events(
                                        from,
                                        to,
                                    ),
                                    _ => Seq::empty(),
                                };
                                assert(spec_make_fillable(s.skip(2)) == b2
                                    + spec_make_fillable(s.skip(2).skip(3)));
                                assert(t[1] == b2[0]);
                                assert(!(t[1] is End));
                            } else {
                                assert(spec_make_fillable(s.skip(2)) == seq![s.skip(2)[0]]
                                    + spec_make_fillable(s.skip(2).skip(1)));
                                assert(t[1] == s[2]);
                                if s[2] is End {
                                    // then the head before the rewrite failed the
                                    // window test only on bounds
                                    assert(!spec_fill_window(s));
                                    if spec_event_bounded(s[0], SEGMENT_LIMIT as int)
                                        && spec_event_bounded(s[1], SEGMENT_LIMIT as int)
                                        && spec_event_bounded(s[2], SEGMENT_LIMIT as int) {
                                        assert(false);
                                    }
                                    // an out-of-bounds head keeps its
                                    // events verbatim, so the second pass
                                    // rejects the window for the same
                                    // reason
                                    assert(w[0] == s[0] && w[1] == s[1] && w[2] == s[2]);
                                    assert(!spec_fill_window(w));
                                }
                            }
                        } else {
                            assert(w.len() < 3);
                            assert(false);
                        }
                    }
                }
            }
        }
        lemma_mf_prepend_inert(e, t);
        assert(spec_make_fillable(s) == e + t);
    } else {
        assert(spec_make_fillable(s) =~= Seq::<PathEvent>::empty());
    }
}

/// The events an implicit or explicit end of the open sub-path emits: a
/// sub-path that only began closes where it started and is never marked
/// closed; one with commands closes from its current point with the
/// requested flag; no event when nothing is open.
pub open spec fn spec_close_events(st: State, close: bool) -> Seq<PathEvent> {
    match st {
        State::Inactive => Seq::empty(),
        State::Active(a) => seq![
            PathEvent::End { first: a.first, last: a.first, close: false },
        ],
        State::Commands(c) => seq![
            PathEvent::End { first: c.first, last: c.current, close },
        ],
    }
}

/// The path under construction: its events so far, the draw state of the
/// open sub-path, the corner the coordinate map shifts by, and the point
/// the pen rests at.
#[derive(Debug)]
pub struct Path {
    pub events: Vec<PathEvent>,
    pub draw_state: DrawState,
    pub bottom_left_of_page: Point,
    pub current_position: Point,
}

impl Path {
    /// The builder's invariant: the accumulated events are a well-formed
    /// sequence with one sub-path open exactly when the draw state says
    /// so, and every coordinate is bounded.
    pub open spec fn wf(self) -> bool {
        &&& spec_scan_events(self.events@, false) == Some(!(self.draw_state.0 is Inactive))
        &&& spec_events_bounded(self.events@, POINT_LIMIT as int)
        &&& spec_in_bounds(self.bottom_left_of_page, 500000000000000)
        &&& spec_in_bounds(self.current_position, SEGMENT_LIMIT as int)
        &&& match self.draw_state.0 {
            State::Inactive => true,
            State::Active(a) => spec_in_bounds(a.first, SEGMENT_LIMIT as int),
            State::Commands(c) => spec_in_bounds(c.first, SEGMENT_LIMIT as int)
                && spec_in_bounds(c.current, SEGMENT_LIMIT as int),
        }
    }

    /// A fresh builder for a page of the given dimensions.
    pub fn new(page_width: Width, page_height: Height) -> (r: Path)
        requires
            0 <= page_width.value.micros <= NUMBER_LIMIT,
            0 <= page_height.value.micros <= NUMBER_LIMIT,
        ensures
            r.wf(),
            r.events@.len() == 0,
            r.draw_state.0 is Inactive,
            r.bottom_left_of_page == spec_bottom_left(
                page_width.value.micros as int,
                page_height.value.micros as int,
            ),
            r.current_position == (Point { x: 0, y: 0 }),
    {
        let half_w = ((page_width.value.micros as u64) / 2) as i64;
        let half_h = ((page_height.value.micros as u64) / 2) as i64;
        Path {
            events: Vec::new(),
            draw_state: DrawState(State::Inactive),
            bottom_left_of_page: Point { x: -half_w, y: half_h },
            current_position: Point { x: 0, y: 0 },
        }
    }

    /// Maps a source-space point into the internal space.
    fn to_internal(&self, v: Vector) -> (r: Point)
        requires
            spec_in_bounds(self.bottom_left_of_page, 500000000000000),
            spec_in_bounds(v, 2 * NUMBER_LIMIT as int),
        ensures
            r == spec_to_internal(v, self.bottom_left_of_page),
            spec_in_bounds(r, SEGMENT_LIMIT as int),
    {
        Point { x: self.bottom_left_of_page.x + v.x, y: self.bottom_left_of_page.y - v.y }
    }

    /// Ends the open sub-path, if any, with an implicit unclosed `End`.
    fn end_if_needed(&mut self)
        requires
            old(self).wf(),
        ensures
            final(self).wf(),
            final(self).events@ == old(self).events@ + spec_close_events(
                old(self).draw_state.0,
                false,
            ),
            final(self).draw_state.0 is Inactive,
            final(self).bottom_left_of_page == old(self).bottom_left_of_page,
            final(self).current_position == old(self).current_position,
    {
        let ghost olds = self.events@;
        let ghost st = self.draw_state.0;
        match self.draw_state.current() {
            State::Inactive => {
                proof {
                    assert(self.events@ =~= olds + spec_close_events(st, false));
                }
            },
            State::Active(a) => {
                self.events.push(PathEvent::End { first: a.first, last: a.first, close: false });
                self.draw_state.0 = State::Inactive;
                proof {
                    assert(self.events@ =~= olds + spec_close_events(st, false));
                    lemma_scan_concat(olds, spec_close_events(st, false), false);
                    assert(spec_close_events(st, false).skip(1) =~= Seq::<PathEvent>::empty());
                    assert(spec_scan_events(Seq::<PathEvent>::empty(), false) == Some(false));
                    assert(spec_scan_events(Seq::<PathEvent>::empty(), true) == Some(true));
                    assert forall|k: int| 0 <= k < self.events@.len() implies spec_event_bounded(
                        #[trigger] self.events@[k],
                        POINT_LIMIT as int,
                    ) by {
                        if k < olds.len() {
                            assert(self.events@[k] == olds[k]);
                        }
                    }
                }
            },
            State::Commands(c) => {
                self.events.push(PathEvent::End { first: c.first, last: c.current, close: false });
                self.draw_state.0 = State::Inactive;
                proof {
                    assert(self.events@ =~= olds + spec_close_events(st, false));
                    lemma_scan_concat(olds, spec_close_events(st, false), false);
                    assert(spec_close_events(st, false).skip(1) =~= Seq::<PathEvent>::empty());
                    assert(spec_scan_events(Seq::<PathEvent>::empty(), false) == Some(false));
                    assert(spec_scan_events(Seq::<PathEvent>::empty(), true) == Some(true));
                    assert forall|k: int| 0 <= k < self.events@.len() implies spec_event_bounded(
                        #[trigger] self.events@[k],
                        POINT_LIMIT as int,
                    ) by {
                        if k < olds.len() {
                            assert(self.events@[k] == olds[k]);
                        }
                    }
                }
            },
        }
    }

    /// Opens a sub-path at `to` (in source coordinates), first ending any
    /// open one with an implicit unclosed `End`.
    pub fn move_to(&mut self, to: Vector) -> (r: Result<(), GraphicsStateError>)
        requires
            old(self).wf(),
            spec_in_bounds(to, 2 * NUMBER_LIMIT as int),
        ensures
            r is Ok,
            final(self).wf(),
            ({
                let at = spec_to_internal(to, old(self).bottom_left_of_page);
                &&& final(self).events@ == old(self).events@ + spec_close_events(
                    old(self).draw_state.0,
                    false,
                ) + seq![PathEvent::Begin { at }]
                &&& final(self).draw_state.0 == State::Active(
                    crate::draw_state::Active { first: at },
                )
                &&& final(self).current_position == at
            }),
            final(self).bottom_left_of_page == old(self).bottom_left_of_page,
    {
        self.end_if_needed();
        let at = self.to_internal(to);
        let ghost mid = self.events@;
        self.events.push(PathEvent::Begin { at });
        let res = self.draw_state.make_active(at);
        self.current_position = at;
        proof {
            assert(self.events@ =~= mid + seq![PathEvent::Begin { at }]);
            lemma_scan_concat(mid, seq![PathEvent::Begin { at }], false);
            assert(seq![PathEvent::Begin { at }].skip(1) =~= Seq::<PathEvent>::empty());
                    assert(spec_scan_events(Seq::<PathEvent>::empty(), false) == Some(false));
                    assert(spec_scan_events(Seq::<PathEvent>::empty(), true) == Some(true));
            assert(self.events@ =~= old(self).events@ + spec_close_events(
                old(self).draw_state.0,
                false,
            ) + seq![PathEvent::Begin { at }]);
            assert forall|k: int| 0 <= k < self.events@.len() implies spec_event_bounded(
                #[trigger] self.events@[k],
                POINT_LIMIT as int,
            ) by {
                if k < mid.len() {
                    assert(self.events@[k] == mid[k]);
                }
            }
        }
        res
    }

    /// Adds a line to `to` (in source coordinates). A line with no open
    /// sub-path opens one first: at the page's bottom-left corner when
    /// nothing has been drawn yet, else at the pen's resting point.
    pub fn line_to(&mut self, to: Vector) -> (r: Result<(), GraphicsStateError>)
        requires
            old(self).wf(),
            spec_in_bounds(to, 2 * NUMBER_LIMIT as int),
        ensures
            r is Ok,
            final(self).wf(),
            final(self).bottom_left_of_page == old(self).bottom_left_of_page,
            ({
                let at = spec_to_internal(to, old(self).bottom_left_of_page);
                &&& final(self).current_position == at
                &&& match old(self).draw_state.0 {
                    State::Inactive => {
                        let at0 = if old(self).events@.len() == 0 {
                            old(self).bottom_left_of_page
                        } else {
                            old(self).current_position
                        };
                        &&& final(self).events@ == old(self).events@ + seq![
                            PathEvent::Begin { at: at0 },
                            PathEvent::Line { from: at0, to: at },
                        ]
                        &&& final(self).draw_state.0 == State::Commands(
                            Commands {
                                line_to: true,
                                cubic_bezier: false,
                                quadratic_bezier: false,
                                current: at,
                                first: at0,
                            },
                        )
                    },
                    State::Active(a) => {
                        &&& final(self).events@ == old(self).events@ + seq![
                            PathEvent::Line { from: a.first, to: at },
                        ]
                        &&& final(self).draw_state.0 == State::Commands(
                            Commands {
                                line_to: true,
                                cubic_bezier: false,
                                quadratic_bezier: false,
                                current: at,
                                first: a.first,
                            },
                        )
                    },
                    State::Commands(c) => {
                        &&& final(self).events@ == old(self).events@ + seq![
                            PathEvent::Line { from: c.current, to: at },
                        ]
                        &&& final(self).draw_state.0 == State::Commands(
                            Commands {
                                line_to: true,
                                cubic_bezier: c.cubic_bezier,
                                quadratic_bezier: c.quadratic_bezier,
                                current: at,
                                first: c.first,
                            },
                        )
                    },
                }
            }),
    {
        let ghost olds = self.events@;
        let mut opened: bool = false;
        let ghost at0g = self.bottom_left_of_page;
        match self.draw_state.current() {
            State::Inactive => {
                let at0 = if self.events.len() == 0 {
                    self.bottom_left_of_page
                } else {
                    self.current_position
                };
                self.events.push(PathEvent::Begin { at: at0 });
                let _ = self.draw_state.make_active(at0);
                self.current_position = at0;
                proof {
                    lemma_scan_concat(olds, seq![PathEvent::Begin { at: at0 }], false);
                    assert(seq![PathEvent::Begin { at: at0 }].skip(1)
                        =~= Seq::<PathEvent>::empty());
                    assert(self.events@ =~= olds + seq![PathEvent::Begin { at: at0 }]);
                    assert forall|k: int| 0 <= k < self.events@.len() implies spec_event_bounded(
                        #[trigger] self.events@[k],
                        POINT_LIMIT as int,
                    ) by {
                        if k < olds.len() {
                            assert(self.events@[k] == olds[k]);
                        }
                    }
                }
            },
            _ => {},
        }
        let from = match self.draw_state.assert_is_active() {
            Ok(a) => a.first,
            Err(_) => match self.draw_state.assert_is_commands() {
                Ok(c) => c.current,
                Err(_) => {
                    proof {
                        assert(false);
                    }
                    Point { x: 0, y: 0 }
                },
            },
        };
        let _ = self.draw_state.make_commands(Command::LineTo);
        let at = self.to_internal(to);
        let ghost mid = self.events@;
        self.events.push(PathEvent::Line { from, to: at });
        // the command state follows the pen
        let cur = match self.draw_state.assert_is_commands() {
            Ok(c) => Commands { current: at, ..*c },
            Err(_) => {
                proof {
                    assert(false);
                }
                Commands {
                    line_to: true,
                    cubic_bezier: false,
                    quadratic_bezier: false,
                    current: at,
                    first: at,
                }
            },
        };
        self.draw_state.0 = State::Commands(cur);
        self.current_position = at;
        proof {
            assert(self.events@ =~= mid + seq![PathEvent::Line { from, to: at }]);
            lemma_scan_concat(mid, seq![PathEvent::Line { from, to: at }], false);
            assert(seq![PathEvent::Line { from, to: at }].skip(1)
                =~= Seq::<PathEvent>::empty());
            assert(spec_scan_events(Seq::<PathEvent>::empty(), false) == Some(false));
            assert(spec_scan_events(Seq::<PathEvent>::empty(), true) == Some(true));
            assert forall|k: int| 0 <= k < self.events@.len() implies spec_event_bounded(
                #[trigger] self.events@[k],
                POINT_LIMIT as int,
            ) by {
                if k < mid.len() {
                    assert(self.events@[k] == mid[k]);
                }
            }
            if old(self).draw_state.0 is Inactive {
                let at0 = if old(self).events@.len() == 0 {
                    old(self).bottom_left_of_page
                } else {
                    old(self).current_position
                };
                assert(self.events@ =~= old(self).events@ + seq![
                    PathEvent::Begin { at: at0 },
                    PathEvent::Line { from: at0, to: at },
                ]);
            }
        }
        Ok(())
    }

    /// Ends the open sub-path. One that only began ends where it started
    /// and is not marked closed; one with commands ends at its current
    /// point with the given flag; nothing happens when none is open.
    pub fn end(&mut self, close: bool) -> (r: Result<(), GraphicsStateError>)
        requires
            old(self).wf(),
        ensures
            r is Ok,
            final(self).wf(),
            final(self).events@ == old(self).events@ + spec_close_events(
                old(self).draw_state.0,
                close,
            ),
            final(self).draw_state.0 is Inactive,
            final(self).bottom_left_of_page == old(self).bottom_left_of_page,
            final(self).current_position == old(self).current_position,
    {
        let ghost olds = self.events@;
        let ghost st = self.draw_state.0;
        match self.draw_state.current() {
            State::Inactive => {
                proof {
                    assert(self.events@ =~= olds + spec_close_events(st, close));
                }
            },
            State::Active(a) => {
                self.events.push(PathEvent::End { first: a.first, last: a.first, close: false });
                self.draw_state.0 = State::Inactive;
                proof {
                    assert(self.events@ =~= olds + spec_close_events(st, close));
                    lemma_scan_concat(olds, spec_close_events(st, close), false);
                    assert(spec_close_events(st, close).skip(1) =~= Seq::<PathEvent>::empty());
                    assert(spec_scan_events(Seq::<PathEvent>::empty(), false) == Some(false));
                    assert(spec_scan_events(Seq::<PathEvent>::empty(), true) == Some(true));
                    assert forall|k: int| 0 <= k < self.events@.len() implies spec_event_bounded(
                        #[trigger] self.events@[k],
                        POINT_LIMIT as int,
                    ) by {
                        if k < olds.len() {
                            assert(self.events@[k] == olds[k]);
                        }
                    }
                }
            },
            State::Commands(c) => {
                self.events.push(PathEvent::End { first: c.first, last: c.current, close });
                self.draw_state.0 = State::Inactive;
                proof {
                    assert(self.events@ =~= olds + spec_close_events(st, close));
                    lemma_scan_concat(olds, spec_close_events(st, close), false);
                    assert(spec_close_events(st, close).skip(1) =~= Seq::<PathEvent>::empty());
                    assert(spec_scan_events(Seq::<PathEvent>::empty(), false) == Some(false));
                    assert(spec_scan_events(Seq::<PathEvent>::empty(), true) == Some(true));
                    assert forall|k: int| 0 <= k < self.events@.len() implies spec_event_bounded(
                        #[trigger] self.events@[k],
                        POINT_LIMIT as int,
                    ) by {
                        if k < olds.len() {
                            assert(self.events@[k] == olds[k]);
                        }
                    }
                }
            },
        }
        Ok(())
    }

    /// Ends the open sub-path, marking it closed.
    pub fn close(&mut self) -> (r: Result<(), GraphicsStateError>)
        requires
            old(self).wf(),
        ensures
            r is Ok,
            final(self).wf(),
            final(self).events@ == old(self).events@ + spec_close_events(
                old(self).draw_state.0,
                true,
            ),
            final(self).draw_state.0 is Inactive,
            final(self).bottom_left_of_page == old(self).bottom_left_of_page,
            final(self).current_position == old(self).current_position,
    {
        self.end(true)
    }

    /// Draws a rectangle from its lower-left corner: a move and three
    /// lines, with each dimension at least one unit so a degenerate
    /// rectangle stays visible once filled.
    pub fn rect(&mut self, low_left: Vector, width: Width, height: Height) -> (r: Result<
        (),
        GraphicsStateError,
    >)
        requires
            old(self).wf(),
            spec_in_bounds(low_left, NUMBER_LIMIT as int),
            -NUMBER_LIMIT <= width.value.micros <= NUMBER_LIMIT,
            -NUMBER_LIMIT <= height.value.micros <= NUMBER_LIMIT,
        ensures
            r is Ok,
            final(self).wf(),
            final(self).bottom_left_of_page == old(self).bottom_left_of_page,
            ({
                let bl = old(self).bottom_left_of_page;
                let w = if width.value.micros < 1000000 {
                    1000000int
                } else {
                    width.value.micros as int
                };
                let h = if height.value.micros < 1000000 {
                    1000000int
                } else {
                    height.value.micros as int
                };
                let p0 = spec_to_internal(low_left, bl);
                let p1 = spec_to_internal(
                    Point { x: (low_left.x + w) as i64, y: low_left.y },
                    bl,
                );
                let p2 = spec_to_internal(
                    Point { x: (low_left.x + w) as i64, y: (low_left.y + h) as i64 },
                    bl,
                );
                let p3 = spec_to_internal(
                    Point { x: low_left.x, y: (low_left.y + h) as i64 },
                    bl,
                );
                &&& final(self).events@ == old(self).events@ + spec_close_events(
                    old(self).draw_state.0,
                    false,
                ) + seq![
                    PathEvent::Begin { at: p0 },
                    PathEvent::Line { from: p0, to: p1 },
                    PathEvent::Line { from: p1, to: p2 },
                    PathEvent::Line { from: p2, to: p3 },
                ]
                &&& final(self).draw_state.0 == State::Commands(
                    Commands {
                        line_to: true,
                        cubic_bezier: false,
                        quadratic_bezier: false,
                        current: p3,
                        first: p0,
                    },
                )
                &&& final(self).current_position == p3
            }),
    {
        let w = if width.value.micros < 1000000 {
            1000000i64
        } else {
            width.value.micros
        };
        let h = if height.value.micros < 1000000 {
            1000000i64
        } else {
            height.value.micros
        };
        let r1 = self.move_to(low_left);
        let r2 = self.line_to(Point { x: low_left.x + w, y: low_left.y });
        let r3 = self.line_to(Point { x: low_left.x + w, y: low_left.y + h });
        let r4 = self.line_to(Point { x: low_left.x, y: low_left.y + h });
        proof {
            assert(self.events@ =~= old(self).events@ + spec_close_events(
                old(self).draw_state.0,
                false,
            ) + seq![
                PathEvent::Begin { at: spec_to_internal(low_left, old(self).bottom_left_of_page) },
                PathEvent::Line {
                    from: spec_to_internal(low_left, old(self).bottom_left_of_page),
                    to: spec_to_internal(
                        Point { x: (low_left.x + w) as i64, y: low_left.y },
                        old(self).bottom_left_of_page,
                    ),
                },
                PathEvent::Line {
                    from: spec_to_internal(
                        Point { x: (low_left.x + w) as i64, y: low_left.y },
                        old(self).bottom_left_of_page,
                    ),
                    to: spec_to_internal(
                        Point { x: (low_left.x + w) as i64, y: (low_left.y + h) as i64 },
                        old(self).bottom_left_of_page,
                    ),
                },
                PathEvent::Line {
                    from: spec_to_internal(
                        Point { x: (low_left.x + w) as i64, y: (low_left.y + h) as i64 },
                        old(self).bottom_left_of_page,
                    ),
                    to: spec_to_internal(
                        Point { x: low_left.x, y: (low_left.y + h) as i64 },
                        old(self).bottom_left_of_page,
                    ),
                },
            ]);
        }
        Ok(())
    }

    /// Hands the accumulated events out exactly as they stand, consuming
    /// them from the builder; nothing is appended. The result is a
    /// well-formed sequence of closed sub-paths whenever no sub-path was
    /// left open; the emptied builder starts its next sub-path afresh.
    pub fn build(&mut self) -> (r: Result<Vec<PathEvent>, GraphicsStateError>)
        requires
            old(self).wf(),
        ensures
            final(self).wf(),
            final(self).events@.len() == 0,
            final(self).draw_state.0 is Inactive,
            final(self).bottom_left_of_page == old(self).bottom_left_of_page,
            final(self).current_position == old(self).current_position,
            match r {
                Ok(events) => {
                    &&& events@ == old(self).events@
                    &&& (old(self).draw_state.0 is Inactive ==> spec_wf_events(events@))
                },
                Err(_) => false,
            },
    {
        let mut out: Vec<PathEvent> = Vec::new();
        let n = self.events.len();
        let mut i: usize = 0;
        while i < n
            invariant
                0 <= i <= n,
                n == self.events@.len(),
                out@ == self.events@.subrange(0, i as int),
                self.wf(),
            decreases n - i,
        {
            out.push(self.events[i]);
            proof {
                assert(out@ =~= self.events@.subrange(0, i + 1));
            }
            i = i + 1;
        }
        proof {
            assert(out@ =~= self.events@);
        }
        self.events = Vec::new();
        self.draw_state.0 = State::Inactive;
        Ok(out)
    }

    /// Rewrites every single-line sub-path into a thin one-unit-wide
    /// rectangle along the line, so that a fill leaves it visible;
    /// everything else passes through unchanged. Applying this twice is
    /// the same as applying it once.
    pub fn make_fillable_if_needed(&mut self)
        requires
            old(self).wf(),
        ensures
            final(self).wf(),
            final(self).events@ == spec_make_fillable(old(self).events@),
            final(self).draw_state == old(self).draw_state,
            final(self).bottom_left_of_page == old(self).bottom_left_of_page,
            final(self).current_position == old(self).current_position,
    {
        let ghost orig = self.events@;
        let mut out: Vec<PathEvent> = Vec::new();
        let n = self.events.len();
        proof {
            assert(orig.skip(0) =~= orig);
        }
        let mut i: usize = 0;
        while i < n
            invariant
                0 <= i <= n,
                n == self.events@.len(),
                self.wf(),
                orig == self.events@,
                spec_make_fillable(orig) == out@ + spec_make_fillable(orig.skip(i as int)),
                spec_events_bounded(out@, POINT_LIMIT as int),
            decreases n - i,
        {
            let window = if n - i > 2 {
                let e0 = self.events[i];
                let e1 = self.events[i + 1];
                let e2 = self.events[i + 2];
                let shape = match e0 {
                    PathEvent::Begin { .. } => true,
                    _ => false,
                } && match e1 {
                    PathEvent::Line { .. } => true,
                    _ => false,
                } && match e2 {
                    PathEvent::End { .. } => true,
                    _ => false,
                };
                shape && event_within(&e0, SEGMENT_LIMIT) && event_within(&e1, SEGMENT_LIMIT)
                    && event_within(&e2, SEGMENT_LIMIT)
            } else {
                false
            };
            proof {
                assert(orig.skip(i as int).len() == n - i);
                if i + 2 < n {
                    assert(orig.skip(i as int)[0] == orig[i as int]);
                    assert(orig.skip(i as int)[1] == orig[i as int + 1]);
                    assert(orig.skip(i as int)[2] == orig[i as int + 2]);
                }
                assert(window == spec_fill_window(orig.skip(i as int)));
            }
            if window {
                let (from, to0) = match self.events[i + 1] {
                    PathEvent::Line { from, to } => (from, to),
                    _ => (Point { x: 0, y: 0 }, Point { x: 0, y: 0 }),
                };
                let to = if from.x == to0.x && from.y == to0.y {
                    Point { x: to0.x + 1000000, y: to0.y - 1000000 }
                } else {
                    to0
                };
                proof {
                    assert(to == spec_perturb(from, to0));
                    assert(!(from.x == to.x && from.y == to.y));
                }
                let c = as_rect(from, to);
                out.push(PathEvent::Begin { at: c.0 });
                out.push(PathEvent::Line { from: c.0, to: c.1 });
                out.push(PathEvent::Line { from: c.1, to: c.2 });
                out.push(PathEvent::Line { from: c.2, to: c.3 });
                out.push(PathEvent::End { first: c.0, last: c.3, close: true });
                proof {
                    assert(orig.skip(i as int).skip(3) =~= orig.skip(i as int + 3));
                    assert(out@ =~= (out@.subrange(0, out@.len() - 5)) + spec_thin_rect_events(
                        from,
                        to0,
                    ));
                    assert(spec_make_fillable(orig) == out@ + spec_make_fillable(
                        orig.skip(i as int + 3),
                    ));
                }
                i = i + 3;
            } else {
                out.push(self.events[i]);
                proof {
                    assert(orig.skip(i as int).skip(1) =~= orig.skip(i as int + 1));
                    assert(seq![orig.skip(i as int)[0]] =~= seq![orig[i as int]]);
                    assert(spec_make_fillable(orig) == out@ + spec_make_fillable(
                        orig.skip(i as int + 1),
                    ));
                }
                i = i + 1;
            }
        }
        proof {
            assert(orig.skip(n as int) =~= Seq::<PathEvent>::empty());
            assert(spec_make_fillable(orig.skip(n as int)) =~= Seq::<PathEvent>::empty());
            assert(spec_make_fillable(orig) =~= out@);
            lemma_make_fillable_wf(orig, false, !(self.draw_state.0 is Inactive));
        }
        self.events = out;
    }
}

/// Every coordinate of the event within `limit`.
fn event_within(e: &PathEvent, limit: i64) -> (r: bool)
    requires
        limit >= 0,
    ensures
        r == spec_event_bounded(*e, limit as int),
{
    match e {
        PathEvent::Begin { at } => -limit <= at.x && at.x <= limit && -limit <= at.y && at.y
            <= limit,
        PathEvent::Line { from, to } => -limit <= from.x && from.x <= limit && -limit <= from.y
            && from.y <= limit && -limit <= to.x && to.x <= limit && -limit <= to.y && to.y
            <= limit,
        PathEvent::Quadratic { from, ctrl, to } => -limit <= from.x && from.x <= limit && -limit
            <= from.y && from.y <= limit && -limit <= ctrl.x && ctrl.x <= limit && -limit
            <= ctrl.y && ctrl.y <= limit && -limit <= to.x && to.x <= limit && -limit <= to.y
            && to.y <= limit,
        PathEvent::Cubic { from, ctrl1, ctrl2, to } => -limit <= from.x && from.x <= limit
            && -limit <= from.y && from.y <= limit && -limit <= ctrl1.x && ctrl1.x <= limit
            && -limit <= ctrl1.y && ctrl1.y <= limit && -limit <= ctrl2.x && ctrl2.x <= limit
            && -limit <= ctrl2.y && ctrl2.y <= limit && -limit <= to.x && to.x <= limit && -limit
            <= to.y && to.y <= limit,
        PathEvent::End { first, last, .. } => -limit <= first.x && first.x <= limit && -limit
            <= first.y && first.y <= limit && -limit <= last.x && last.x <= limit && -limit
            <= last.y && last.y <= limit,
    }
}

/// The rewrite keeps an event sequence well-formed, and leaves the scan
/// where it found it.
pub proof fn lemma_make_fillable_wf(s: Seq<PathEvent>, open: bool, m: bool)
    requires
        spec_scan_events(s, open) == Some(m),
    ensures
        spec_scan_events(spec_make_fillable(s), open) == Some(m),
    decreases s.len(),
{
    if spec_fill_window(s) {
        let b = match s[1] {
            PathEvent::Line { from, to } => spec_thin_rect_events(from, to),
            _ => Seq::empty(),
        };
        // the matched window scans Begin, a segment, End: so the scan
        // was closed before it and closed after it
        assert(!open) by {
            if open {
                assert(spec_scan_events(s, open) is None);
            }
        }
        assert(spec_scan_events(s.skip(1), true) == Some(m));
        assert(s.skip(1).skip(1) =~= s.skip(2));
        assert(spec_scan_events(s.skip(2), true) == Some(m));
        assert(s.skip(2).skip(1) =~= s.skip(3));
        assert(spec_scan_events(s.skip(3), false) == Some(m));
        lemma_make_fillable_wf(s.skip(3), false, m);
        lemma_scan_concat(b, spec_make_fillable(s.skip(3)), false);
        assert(spec_scan_events(b, false) == Some(false)) by {
            let b1 = b.skip(1);
            let b2 = b1.skip(1);
            let b3 = b2.skip(1);
            let b4 = b3.skip(1);
            let b5 = b4.skip(1);
            assert(b5 =~= Seq::<PathEvent>::empty());
            assert(b1[0] == b[1] && b2[0] == b[2] && b3[0] == b[3] && b4[0] == b[4]);
            assert(spec_scan_events(b5, false) == Some(false));
            assert(spec_scan_events(b4, true) == Some(false));
            assert(spec_scan_events(b3, true) == Some(false));
            assert(spec_scan_events(b2, true) == Some(false));
            assert(spec_scan_events(b1, true) == Some(false));
        }
    } else if s.len() >= 1 {
        let e = seq![s[0]];
        let open2 = match s[0] {
            PathEvent::Begin { .. } => true,
            PathEvent::End { .. } => false,
            _ => open,
        };
        assert(spec_scan_events(s.skip(1), open2) == Some(m)) by {
            match s[0] {
                PathEvent::Begin { .. } => {
                    assert(!open);
                },
                PathEvent::End { .. } => {
                    assert(open);
                },
                _ => {
                    assert(open);
                },
            }
        }
        lemma_make_fillable_wf(s.skip(1), open2, m);
        lemma_scan_concat(e, spec_make_fillable(s.skip(1)), open);
        assert(spec_scan_events(e, open) == Some(open2)) by {
            assert(e.skip(1) =~= Seq::<PathEvent>::empty());
                    assert(spec_scan_events(Seq::<PathEvent>::empty(), false) == Some(false));
                    assert(spec_scan_events(Seq::<PathEvent>::empty(), true) == Some(true));
            assert(spec_scan_events(e.skip(1), open2) == Some(open2));
            assert(e[0] == s[0]);
        }
    }
}

} // verus!
