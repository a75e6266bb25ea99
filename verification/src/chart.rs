//! What the user's input means for the strip chart. Times on the chart's axis are
//! the bits of `f64` values: they are kept and handed on, not computed with.

use crate::session::Selection;
use vstd::prelude::*;

verus! {

/// The state of the chart that does not depend on its geometry.
#[derive(Debug, Clone, Copy, PartialEq, Eq, Structural)]
pub struct ChartState {
    /// Whether the view keeps to the end of growing data.
    pub auto_follow_x: bool,
    /// The range that the user picked.
    pub selection: Option<Selection>,
    /// Whether the user is picking a range.
    pub selecting: bool,
    /// Where the user started picking.
    pub sel_anchor: u64,
    /// Where the pointer was last over the chart.
    pub cursor_t: Option<u64>,
    /// Where the user pinned the cursor.
    pub locked_cursor_t: Option<u64>,
}

/// The input of one frame.
#[derive(Debug, Clone, Copy, PartialEq, Eq, Structural)]
pub struct ChartInput {
    /// Whether the pointer is over the chart, and the time under it if it is within
    /// the plot.
    pub hovered: bool,
    pub pointer_t: Option<u64>,
    /// The time under a single secondary click within the plot.
    pub pin_click_t: Option<u64>,
    /// Whether the wheel was turned, and whether with the key that means values
    /// instead of time.
    pub scrolled: bool,
    pub value_key: bool,
    /// The lane under the pointer.
    pub lane: Option<usize>,
    /// Whether the pointer is dragging, whether with the key that means picking.
    pub dragged: bool,
    pub shift: bool,
    /// Where dragging started, and the ranges from there and from the anchor to the
    /// pointer.
    pub press_t: u64,
    pub range_from_press: Selection,
    pub range_from_anchor: Selection,
    /// Whether dragging moves the view along the time axis, and along the values.
    pub drag_moves_x: bool,
    pub drag_moves_y: bool,
    pub drag_stopped: bool,
    pub double_clicked: bool,
    pub clicked: bool,
    pub escape: bool,
}

/// What the input does to the axes.
#[derive(Debug, Clone, Copy, PartialEq, Eq, Structural)]
pub struct ChartMoves {
    /// Zoom along the time axis.
    pub zoom_x: bool,
    /// Zoom the values of this lane.
    pub zoom_y: Option<usize>,
    /// Move along the time axis.
    pub pan_x: bool,
    /// Move the values of this lane.
    pub pan_y: Option<usize>,
    /// Show everything.
    pub fit_all: bool,
}

impl ChartState {
    /// A chart that nobody has touched.
    pub fn new() -> (r: ChartState)
        ensures
            r == (ChartState {
                auto_follow_x: true,
                selection: None,
                selecting: false,
                sel_anchor: 0,
                cursor_t: None,
                locked_cursor_t: None,
            }),
    {
        ChartState {
            auto_follow_x: true,
            selection: None,
            selecting: false,
            sel_anchor: 0,
            cursor_t: None,
            locked_cursor_t: None,
        }
    }

    /// The time that the cursor stands at: where it is pinned, else where the
    /// pointer was last.
    pub fn active_cursor_t(&self) -> (r: Option<u64>)
        ensures
            r == if self.locked_cursor_t is Some {
                self.locked_cursor_t
            } else {
                self.cursor_t
            },
    {
        if self.locked_cursor_t.is_some() {
            self.locked_cursor_t
        } else {
            self.cursor_t
        }
    }

    /// The chart after everything was brought into view.
    pub open spec fn fitted(self) -> ChartState {
        ChartState { auto_follow_x: true, ..self }
    }

    /// Takes note that everything was brought into view.
    pub fn fit(&mut self)
        ensures
            *final(self) == old(self).fitted(),
    {
        self.auto_follow_x = true;
    }

    /// The pointer moves the cursor while it is over the plot; the cursor stays when
    /// the pointer leaves.
    pub open spec fn with_pointer(self, i: ChartInput) -> ChartState {
        if i.hovered && i.pointer_t is Some {
            ChartState { cursor_t: i.pointer_t, ..self }
        } else {
            self
        }
    }

    /// A secondary click pins the cursor, another one releases it.
    pub open spec fn with_pin(self, i: ChartInput) -> ChartState {
        match i.pin_click_t {
            Some(t) => ChartState {
                locked_cursor_t: if self.locked_cursor_t is Some {
                    None
                } else {
                    Some(t)
                },
                ..self
            },
            None => self,
        }
    }

    /// Zooming along the time axis stops following the end of the data.
    pub open spec fn with_scroll(self, i: ChartInput) -> ChartState {
        if i.hovered && i.scrolled && !i.value_key {
            ChartState { auto_follow_x: false, ..self }
        } else {
            self
        }
    }

    /// Dragging picks a range with the key, from where it started; without the key it
    /// moves the view.
    pub open spec fn with_drag(self, i: ChartInput) -> ChartState {
        if !i.dragged {
            self
        } else if i.shift {
            if self.selecting {
                ChartState { selection: Some(i.range_from_anchor), ..self }
            } else {
                ChartState {
                    selecting: true,
                    sel_anchor: i.press_t,
                    selection: Some(i.range_from_press),
                    ..self
                }
            }
        } else if i.drag_moves_x {
            ChartState { auto_follow_x: false, ..self }
        } else {
            self
        }
    }

    /// What ends a gesture: letting go ends picking, a double click shows everything
    /// and releases the cursor, a click with the key or Escape drops the range.
    pub open spec fn with_end(self, i: ChartInput) -> ChartState {
        let a = if i.drag_stopped {
            ChartState { selecting: false, ..self }
        } else {
            self
        };
        let b = if i.double_clicked {
            ChartState { locked_cursor_t: None, ..a.fitted() }
        } else {
            a
        };
        if (i.clicked && i.shift) || i.escape {
            ChartState { selection: None, ..b }
        } else {
            b
        }
    }

    /// The chart after the input of one frame.
    pub open spec fn after(self, i: ChartInput) -> ChartState {
        self.with_pointer(i).with_pin(i).with_scroll(i).with_drag(i).with_end(i)
    }

    /// What the input does to the axes.
    pub open spec fn moves(i: ChartInput) -> ChartMoves {
        let wheel = i.hovered && i.scrolled;
        let pan = i.dragged && !i.shift;
        ChartMoves {
            zoom_x: wheel && !i.value_key,
            zoom_y: if wheel && i.value_key {
                i.lane
            } else {
                None
            },
            pan_x: pan,
            pan_y: if pan && i.drag_moves_y {
                i.lane
            } else {
                None
            },
            fit_all: i.double_clicked,
        }
    }

    /// Handles the input of one frame.
    pub fn handle_input(&mut self, i: ChartInput) -> (m: ChartMoves)
        ensures
            *final(self) == old(self).after(i),
            m == Self::moves(i),
    {
        let mut m = ChartMoves {
            zoom_x: false,
            zoom_y: None,
            pan_x: false,
            pan_y: None,
            fit_all: false,
        };
        if i.hovered && i.pointer_t.is_some() {
            self.cursor_t = i.pointer_t;
        }
        if let Some(t) = i.pin_click_t {
            self.locked_cursor_t = if self.locked_cursor_t.is_some() {
                None
            } else {
                Some(t)
            };
        }
        if i.hovered && i.scrolled {
            if i.value_key {
                m.zoom_y = i.lane;
            } else {
                m.zoom_x = true;
                self.auto_follow_x = false;
            }
        }
        if i.dragged {
            if i.shift {
                if self.selecting {
                    self.selection = Some(i.range_from_anchor);
                } else {
                    self.selecting = true;
                    self.sel_anchor = i.press_t;
                    self.selection = Some(i.range_from_press);
                }
            } else {
                m.pan_x = true;
                if i.drag_moves_x {
                    self.auto_follow_x = false;
                }
                if i.drag_moves_y {
                    m.pan_y = i.lane;
                }
            }
        }
        if i.drag_stopped {
            self.selecting = false;
        }
        if i.double_clicked {
            m.fit_all = true;
            self.auto_follow_x = true;
            self.locked_cursor_t = None;
        }
        if self.selection.is_some() {
            if (i.clicked && i.shift) || i.escape {
                self.selection = None;
            }
        }
        m
    }
}

/// Pinning the cursor twice in a row leaves it as it was.
pub proof fn law_pin_toggles(c: ChartState, i: ChartInput, t: u64)
    requires
        c.locked_cursor_t is None,
        i.pin_click_t == Some(t),
    ensures
        c.with_pin(i).locked_cursor_t == Some(t),
        c.with_pin(i).with_pin(i) == c,
{
}

/// A frame without input changes nothing.
pub proof fn law_nothing_moves_by_itself(c: ChartState, i: ChartInput)
    requires
        !i.hovered,
        i.pin_click_t is None,
        !i.dragged,
        !i.drag_stopped,
        !i.double_clicked,
        !i.clicked,
        !i.escape,
    ensures
        c.after(i) == c,
        !ChartState::moves(i).zoom_x && !ChartState::moves(i).pan_x && !ChartState::moves(i).fit_all,
        ChartState::moves(i).zoom_y is None && ChartState::moves(i).pan_y is None,
{
}

/// The view follows the end of the data until the user zooms or moves along the time axis, and
/// again once everything is shown.
pub proof fn law_following_the_end(c: ChartState, i: ChartInput)
    ensures
        i.double_clicked ==> c.after(i).auto_follow_x && ChartState::moves(i).fit_all,
        !i.double_clicked && ChartState::moves(i).zoom_x ==> !c.after(i).auto_follow_x,
        !i.double_clicked && ChartState::moves(i).pan_x && i.drag_moves_x ==> !c.after(
            i,
        ).auto_follow_x,
        c.auto_follow_x && !c.after(i).auto_follow_x ==> ChartState::moves(i).zoom_x || (
        ChartState::moves(i).pan_x && i.drag_moves_x),
        !c.auto_follow_x && c.after(i).auto_follow_x ==> i.double_clicked,
{
}

/// The cursor follows the pointer over the plot and stays where the pointer left it; it is
/// pinned and released by a secondary click, and released by a double click.
pub proof fn law_cursor_follows_the_pointer(c: ChartState, i: ChartInput)
    ensures
        c.after(i).cursor_t == if i.hovered && i.pointer_t is Some {
            i.pointer_t
        } else {
            c.cursor_t
        },
        i.double_clicked ==> c.after(i).locked_cursor_t is None,
        !i.double_clicked && i.pin_click_t is None ==> c.after(i).locked_cursor_t
            == c.locked_cursor_t,
        !i.double_clicked && i.pin_click_t is Some ==> {
            &&& c.locked_cursor_t is Some ==> c.after(i).locked_cursor_t is None
            &&& c.locked_cursor_t is None ==> c.after(i).locked_cursor_t == i.pin_click_t
        },
{
}

/// A range is picked only by dragging with the key, and dropped only by Escape or a click with
/// the key; picking ends when the user lets go.
pub proof fn law_range_is_picked_and_dropped(c: ChartState, i: ChartInput)
    ensures
        i.escape || i.clicked && i.shift ==> c.after(i).selection is None,
        !i.escape && !(i.clicked && i.shift) ==> c.after(i).selection == if i.dragged && i.shift {
            Some(
                if c.selecting {
                    i.range_from_anchor
                } else {
                    i.range_from_press
                },
            )
        } else {
            c.selection
        },
        c.after(i).selecting <==> !i.drag_stopped && (c.selecting || i.dragged && i.shift),
        c.after(i).sel_anchor == if i.dragged && i.shift && !c.selecting {
            i.press_t
        } else {
            c.sel_anchor
        },
{
}

/// The wheel zooms one axis at a time, and only over the chart; dragging moves the view only
/// without the key that picks a range.
pub proof fn law_axes_move_one_at_a_time(i: ChartInput)
    ensures
        ({
            let m = ChartState::moves(i);
            &&& m.zoom_x ==> m.zoom_y is None
            &&& m.zoom_x || m.zoom_y is Some ==> i.hovered && i.scrolled
            &&& i.hovered && i.scrolled && !i.value_key ==> m.zoom_x
            &&& i.hovered && i.scrolled && i.value_key ==> m.zoom_y == i.lane
            &&& m.pan_x <==> i.dragged && !i.shift
            &&& m.pan_y is Some ==> m.pan_x && i.drag_moves_y && m.pan_y == i.lane
            &&& m.pan_x && i.drag_moves_y ==> m.pan_y == i.lane
            &&& m.fit_all <==> i.double_clicked
        }),
{
}

/// A gesture that picks a range keeps the place where it started until the user lets
/// go.
pub proof fn law_anchor_stays(c: ChartState, i: ChartInput)
    requires
        c.selecting,
        i.dragged,
        i.shift,
        !i.drag_stopped,
    ensures
        c.after(i).selecting,
        c.after(i).sel_anchor == c.sel_anchor,
{
}

// ---------------------------------------------------------------------------
// Lanes
// ---------------------------------------------------------------------------

/// How many value axes the lanes need: one more than the greatest number among them.
pub open spec fn axes_needed(numbers: Seq<usize>) -> nat
    decreases numbers.len(),
{
    if numbers.len() == 0 {
        1
    } else {
        let n = axes_needed(numbers.drop_last());
        if numbers.last() + 1 > n {
            (numbers.last() + 1) as nat
        } else {
            n
        }
    }
}

/// There are axes enough for every lane and not one more than that, but always one.
pub proof fn law_axes_are_just_enough(numbers: Seq<usize>)
    ensures
        axes_needed(numbers) >= 1,
        forall|i: int| 0 <= i < numbers.len() ==> (#[trigger] numbers[i]) < axes_needed(numbers),
        axes_needed(numbers) == 1 || exists|i: int|
            0 <= i < numbers.len() && (#[trigger] numbers[i]) + 1 == axes_needed(numbers),
    decreases numbers.len(),
{
    if numbers.len() > 0 {
        let front = numbers.drop_last();
        law_axes_are_just_enough(front);
        assert(numbers[numbers.len() - 1] == numbers.last());
        assert forall|i: int| 0 <= i < numbers.len() implies (#[trigger] numbers[i]) < axes_needed(
            numbers,
        ) by {
            if i < front.len() {
                assert(front[i] == numbers[i]);
            }
        }
        if axes_needed(front) != 1 && axes_needed(numbers) == axes_needed(front) {
            let i = choose|i: int|
                0 <= i < front.len() && (#[trigger] front[i]) + 1 == axes_needed(front);
            assert(numbers[i] == front[i]);
        }
    }
}

/// How many value axes the lanes need.
pub fn count_axes(numbers: &Vec<usize>) -> (r: usize)
    requires
        forall|i: int| 0 <= i < numbers@.len() ==> #[trigger] numbers@[i] < usize::MAX,
    ensures
        r == axes_needed(numbers@),
        forall|i: int| 0 <= i < numbers@.len() ==> #[trigger] numbers@[i] < r,
{
    let mut n: usize = 1;
    for i in 0..numbers.len()
        invariant
            forall|j: int| 0 <= j < numbers@.len() ==> #[trigger] numbers@[j] < usize::MAX,
            n == axes_needed(numbers@.take(i as int)),
            forall|j: int| 0 <= j < i ==> #[trigger] numbers@[j] < n,
    {
        assert(numbers@.take(i + 1).drop_last() =~= numbers@.take(i as int));
        if numbers[i] + 1 > n {
            n = numbers[i] + 1;
        }
    }
    assert(numbers@.take(numbers@.len() as int) =~= numbers@);
    n
}

/// The places of the lanes that are shown.
pub open spec fn shown(visible: Seq<bool>) -> Seq<usize>
    decreases visible.len(),
{
    if visible.len() == 0 {
        seq![]
    } else {
        let before = shown(visible.drop_last());
        if visible.last() {
            before.push((visible.len() - 1) as usize)
        } else {
            before
        }
    }
}

/// Just the visible lanes are shown, each once and in order.
pub proof fn law_visible_lanes_are_shown(visible: Seq<bool>, lane: usize)
    requires
        visible.len() <= usize::MAX,
    ensures
        shown(visible).contains(lane) <==> lane < visible.len() && visible[lane as int],
        forall|k: int|
            #![trigger shown(visible)[k]]
            0 <= k < shown(visible).len() ==> shown(visible)[k] < visible.len(),
        forall|k: int, l: int|
            #![trigger shown(visible)[k], shown(visible)[l]]
            0 <= k < l < shown(visible).len() ==> shown(visible)[k] < shown(visible)[l],
    decreases visible.len(),
{
    if visible.len() > 0 {
        let front = visible.drop_last();
        law_visible_lanes_are_shown(front, lane);
        let before = shown(front);
        let all = shown(visible);
        assert(forall|k: int| 0 <= k < before.len() ==> #[trigger] all[k] == before[k]);
        if before.contains(lane) {
            let k = choose|k: int| 0 <= k < before.len() && before[k] == lane;
            assert(all[k] == lane);
        }
        if all.contains(lane) && !before.contains(lane) {
            let k = choose|k: int| 0 <= k < all.len() && all[k] == lane;
            assert(k == before.len());
        }
        if visible.last() && lane == visible.len() - 1 {
            assert(all[before.len() as int] == lane);
        }
    }
}

/// The lanes that are shown.
pub fn visible_lanes(visible: &[bool]) -> (r: Vec<usize>)
    ensures
        r@ == shown(visible@),
{
    let mut out: Vec<usize> = Vec::new();
    for i in 0..visible.len()
        invariant
            out@ == shown(visible@.take(i as int)),
    {
        assert(visible@.take(i + 1).drop_last() =~= visible@.take(i as int));
        if visible[i] {
            out.push(i);
        }
    }
    assert(visible@.take(visible@.len() as int) =~= visible@);
    out
}

/// How many points are drawn as one, so that at most two such groups and a
/// remainder fall on a pixel; `None` if there is nothing to draw on.
pub fn points_per_group(points: usize, pixels: usize) -> (r: Option<usize>)
    requires
        pixels <= usize::MAX / 2,
    ensures
        r is None <==> pixels == 0,
        r matches Some(step) ==> step == if points as int / (2 * pixels) >= 1 {
            points as int / (2 * pixels)
        } else {
            1
        },
        r matches Some(step) ==> step >= 1 && (step == 1 || step * (2 * pixels) <= points)
            && points < (step + 1) * (2 * pixels),
{
    if pixels == 0 {
        return None;
    }
    let step: usize = points / (pixels * 2);
    assert(step * (2 * pixels) <= points && points < (step + 1) * (2 * pixels)) by (nonlinear_arith)
        requires
            pixels > 0,
            step == points as int / (2 * pixels),
    ;
    assert(2 * pixels <= 2 * (2 * pixels));
    if step >= 1 {
        Some(step)
    } else {
        Some(1)
    }
}

/// Whether a channel is drawn: mode 0 or 1 is that channel alone, mode 2 is both.
pub fn channel_shown(mode: usize, channel: usize) -> (r: bool)
    ensures
        r == (mode == channel || mode == 2),
{
    mode == channel || mode == 2
}

} // verus!
