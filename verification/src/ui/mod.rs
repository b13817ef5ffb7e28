pub mod debug;
pub mod renderer;
pub mod widget;

use vstd::prelude::*;

use crate::render::RenderContext;
use crate::ui::debug::UIDebugFlag;
use crate::ui::renderer::{lemma_can_push_split, lemma_push_quads_append, quad_in_range, Quad};
use crate::ui::widget::{
    can_draw,
    capped,
    drawn,
    lemma_capped_add,
    lemma_node_quads_in_range,
    Node,
    Widget,
};

verus! {

/// The state of a UI root: its widgets, bottom first, the widget under the
/// pointer, the widget that took the last press, and the debug switches.
pub struct UIRootView<W> {
    pub widgets: Seq<W>,
    pub hovered: Option<usize>,
    pub active: Option<usize>,
    pub debug_flags: UIDebugFlag,
}

/// Whether `i`, when present, indexes a widget of `ws`.
pub open spec fn index_ok<W>(ws: Seq<W>, i: Option<usize>) -> bool {
    i matches Some(k) ==> k < ws.len()
}

/// Whether the scan for the topmost of the first `n` widgets of `ws` that
/// (`px`, `py`) hits can run: going down from widget `n - 1`, each widget tested
/// can be hit-tested, and the scan stops at the first hit.
pub open spec fn move_scan_ok<W: Widget>(ws: Seq<W>, px: int, py: int, n: int) -> bool
    decreases n,
{
    n <= 0 || (ws[n - 1].hit_ok(px, py) && (ws[n - 1].hit_spec(px, py) || move_scan_ok(
        ws,
        px,
        py,
        n - 1,
    )))
}

/// Whether offering a press at (`px`, `py`) to the first `k` widgets of `ws`
/// can run: going down from widget `k - 1`, each widget tested can be
/// hit-tested, and the offer stops at the first hit widget that takes it.
pub open spec fn press_scan_ok<W: Widget>(ws: Seq<W>, px: int, py: int, k: int) -> bool
    decreases k,
{
    k <= 0 || (ws[k - 1].hit_ok(px, py) && if ws[k - 1].hit_spec(px, py) {
        let (w, took) = ws[k - 1].down_spec(px, py);
        took || press_scan_ok(ws.update(k - 1, w), px, py, k - 1)
    } else {
        press_scan_ok(ws, px, py, k - 1)
    })
}

/// The topmost of the first `n` widgets of `ws` that the point hits.
pub open spec fn topmost_hit<W: Widget>(ws: Seq<W>, px: int, py: int, n: int) -> Option<usize>
    decreases n,
{
    if n <= 0 {
        None
    } else if ws[n - 1].hit_spec(px, py) {
        Some((n - 1) as usize)
    } else {
        topmost_hit(ws, px, py, n - 1)
    }
}

/// The topmost hit among the first `n` widgets is one of them.
pub proof fn lemma_topmost_hit_bound<W: Widget>(ws: Seq<W>, px: int, py: int, n: int)
    requires
        n <= ws.len(),
        ws.len() <= usize::MAX,
    ensures
        topmost_hit(ws, px, py, n) matches Some(k) ==> k < n && ws[k as int].hit_spec(px, py) && forall|
            j: int,
        | k < j < n ==> !#[trigger] ws[j].hit_spec(px, py),
        topmost_hit(ws, px, py, n) is None ==> forall|j: int|
            0 <= j < n ==> !#[trigger] ws[j].hit_spec(px, py),
    decreases n,
{
    if n > 0 {
        lemma_topmost_hit_bound(ws, px, py, n - 1);
    }
}

/// Pointer events leave the widgets of this library as they are: entering or
/// leaving one changes nothing, and none of them takes a press.
pub proof fn lemma_builtin_widgets_are_passive(
    ws: Seq<crate::ui::widget::Node>,
    from: Option<usize>,
    to: Option<usize>,
    px: int,
    py: int,
    k: int,
)
    requires
        index_ok(ws, from),
        index_ok(ws, to),
        0 <= k <= ws.len(),
    ensures
        hover_moved(ws, from, to) == ws,
        press_scan(ws, px, py, k) == (ws, None::<usize>),
    decreases k,
{
    if k > 0 {
        lemma_builtin_widgets_are_passive(ws, from, to, px, py, k - 1);
        assert(ws.update(k - 1, ws[k - 1]) =~= ws);
    }
    match from {
        Some(o) => {
            assert(ws.update(o as int, ws[o as int]) =~= ws);
        },
        None => {},
    }
    match to {
        Some(n) => {
            assert(ws.update(n as int, ws[n as int]) =~= ws);
        },
        None => {},
    }
}

/// The widgets after the hover moved from `from` to `to`: the one left is told
/// first, then the one entered; nothing happens when the hover stays.
pub open spec fn hover_moved<W: Widget>(ws: Seq<W>, from: Option<usize>, to: Option<usize>) -> Seq<W> {
    if from == to {
        ws
    } else {
        let ws1 = match from {
            Some(o) => ws.update(o as int, ws[o as int].left()),
            None => ws,
        };
        match to {
            Some(n) => ws1.update(n as int, ws1[n as int].entered()),
            None => ws1,
        }
    }
}

/// Offers a press at (`px`, `py`) to the first `k` widgets, topmost first, each
/// one the point hits; gives the widgets afterwards and the one that took it.
pub open spec fn press_scan<W: Widget>(ws: Seq<W>, px: int, py: int, k: int) -> (Seq<W>, Option<usize>)
    decreases k,
{
    if k <= 0 {
        (ws, None)
    } else if ws[k - 1].hit_spec(px, py) {
        let (w, took) = ws[k - 1].down_spec(px, py);
        let ws1 = ws.update(k - 1, w);
        if took {
            (ws1, Some((k - 1) as usize))
        } else {
            press_scan(ws1, px, py, k - 1)
        }
    } else {
        press_scan(ws, px, py, k - 1)
    }
}

/// When the hover moves, the widget left is told it was left and the widget
/// entered is told it was entered; every other widget is unchanged, and when
/// the hover stays on the same widget (or on none) nothing changes.
pub proof fn lemma_hover_moved_effect<W: Widget>(ws: Seq<W>, from: Option<usize>, to: Option<usize>)
    requires
        index_ok(ws, from),
        index_ok(ws, to),
    ensures
        hover_moved(ws, from, to).len() == ws.len(),
        from == to ==> hover_moved(ws, from, to) == ws,
        from != to ==> forall|j: int|
            0 <= j < ws.len() ==> #[trigger] hover_moved(ws, from, to)[j] == if to matches Some(t)
                && t == j {
                ws[j].entered()
            } else if from matches Some(f) && f == j {
                ws[j].left()
            } else {
                ws[j]
            },
{
    if from != to {
        let ws1 = match from {
            Some(o) => ws.update(o as int, ws[o as int].left()),
            None => ws,
        };
        assert forall|j: int| 0 <= j < ws.len() implies ws1[j] == if from matches Some(f) && f == j {
            ws[j].left()
        } else {
            ws[j]
        } by {}
    }
}

/// A press reaches only widgets that the point hits, topmost first. Each hit
/// widget above the one that takes it is offered the press and declines; the
/// topmost hit widget that takes it is the one returned; when none is
/// returned, every hit widget declined. Widgets not hit, and widgets below the
/// one that takes it, are not touched.
pub proof fn lemma_press_scan_effect<W: Widget>(ws: Seq<W>, px: int, py: int, n: int)
    requires
        0 <= n <= ws.len(),
        ws.len() <= usize::MAX,
    ensures
        ({
            let (ws2, took) = press_scan(ws, px, py, n);
            &&& ws2.len() == ws.len()
            &&& forall|j: int|
                0 <= j < ws.len() && (j >= n || !ws[j].hit_spec(px, py)) ==> #[trigger] ws2[j] == ws[j]
            &&& (took matches Some(k) ==> {
                &&& 0 <= k < n
                &&& ws[k as int].hit_spec(px, py)
                &&& ws[k as int].down_spec(px, py).1
                &&& ws2[k as int] == ws[k as int].down_spec(px, py).0
                &&& forall|j: int| 0 <= j < k ==> #[trigger] ws2[j] == ws[j]
                &&& forall|j: int|
                    k < j < n && ws[j].hit_spec(px, py) ==> !(#[trigger] ws[j].down_spec(px, py)).1
                        && ws2[j] == ws[j].down_spec(px, py).0
            })
            &&& (took is None ==> forall|j: int|
                0 <= j < n && ws[j].hit_spec(px, py) ==> !(#[trigger] ws[j].down_spec(px, py)).1
                    && ws2[j] == ws[j].down_spec(px, py).0)
        }),
    decreases n,
{
    if n > 0 {
        let i = n - 1;
        if ws[i].hit_spec(px, py) {
            let (w, t) = ws[i].down_spec(px, py);
            let ws1 = ws.update(i, w);
            assert forall|j: int| 0 <= j < ws.len() && j != i implies #[trigger] ws1[j] == ws[j] by {}
            if !t {
                lemma_press_scan_effect(ws1, px, py, i);
                let (ws2, took) = press_scan(ws1, px, py, i);
                assert(press_scan(ws, px, py, n) == (ws2, took));
                assert(ws2[i] == ws1[i]);
                if let Some(k) = took {
                    assert(ws1[k as int] == ws[k as int]);
                    assert forall|j: int|
                        k < j < n && ws[j].hit_spec(px, py) implies !(#[trigger] ws[j].down_spec(
                        px,
                        py,
                    )).1 && ws2[j] == ws[j].down_spec(px, py).0 by {
                        if j < i {
                            assert(ws1[j] == ws[j]);
                        }
                    }
                } else {
                    assert forall|j: int|
                        0 <= j < n && ws[j].hit_spec(px, py) implies !(#[trigger] ws[j].down_spec(
                        px,
                        py,
                    )).1 && ws2[j] == ws[j].down_spec(px, py).0 by {
                        if j < i {
                            assert(ws1[j] == ws[j]);
                        }
                    }
                }
            }
            if t {
                assert(press_scan(ws, px, py, n) == (ws1, Some(i as usize)));
                assert(ws1[i] == w);
            }
        } else {
            lemma_press_scan_effect(ws, px, py, i);
            assert(press_scan(ws, px, py, n) == press_scan(ws, px, py, i));
        }
    }
}

/// What drawing the widgets `ws` in order appends.
pub open spec fn widgets_quads<W: Widget>(ws: Seq<W>) -> Seq<Quad>
    decreases ws.len(),
{
    if ws.len() == 0 {
        Seq::empty()
    } else {
        widgets_quads(ws.drop_last()) + ws.last().draw_quads()
    }
}

/// What drawing widgets `j` to the last of `ws` appends.
pub open spec fn widgets_quads_from<W: Widget>(ws: Seq<W>, j: int) -> Seq<Quad>
    decreases ws.len() - j,
{
    if j >= ws.len() || j < 0 {
        Seq::empty()
    } else {
        ws[j].draw_quads() + widgets_quads_from(ws, j + 1)
    }
}

proof fn lemma_widgets_quads_suffix<W: Widget>(ws: Seq<W>, j: int)
    requires
        0 <= j <= ws.len(),
    ensures
        widgets_quads(ws) == widgets_quads(ws.take(j)) + widgets_quads_from(ws, j),
    decreases ws.len() - j,
{
    if j == ws.len() {
        assert(ws.take(j) =~= ws);
        assert(widgets_quads(ws) + Seq::<Quad>::empty() =~= widgets_quads(ws));
    } else {
        lemma_widgets_quads_suffix(ws, j + 1);
        assert(ws.take(j + 1).drop_last() =~= ws.take(j));
        assert(ws.take(j + 1).last() == ws[j]);
        assert(widgets_quads(ws.take(j)) + ws[j].draw_quads() + widgets_quads_from(ws, j + 1)
            =~= widgets_quads(ws.take(j)) + (ws[j].draw_quads() + widgets_quads_from(ws, j + 1)));
    }
}

/// Every rectangle that drawing the nodes `ws` appends is within the range
/// that `fill_rect` takes.
pub proof fn lemma_widgets_quads_in_range(ws: Seq<Node>)
    ensures
        forall|i: int|
            0 <= i < widgets_quads(ws).len() ==> quad_in_range(#[trigger] widgets_quads(ws)[i]),
    decreases ws.len(),
{
    if ws.len() > 0 {
        lemma_widgets_quads_in_range(ws.drop_last());
        lemma_node_quads_in_range(ws.last());
        let a = widgets_quads(ws.drop_last());
        let b = ws.last().draw_quads();
        assert forall|i: int| 0 <= i < (a + b).len() implies quad_in_range(#[trigger] (a + b)[i]) by {
            if i < a.len() {
                assert((a + b)[i] == a[i]);
            } else {
                assert((a + b)[i] == b[i - a.len()]);
            }
        }
    }
}

/// The root of a user interface: a flat list of widgets, drawn bottom to top,
/// that receives the pointer events and hands them to the widget concerned.
pub struct UIRoot<W> {
    widgets: Vec<W>,
    hovered: Option<usize>,
    active: Option<usize>,
    debug_flags: UIDebugFlag,
}

impl<W> View for UIRoot<W> {
    type V = UIRootView<W>;

    closed spec fn view(&self) -> UIRootView<W> {
        UIRootView {
            widgets: self.widgets@,
            hovered: self.hovered,
            active: self.active,
            debug_flags: self.debug_flags,
        }
    }
}

impl<W: Widget> UIRoot<W> {
    /// The hovered and active widgets, when present, exist.
    pub open spec fn wf(&self) -> bool {
        index_ok(self@.widgets, self@.hovered) && index_ok(self@.widgets, self@.active)
    }

    /// A root without widgets, hover, press or debug switch.
    pub fn new() -> (r: Self)
        ensures
            r.wf(),
            r@.widgets == Seq::<W>::empty(),
            r@.hovered is None,
            r@.active is None,
            r@.debug_flags == UIDebugFlag(0),
    {
        Self { widgets: Vec::new(), hovered: None, active: None, debug_flags: UIDebugFlag::none() }
    }

    /// Sets the debug switches.
    pub fn set_debug(&mut self, flags: UIDebugFlag)
        ensures
            final(self)@ == (UIRootView { debug_flags: flags, ..old(self)@ }),
    {
        self.debug_flags = flags;
    }

    /// Adds `widget` on top of the others.
    pub fn add(&mut self, widget: W)
        requires
            old(self).wf(),
        ensures
            final(self).wf(),
            final(self)@ == (UIRootView { widgets: old(self)@.widgets.push(widget), ..old(self)@ }),
    {
        self.widgets.push(widget);
    }

    /// Draws every widget, bottom first.
    pub fn draw(&self, renderer: &mut RenderContext)
        requires
            can_draw(*old(renderer), widgets_quads(self@.widgets)),
        ensures
            drawn(*old(renderer), *final(renderer), widgets_quads(self@.widgets)),
    {
        let n = self.widgets.len();
        let ghost ws = self.widgets@;
        let ghost r0 = *renderer;
        proof {
            assert(ws.take(0) =~= Seq::<W>::empty());
        }
        for i in 0..n
            invariant
                n == ws.len(),
                ws == self.widgets@,
                can_draw(r0, widgets_quads(ws)),
                drawn(r0, *renderer, widgets_quads(ws.take(i as int))),
        {
            let ghost r1 = *renderer;
            let ghost done = widgets_quads(ws.take(i as int));
            let ghost q = ws[i as int].draw_quads();
            let ghost rest = widgets_quads_from(ws, i + 1);
            proof {
                lemma_widgets_quads_suffix(ws, i as int);
                assert(widgets_quads(ws) =~= done + (q + rest));
                lemma_can_push_split(r0.ui@, done, q + rest);
                lemma_can_push_split(r1.ui@, q, rest);
            }
            self.widgets[i].draw(renderer);
            proof {
                lemma_push_quads_append(r0.ui@, done, q);
                assert(ws.take(i + 1).drop_last() =~= ws.take(i as int));
                assert(ws.take(i + 1).last() == ws[i as int]);
            }
        }
        proof {
            assert(ws.take(n as int) =~= ws);
        }
    }

    /// Moves the pointer to (`px`, `py`): finds the topmost widget under it and,
    /// when that changes, tells the widget left and then the widget entered.
    /// Returns the widget now under the pointer.
    pub fn handle_mouse_move(&mut self, px: i32, py: i32) -> (r: Option<usize>)
        requires
            old(self).wf(),
            move_scan_ok(old(self)@.widgets, px as int, py as int, old(self)@.widgets.len() as int),
        ensures
            final(self).wf(),
            r == topmost_hit(old(self)@.widgets, px as int, py as int, old(self)@.widgets.len() as int),
            final(self)@ == (UIRootView {
                widgets: hover_moved(old(self)@.widgets, old(self)@.hovered, r),
                hovered: r,
                ..old(self)@
            }),
    {
        let ghost ws = self.widgets@;
        let mut new_hovered: Option<usize> = None;
        let mut i = self.widgets.len();
        while i > 0
            invariant_except_break
                ws == self.widgets@,
                i <= ws.len(),
                move_scan_ok(ws, px as int, py as int, i as int),
                topmost_hit(ws, px as int, py as int, ws.len() as int) == topmost_hit(
                    ws,
                    px as int,
                    py as int,
                    i as int,
                ),
                new_hovered is None,
            ensures
                ws == self.widgets@,
                new_hovered == topmost_hit(ws, px as int, py as int, ws.len() as int),
            decreases i,
        {
            i = i - 1;
            if self.widgets[i].hit_test(px, py) {
                new_hovered = Some(i);
                break;
            }
        }

        proof {
            lemma_topmost_hit_bound(ws, px as int, py as int, ws.len() as int);
        }
        if new_hovered != self.hovered {
            if let Some(old) = self.hovered {
                self.widgets[old].on_mouse_leave();
            }
            if let Some(new) = new_hovered {
                self.widgets[new].on_mouse_enter();
            }
            self.hovered = new_hovered;
        }
        new_hovered
    }

    /// A mouse press at (`px`, `py`): offers it to each widget under the
    /// pointer, topmost first, until one takes it; that one becomes active.
    /// Returns whether one took it.
    pub fn handle_mouse_down(&mut self, px: i32, py: i32) -> (r: bool)
        requires
            old(self).wf(),
            press_scan_ok(old(self)@.widgets, px as int, py as int, old(self)@.widgets.len() as int),
        ensures
            final(self).wf(),
            ({
                let (ws, took) = press_scan(
                    old(self)@.widgets,
                    px as int,
                    py as int,
                    old(self)@.widgets.len() as int,
                );
                &&& r == took is Some
                &&& final(self)@ == (UIRootView {
                    widgets: ws,
                    active: if took is Some {
                        took
                    } else {
                        old(self)@.active
                    },
                    ..old(self)@
                })
            }),
    {
        let ghost ws0 = self.widgets@;
        let ghost n0 = ws0.len() as int;
        let mut i = self.widgets.len();
        while i > 0
            invariant
                ws0 == old(self)@.widgets,
                n0 == ws0.len(),
                self.widgets@.len() == ws0.len(),
                i <= ws0.len(),
                self.wf(),
                self@ == (UIRootView { widgets: self.widgets@, ..old(self)@ }),
                forall|j: int| 0 <= j < i ==> self.widgets@[j] == ws0[j],
                press_scan_ok(self.widgets@, px as int, py as int, i as int),
                press_scan(ws0, px as int, py as int, n0) == press_scan(
                    self.widgets@,
                    px as int,
                    py as int,
                    i as int,
                ),
            decreases i,
        {
            i = i - 1;
            let ghost before = self.widgets@;
            proof {
                assert(self.widgets@[i as int] == ws0[i as int]);
            }
            if self.widgets[i].hit_test(px, py) {
                let took = self.widgets[i].on_mouse_down(px, py);
                proof {
                    let (w, t) = before[i as int].down_spec(px as int, py as int);
                    assert(self.widgets@ == before.update(i as int, w));
                    assert(took == t);
                }
                if took {
                    self.active = Some(i);
                    proof {
                        assert(before[i as int].hit_spec(px as int, py as int));
                        assert(press_scan(before, px as int, py as int, i + 1) == (
                            self.widgets@,
                            Some(i),
                        ));
                    }
                    return true;
                }
                proof {
                    assert forall|j: int| 0 <= j < i implies self.widgets@[j] == ws0[j] by {
                        assert(self.widgets@[j] == before[j]);
                    }
                }
            }
        }
        false
    }

    /// A mouse release at (`px`, `py`): goes to the active widget if there is
    /// one (and then counts as taken), else to the hovered widget, whose answer
    /// is returned. The active widget is cleared either way.
    pub fn handle_mouse_up(&mut self, px: i32, py: i32) -> (r: bool)
        requires
            old(self).wf(),
        ensures
            final(self).wf(),
            match old(self)@.active {
                Some(a) => {
                    &&& r
                    &&& final(self)@ == (UIRootView {
                        widgets: old(self)@.widgets.update(
                            a as int,
                            old(self)@.widgets[a as int].up_spec(px as int, py as int).0,
                        ),
                        active: None,
                        ..old(self)@
                    })
                },
                None => match old(self)@.hovered {
                    Some(h) => {
                        let (w, took) = old(self)@.widgets[h as int].up_spec(px as int, py as int);
                        &&& r == took
                        &&& final(self)@ == (UIRootView {
                            widgets: old(self)@.widgets.update(h as int, w),
                            ..old(self)@
                        })
                    },
                    None => !r && final(self)@ == old(self)@,
                },
            },
    {
        let active = self.active.take();
        if let Some(idx) = active {
            self.widgets[idx].on_mouse_up(px, py);
            return true;
        }
        if let Some(idx) = self.hovered {
            return self.widgets[idx].on_mouse_up(px, py);
        }
        false
    }

    /// The debug switches.
    pub fn debug_flags(&self) -> (r: UIDebugFlag)
        ensures
            r == self@.debug_flags,
    {
        self.debug_flags
    }

    /// The widget under the pointer after the last move, if any.
    pub fn hovered(&self) -> (r: Option<usize>)
        ensures
            r == self@.hovered,
    {
        self.hovered
    }

    /// The widget that took the last press, until the next release.
    pub fn active(&self) -> (r: Option<usize>)
        ensures
            r == self@.active,
    {
        self.active
    }

    /// The number of widgets.
    pub fn len(&self) -> (r: usize)
        ensures
            r == self@.widgets.len(),
    {
        self.widgets.len()
    }

    /// Widget `i`, counted from the bottom.
    pub fn widget(&self, i: usize) -> (r: &W)
        requires
            i < self@.widgets.len(),
        ensures
            *r == self@.widgets[i as int],
    {
        &self.widgets[i]
    }
}

impl UIRoot<Node> {
    /// Whether `draw` can append every widget to `renderer`: each of the
    /// rectangles is in range, and the index count stays within `u32`.
    pub fn can_draw_into(&self, renderer: &RenderContext) -> (r: bool)
        requires
            renderer.wf(),
        ensures
            r == can_draw(*renderer, widgets_quads(self@.widgets)),
    {
        let n = self.widgets.len();
        let ghost ws = self.widgets@;
        let mut total: u64 = 0;
        proof {
            assert(ws.take(0) =~= Seq::<Node>::empty());
        }
        for i in 0..n
            invariant
                n == ws.len(),
                ws == self.widgets@,
                total == capped(widgets_quads(ws.take(i as int)).len() as int),
        {
            let k = self.widgets[i].quad_count();
            proof {
                assert(ws.take(i + 1).drop_last() =~= ws.take(i as int));
                assert(ws.take(i + 1).last() == ws[i as int]);
                lemma_capped_add(
                    widgets_quads(ws.take(i as int)).len() as int,
                    ws[i as int].node_quads().len() as int,
                );
            }
            total = total.saturating_add(k);
        }
        proof {
            assert(ws.take(n as int) =~= ws);
            lemma_widgets_quads_in_range(ws);
        }
        let used = renderer.ui.num_indices();
        let room = (0xFFFF_FFFFu32 - used) / 6;
        let r = total <= room as u64;
        proof {
            let len = widgets_quads(ws).len() as int;
            let u = used as int;
            assert(r <==> u + 6 * len <= u32::MAX) by (nonlinear_arith)
                requires
                    0 <= u <= u32::MAX,
                    len >= 0,
                    room as int == (u32::MAX - u) / 6,
                    total as int == (if len > u64::MAX {
                        u64::MAX as int
                    } else {
                        len
                    }),
                    r == (total as int <= room as int),
            ;
        }
        r
    }
}

} // verus!
