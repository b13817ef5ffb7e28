use vstd::prelude::*;

use crate::render::RenderContext;
use crate::ui::renderer::{lemma_can_push_split, lemma_push_quads_append, Quad};
use crate::ui::widget::{
    can_draw,
    capped,
    children_quads,
    debug_quads,
    drawn,
    lemma_capped_add,
    lemma_children_quads_in_range,
    Node,
    Rect,
    Widget,
};

verus! {

/// A vertical layout: the children are stacked top to bottom in the order they
/// were added, as wide as the box.
pub struct Vbox {
    widgets: Vec<Node>,
    bounds: Rect,
    visible: bool,
    debug: bool,
}

/// A horizontal layout (not implemented yet).
pub struct Hbox {}

/// Sum of the heights of the first `i` nodes of `c`.
pub open spec fn heights_before(c: Seq<Node>, i: int) -> int
    decreases i,
{
    if i <= 0 {
        0
    } else {
        heights_before(c, i - 1) + c[i - 1].view_bounds().h
    }
}

/// Whether stacking `c` from `y` keeps every running bottom edge within `i32`.
pub open spec fn stack_fits(c: Seq<Node>, y: int) -> bool {
    forall|i: int| 1 <= i <= c.len() ==> i32::MIN <= y + #[trigger] heights_before(c, i) <= i32::MAX
}

/// The bounds that layout gives child `i` of `c` in a box with bounds `b`: the
/// box's left edge and width, its own height, right below the children before it.
pub open spec fn stacked_bounds(c: Seq<Node>, b: Rect, i: int) -> Rect {
    Rect { x: b.x, y: (b.y + heights_before(c, i)) as i32, w: b.w, h: c[i].view_bounds().h }
}

/// The children `c` of a box with bounds `b` after layout.
pub open spec fn stacked(c: Seq<Node>, b: Rect) -> Seq<Node> {
    Seq::new(c.len(), |i: int| c[i].with_bounds(stacked_bounds(c, b, i)))
}

/// Layout keeps the number of children, places each right below the one before
/// it, at the box's left edge and with its width, and keeps each child's height.
pub proof fn lemma_stacked_children(c: Seq<Node>, b: Rect, i: int)
    requires
        stack_fits(c, b.y as int),
        0 <= i < c.len(),
    ensures
        stacked(c, b).len() == c.len(),
        stacked(c, b)[i].view_bounds() == stacked_bounds(c, b, i),
        stacked_bounds(c, b, i).h == c[i].view_bounds().h,
        i == 0 ==> stacked_bounds(c, b, i).y == b.y,
        i + 1 < c.len() ==> stacked_bounds(c, b, i).y + stacked_bounds(c, b, i).h == stacked_bounds(
            c,
            b,
            i + 1,
        ).y,
{
    c[i].lemma_with_bounds(stacked_bounds(c, b, i), stacked_bounds(c, b, i));
    if i > 0 {
        assert(i32::MIN <= b.y + heights_before(c, i) <= i32::MAX);
    }
    if i + 1 < c.len() {
        assert(i32::MIN <= b.y + heights_before(c, i + 1) <= i32::MAX);
    }
}

proof fn lemma_stacked_heights(c: Seq<Node>, b: Rect, i: int)
    requires
        0 <= i <= c.len(),
    ensures
        heights_before(stacked(c, b), i) == heights_before(c, i),
    decreases i,
{
    if i > 0 {
        lemma_stacked_heights(c, b, i - 1);
        c[i - 1].lemma_with_bounds(stacked_bounds(c, b, i - 1), stacked_bounds(c, b, i - 1));
    }
}

/// Laying out children that are already laid out changes nothing.
pub proof fn lemma_layout_idempotent(c: Seq<Node>, b: Rect)
    requires
        stack_fits(c, b.y as int),
    ensures
        stack_fits(stacked(c, b), b.y as int),
        stacked(stacked(c, b), b) == stacked(c, b),
{
    let s = stacked(c, b);
    assert forall|i: int| 1 <= i <= s.len() implies i32::MIN <= b.y + #[trigger] heights_before(s, i)
        <= i32::MAX by {
        lemma_stacked_heights(c, b, i);
    }
    assert forall|i: int| 0 <= i < s.len() implies #[trigger] stacked(s, b)[i] == s[i] by {
        lemma_stacked_heights(c, b, i);
        c[i].lemma_with_bounds(stacked_bounds(c, b, i), stacked_bounds(c, b, i));
        assert(stacked_bounds(s, b, i) == stacked_bounds(c, b, i));
    }
    assert(stacked(s, b) =~= s);
}

impl Vbox {
    /// The children, top to bottom.
    pub closed spec fn children(&self) -> Seq<Node> {
        self.widgets@
    }

    /// Whether the box is marked visible.
    pub closed spec fn is_visible(&self) -> bool {
        self.visible
    }

    /// Whether the box outlines its children when drawn.
    pub closed spec fn is_debug(&self) -> bool {
        self.debug
    }

    /// What drawing the box appends.
    pub closed spec fn vbox_quads(&self) -> Seq<Quad>
        decreases self,
    {
        children_quads(self.widgets@, self.debug)
    }

    /// Drawing the box draws its children, each followed by its outline in
    /// debug mode.
    pub proof fn lemma_vbox_quads_children(&self)
        ensures
            self.vbox_quads() == children_quads(self.children(), self.is_debug()),
    {
    }

    /// Drawing the box appends `vbox_quads`.
    pub proof fn lemma_draw_quads(&self)
        ensures
            self.draw_quads() == self.vbox_quads(),
    {
    }

    /// The children are smaller than the box, for proofs by induction.
    pub proof fn lemma_children_smaller(&self)
        ensures
            decreases_to!(*self => self.children()),
    {
        assert(decreases_to!(*self => self.widgets));
        assert(decreases_to!(self.widgets => self.widgets@));
    }

    /// The number of solid rectangles that drawing the box appends, capped at
    /// `u64::MAX`.
    pub fn quad_count(&self) -> (r: u64)
        ensures
            r == capped(self.vbox_quads().len() as int),
        decreases self,
    {
        let n = self.widgets.len();
        let ghost c = self.widgets@;
        let mut total: u64 = 0;
        proof {
            assert(c.take(0) =~= Seq::<Node>::empty());
        }
        for i in 0..n
            invariant
                n == c.len(),
                c == self.widgets@,
                total == capped(children_quads(c.take(i as int), self.debug).len() as int),
        {
            proof {
                assert(decreases_to!(*self => self.widgets));
                assert(decreases_to!(self.widgets => self.widgets@));
                assert(decreases_to!(*self => self.widgets@[i as int]));
                lemma_children_quads_step(c, self.debug, i as int);
            }
            let k = self.widgets[i].quad_count();
            let ghost done = children_quads(c.take(i as int), self.debug).len() as int;
            let ghost own = c[i as int].node_quads().len() as int;
            proof {
                lemma_capped_add(done, own);
            }
            total = total.saturating_add(k);
            if self.debug {
                proof {
                    lemma_capped_add(done + own, 4);
                }
                total = total.saturating_add(4);
            }
        }
        proof {
            assert(c.take(n as int) =~= c);
        }
        total
    }

    /// A visible box without children at (`x`, `y`) of size `w` x `h`.
    pub fn new(x: i32, y: i32, w: i32, h: i32) -> (r: Self)
        ensures
            r.children() == Seq::<Node>::empty(),
            r.view_bounds() == (Rect { x, y, w, h }),
            r.is_visible(),
            !r.is_debug(),
    {
        Self { widgets: Vec::new(), bounds: Rect::new(x, y, w, h), visible: true, debug: false }
    }

    /// Appends `widget` at the bottom and lays out the children again.
    pub fn add(&mut self, widget: Node)
        requires
            stack_fits(old(self).children().push(widget), old(self).view_bounds().y as int),
        ensures
            final(self).children() == stacked(
                old(self).children().push(widget),
                old(self).view_bounds(),
            ),
            final(self).view_bounds() == old(self).view_bounds(),
            final(self).is_visible() == old(self).is_visible(),
            final(self).is_debug() == old(self).is_debug(),
    {
        self.widgets.push(widget);
        self.layout();
    }
}

/// Drawing the first `i + 1` children appends what drawing the first `i`
/// appends, then child `i` and, in debug mode, its outline.
proof fn lemma_children_quads_step(c: Seq<Node>, debug: bool, i: int)
    requires
        0 <= i < c.len(),
    ensures
        children_quads(c.take(i + 1), debug) == children_quads(c.take(i), debug) + c[i].node_quads()
            + (if debug {
            debug_quads(c[i].view_bounds())
        } else {
            Seq::empty()
        }),
{
    assert(c.take(i + 1).drop_last() =~= c.take(i));
    assert(c.take(i + 1).last() == c[i]);
}

/// What drawing children `j` to the last of `c` appends, each followed by its
/// outline in debug mode.
pub open spec fn children_steps_from(c: Seq<Node>, debug: bool, j: int) -> Seq<Quad>
    decreases c.len() - j,
{
    if j >= c.len() || j < 0 {
        Seq::empty()
    } else {
        c[j].node_quads() + (if debug {
            debug_quads(c[j].view_bounds())
        } else {
            Seq::empty()
        }) + children_steps_from(c, debug, j + 1)
    }
}

/// Drawing all children appends what drawing the first `j` appends, then what
/// drawing the others appends.
proof fn lemma_children_quads_suffix(c: Seq<Node>, debug: bool, j: int)
    requires
        0 <= j <= c.len(),
    ensures
        children_quads(c, debug) == children_quads(c.take(j), debug) + children_steps_from(c, debug, j),
    decreases c.len() - j,
{
    if j == c.len() {
        assert(c.take(j) =~= c);
        assert(children_quads(c, debug) + Seq::<Quad>::empty() =~= children_quads(c, debug));
    } else {
        lemma_children_quads_suffix(c, debug, j + 1);
        lemma_children_quads_step(c, debug, j);
        let step = c[j].node_quads() + (if debug {
            debug_quads(c[j].view_bounds())
        } else {
            Seq::empty()
        });
        assert(children_quads(c.take(j), debug) + c[j].node_quads() + (if debug {
            debug_quads(c[j].view_bounds())
        } else {
            Seq::empty()
        }) + children_steps_from(c, debug, j + 1) =~= children_quads(c.take(j), debug) + (step
            + children_steps_from(c, debug, j + 1)));
    }
}

impl Widget for Vbox {
    closed spec fn view_bounds(&self) -> Rect {
        self.bounds
    }

    closed spec fn with_bounds(&self, r: Rect) -> Self {
        Vbox { bounds: r, ..*self }
    }

    closed spec fn with_visible(&self, visible: bool) -> Self {
        Vbox { visible, ..*self }
    }

    closed spec fn with_debug(&self, debug: bool) -> Self {
        Vbox { debug, ..*self }
    }

    closed spec fn hit_ok(&self, px: int, py: int) -> bool {
        self.bounds.contains_defined(px, py)
    }

    closed spec fn hit_spec(&self, px: int, py: int) -> bool {
        self.bounds.contains_point(px, py)
    }

    closed spec fn down_spec(&self, px: int, py: int) -> (Self, bool) {
        (*self, false)
    }

    closed spec fn up_spec(&self, px: int, py: int) -> (Self, bool) {
        (*self, false)
    }

    closed spec fn entered(&self) -> Self {
        *self
    }

    closed spec fn left(&self) -> Self {
        *self
    }

    closed spec fn draw_quads(&self) -> Seq<Quad> {
        self.vbox_quads()
    }

    closed spec fn can_layout(&self) -> bool {
        stack_fits(self.widgets@, self.bounds.y as int)
    }

    closed spec fn laid_out_as(&self, post: Self) -> bool {
        &&& post.widgets@ == stacked(self.widgets@, self.bounds)
        &&& post.bounds == self.bounds
        &&& post.visible == self.visible
        &&& post.debug == self.debug
    }

    proof fn lemma_with_bounds(&self, r1: Rect, r2: Rect) {
    }

    fn bounds(&self) -> (r: Rect) {
        self.bounds
    }

    fn bounds_mut(&mut self) -> (r: &mut Rect) {
        &mut self.bounds
    }

    fn draw(&self, renderer: &mut RenderContext)
        decreases self,
    {
        let n = self.widgets.len();
        let ghost c = self.widgets@;
        let ghost r0 = *renderer;
        proof {
            lemma_children_quads_in_range(c, self.debug);
            assert(c.take(n as int) =~= c);
        }
        for i in 0..n
            invariant
                n == self.widgets@.len(),
                c == self.widgets@,
                can_draw(r0, children_quads(c, self.debug)),
                drawn(r0, *renderer, children_quads(c.take(i as int), self.debug)),
        {
            let ghost r1 = *renderer;
            let ghost done = children_quads(c.take(i as int), self.debug);
            let ghost nq = c[i as int].node_quads();
            let ghost dq = if self.debug {
                debug_quads(c[i as int].view_bounds())
            } else {
                Seq::<Quad>::empty()
            };
            let ghost rest = children_steps_from(c, self.debug, i + 1);
            proof {
                lemma_children_quads_step(c, self.debug, i as int);
                lemma_children_quads_suffix(c, self.debug, i as int);
                assert(children_quads(c, self.debug) =~= done + (nq + (dq + rest)));
                lemma_can_push_split(r0.ui@, done, nq + (dq + rest));
                lemma_can_push_split(r1.ui@, nq, dq + rest);
                lemma_can_push_split(r1.ui@.push_quads(nq), dq, rest);
            }
            proof {
                assert(decreases_to!(*self => self.widgets@[i as int]));
            }
            self.widgets[i].draw(renderer);
            if self.debug {
                self.widgets[i].draw_debug(renderer);
            }
            proof {
                lemma_push_quads_append(r1.ui@, nq, dq);
                lemma_push_quads_append(r0.ui@, done, nq + dq);
                assert(done + (nq + dq) =~= children_quads(c.take(i + 1), self.debug));
                if !self.debug {
                    assert(nq + dq =~= nq);
                }
            }
        }
        proof {
            assert(c.take(n as int) =~= c);
        }
    }

    fn set_visible(&mut self, visible: bool) {
        self.visible = visible;
    }

    fn set_debug(&mut self, debug: bool) {
        self.debug = debug;
    }

    fn hit_test(&self, px: i32, py: i32) -> (r: bool) {
        self.bounds.contains(px, py)
    }

    fn on_mouse_down(&mut self, px: i32, py: i32) -> (r: bool) {
        false
    }

    fn on_mouse_up(&mut self, px: i32, py: i32) -> (r: bool) {
        false
    }

    fn on_mouse_enter(&mut self) {
    }

    fn on_mouse_leave(&mut self) {
    }

    fn layout(&mut self) {
        let ghost c = self.widgets@;
        let ghost b = self.bounds;
        let n = self.widgets.len();
        let mut y = self.bounds.y;
        for i in 0..n
            invariant
                n == c.len(),
                self.bounds == b,
                self.visible == old(self).visible,
                self.debug == old(self).debug,
                c == old(self).widgets@,
                b == old(self).bounds,
                stack_fits(c, b.y as int),
                y == b.y + heights_before(c, i as int),
                self.widgets@.len() == n,
                forall|j: int| 0 <= j < i ==> self.widgets@[j] == stacked(c, b)[j],
                forall|j: int| i <= j < n ==> self.widgets@[j] == c[j],
        {
            let x = self.bounds.x;
            let w = self.bounds.w;
            proof {
                c[i as int].lemma_with_bounds(
                    Rect { x, y, ..c[i as int].view_bounds() },
                    stacked_bounds(c, b, i as int),
                );
                c[i as int].with_bounds(Rect { x, y, ..c[i as int].view_bounds() }).lemma_with_bounds(
                    stacked_bounds(c, b, i as int),
                    stacked_bounds(c, b, i as int),
                );
            }
            self.widgets[i].set_position(x, y);
            let h0 = self.widgets[i].bounds().h;
            self.widgets[i].set_size(w, h0);
            let h = self.widgets[i].bounds().h;
            proof {
                assert(heights_before(c, i + 1) == heights_before(c, i as int) + c[i as int].view_bounds().h);
                assert(i32::MIN <= b.y + heights_before(c, i + 1) <= i32::MAX);
            }
            y = y + h;
        }
        assert(self.widgets@ =~= stacked(c, b));
    }
}

} // verus!
