pub mod boxs;
pub mod label;
pub mod rectangle;

use vstd::prelude::*;

use crate::render::text_vertex::{color_green, green};
use crate::render::RenderContext;
use crate::ui::renderer::{quad_in_range, stroke_quads, Quad, UIBatchView};
use crate::ui::widget::boxs::Vbox;
use crate::ui::widget::label::Label;
use crate::ui::widget::rectangle::Rectangle;

verus! {

/// A rectangle in pixels; the origin is the top-left corner of the surface.
#[derive(Copy, Clone, Debug, Default, PartialEq, Eq, Structural)]
pub struct Rect {
    pub x: i32,
    pub y: i32,
    pub w: i32,
    pub h: i32,
}

impl Rect {
    /// Whether (`px`, `py`) lies in the rectangle, edges included.
    pub open spec fn contains_point(self, px: int, py: int) -> bool {
        px >= self.x && px <= self.x + self.w && py >= self.y && py <= self.y + self.h
    }

    /// Whether `contains` can test (`px`, `py`) without an `i32` overflow: the
    /// right edge is computed once the point is right of the left edge, and the
    /// bottom edge once it is also below the top edge and left of the right one.
    pub open spec fn contains_defined(self, px: int, py: int) -> bool {
        &&& px >= self.x ==> i32::MIN <= self.x + self.w <= i32::MAX
        &&& (px >= self.x && px <= self.x + self.w && py >= self.y) ==> i32::MIN <= self.y + self.h
            <= i32::MAX
    }

    /// The rectangle at (`x`, `y`) of size `w` x `h`.
    pub fn new(x: i32, y: i32, w: i32, h: i32) -> (r: Self)
        ensures
            r == (Rect { x, y, w, h }),
    {
        Self { x, y, w, h }
    }

    /// Whether the point (`px`, `py`) lies in the rectangle, edges included.
    pub fn contains(&self, px: i32, py: i32) -> (r: bool)
        requires
            self.contains_defined(px as int, py as int),
        ensures
            r == self.contains_point(px as int, py as int),
    {
        px >= self.x && px <= self.x + self.w && py >= self.y && py <= self.y + self.h
    }
}

/// A rectangle of non-negative size contains its four corners.
pub proof fn lemma_rect_contains_corners(r: Rect)
    requires
        r.w >= 0,
        r.h >= 0,
    ensures
        r.contains_point(r.x as int, r.y as int),
        r.contains_point(r.x + r.w, r.y as int),
        r.contains_point(r.x as int, r.y + r.h),
        r.contains_point(r.x + r.w, r.y + r.h),
{
}

/// The outline that `draw_debug` draws around a widget with bounds `b`.
pub open spec fn debug_quads(b: Rect) -> Seq<Quad> {
    stroke_quads(b.x as i64, b.y as i64, b.w as i64, b.h as i64, 2, green())
}

/// `n`, or `u64::MAX` where `n` is larger.
pub open spec fn capped(n: int) -> u64 {
    if n > u64::MAX {
        u64::MAX
    } else {
        n as u64
    }
}

/// Adding capped counts with `saturating_add` caps their sum.
pub proof fn lemma_capped_add(a: int, b: int)
    requires
        a >= 0,
        b >= 0,
    ensures
        (if capped(a) > u64::MAX - capped(b) {
            u64::MAX
        } else {
            (capped(a) + capped(b)) as u64
        }) == capped(a + b),
{
}

/// Whether a renderer can take the quads `qs` in its UI batch.
pub open spec fn can_draw(renderer: RenderContext, qs: Seq<Quad>) -> bool {
    renderer.wf() && renderer.ui@.can_push(qs)
}

/// Whether `post` is `pre` with the quads `qs` appended to its UI batch.
pub open spec fn drawn(pre: RenderContext, post: RenderContext, qs: Seq<Quad>) -> bool {
    &&& post.wf()
    &&& post.ui@ == pre.ui@.push_quads(qs)
    &&& post.text@ == pre.text@
}

/// A component of the user interface.
///
/// Its behaviour is described by spec functions that each implementation
/// defines; the executable methods are held to them.
pub trait Widget: Sized {
    /// The bounds of the widget.
    spec fn view_bounds(&self) -> Rect;

    /// The widget with its bounds replaced by `r`.
    spec fn with_bounds(&self, r: Rect) -> Self;

    /// The widget after `set_visible(visible)`.
    spec fn with_visible(&self, visible: bool) -> Self;

    /// The widget after `set_debug(debug)`.
    spec fn with_debug(&self, debug: bool) -> Self;

    /// Whether `hit_test(px, py)` can run without an arithmetic overflow.
    spec fn hit_ok(&self, px: int, py: int) -> bool;

    /// Whether the point (`px`, `py`) hits the widget.
    spec fn hit_spec(&self, px: int, py: int) -> bool;

    /// The widget after a mouse press at (`px`, `py`), and whether it took it.
    spec fn down_spec(&self, px: int, py: int) -> (Self, bool);

    /// The widget after a mouse release at (`px`, `py`), and whether it took it.
    spec fn up_spec(&self, px: int, py: int) -> (Self, bool);

    /// The widget after the pointer entered it.
    spec fn entered(&self) -> Self;

    /// The widget after the pointer left it.
    spec fn left(&self) -> Self;

    /// The solid rectangles that `draw` appends to the UI batch.
    spec fn draw_quads(&self) -> Seq<Quad>;

    /// Whether `layout` can run without an arithmetic overflow.
    spec fn can_layout(&self) -> bool;

    /// Whether `post` is the widget after `layout`.
    spec fn laid_out_as(&self, post: Self) -> bool;

    /// Replacing the bounds sets them, and a later replacement overrides an
    /// earlier one.
    proof fn lemma_with_bounds(&self, r1: Rect, r2: Rect)
        ensures
            self.with_bounds(r1).view_bounds() == r1,
            self.with_bounds(r1).with_bounds(r2) == self.with_bounds(r2),
    ;

    /// The current bounds.
    fn bounds(&self) -> (r: Rect)
        ensures
            r == self.view_bounds(),
    ;

    /// The bounds, for update in place.
    fn bounds_mut(&mut self) -> (r: &mut Rect)
        ensures
            *r == old(self).view_bounds(),
            *final(self) == old(self).with_bounds(*final(r)),
    ;

    /// Appends the widget's geometry to the renderer.
    fn draw(&self, renderer: &mut RenderContext)
        requires
            can_draw(*old(renderer), self.draw_quads()),
        ensures
            drawn(*old(renderer), *final(renderer), self.draw_quads()),
    ;

    /// Outlines the bounds in green, two pixels thick.
    fn draw_debug(&self, renderer: &mut RenderContext)
        requires
            can_draw(*old(renderer), debug_quads(self.view_bounds())),
        ensures
            drawn(*old(renderer), *final(renderer), debug_quads(self.view_bounds())),
    {
        let b = self.bounds();
        renderer.ui.stroke_rect(b.x as i64, b.y as i64, b.w as i64, b.h as i64, 2, color_green());
    }

    /// Moves the widget to (`x`, `y`) and resizes it to `w` x `h`.
    fn set_bounds(&mut self, x: i32, y: i32, w: i32, h: i32)
        ensures
            *final(self) == old(self).with_bounds(Rect { x, y, w, h }),
    {
        proof {
            let b = old(self).view_bounds();
            old(self).lemma_with_bounds(Rect { x, y, ..b }, Rect { x, y, w, h });
            old(self).with_bounds(Rect { x, y, ..b }).lemma_with_bounds(
                Rect { x, y, w, h },
                Rect { x, y, w, h },
            );
        }
        self.set_position(x, y);
        self.set_size(w, h);
    }

    /// Gives the widget the bounds `rect`.
    fn set_bounds_rect(&mut self, rect: Rect)
        ensures
            *final(self) == old(self).with_bounds(rect),
    {
        self.set_bounds(rect.x, rect.y, rect.w, rect.h);
    }

    /// Moves the widget so that its top-left corner is at (`x`, `y`).
    fn set_position(&mut self, x: i32, y: i32)
        ensures
            *final(self) == old(self).with_bounds(Rect { x, y, ..old(self).view_bounds() }),
    {
        let b = self.bounds_mut();
        b.x = x;
        b.y = y;
    }

    /// Resizes the widget to `w` x `h`, keeping its position.
    fn set_size(&mut self, w: i32, h: i32)
        ensures
            *final(self) == old(self).with_bounds(Rect { w, h, ..old(self).view_bounds() }),
    {
        let b = self.bounds_mut();
        b.w = w;
        b.h = h;
    }

    /// Shows or hides the widget.
    fn set_visible(&mut self, visible: bool)
        ensures
            *final(self) == old(self).with_visible(visible),
    ;

    /// Switches the debug outlines of the widget on or off.
    fn set_debug(&mut self, debug: bool)
        ensures
            *final(self) == old(self).with_debug(debug),
    ;

    /// Whether the point (`px`, `py`) hits the widget.
    fn hit_test(&self, px: i32, py: i32) -> (r: bool)
        requires
            self.hit_ok(px as int, py as int),
        ensures
            r == self.hit_spec(px as int, py as int),
    ;

    /// A mouse press at (`px`, `py`); `true` when the widget took it.
    fn on_mouse_down(&mut self, px: i32, py: i32) -> (r: bool)
        ensures
            (*final(self), r) == old(self).down_spec(px as int, py as int),
    ;

    /// A mouse release at (`px`, `py`); `true` when the widget took it.
    fn on_mouse_up(&mut self, px: i32, py: i32) -> (r: bool)
        ensures
            (*final(self), r) == old(self).up_spec(px as int, py as int),
    ;

    /// The pointer entered the widget.
    fn on_mouse_enter(&mut self)
        ensures
            *final(self) == old(self).entered(),
    ;

    /// The pointer left the widget.
    fn on_mouse_leave(&mut self)
        ensures
            *final(self) == old(self).left(),
    ;

    /// Arranges the widget's children, if it has any.
    fn layout(&mut self)
        requires
            old(self).can_layout(),
        ensures
            old(self).laid_out_as(*final(self)),
    ;
}

/// Any of the widgets of this library, so that containers can hold a mix.
pub enum Node {
    Rectangle(Rectangle),
    Vbox(Vbox),
    Label(Label),
}

impl Node {
    /// The solid rectangles that drawing the node appends.
    pub open spec fn node_quads(self) -> Seq<Quad>
        decreases self,
    {
        match self {
            Node::Rectangle(r) => r.rect_quads(),
            Node::Vbox(v) => v.vbox_quads(),
            Node::Label(_) => Seq::empty(),
        }
    }
}

/// The rectangles that a vertical box draws for the children `s`: each child's
/// own, followed by its outline when `debug` is on.
pub open spec fn children_quads(s: Seq<Node>, debug: bool) -> Seq<Quad>
    decreases s,
{
    if s.len() == 0 {
        Seq::empty()
    } else {
        children_quads(s.drop_last(), debug) + s.last().node_quads() + (if debug {
            debug_quads(s.last().view_bounds())
        } else {
            Seq::empty()
        })
    }
}

impl Node {
    /// The number of solid rectangles that drawing the node appends, capped at
    /// `u64::MAX`.
    pub fn quad_count(&self) -> (r: u64)
        ensures
            r == capped(self.node_quads().len() as int),
        decreases self,
    {
        match self {
            Node::Rectangle(r) => r.quad_count(),
            Node::Vbox(v) => {
                proof {
                    v.lemma_vbox_quads_children();
                }
                v.quad_count()
            },
            Node::Label(_) => 0,
        }
    }
}

impl Widget for Node {
    open spec fn view_bounds(&self) -> Rect {
        match self {
            Node::Rectangle(r) => r.view_bounds(),
            Node::Vbox(v) => v.view_bounds(),
            Node::Label(l) => l.view_bounds(),
        }
    }

    open spec fn with_bounds(&self, b: Rect) -> Self {
        match self {
            Node::Rectangle(r) => Node::Rectangle(r.with_bounds(b)),
            Node::Vbox(v) => Node::Vbox(v.with_bounds(b)),
            Node::Label(l) => Node::Label(l.with_bounds(b)),
        }
    }

    open spec fn with_visible(&self, visible: bool) -> Self {
        match self {
            Node::Rectangle(r) => Node::Rectangle(r.with_visible(visible)),
            Node::Vbox(v) => Node::Vbox(v.with_visible(visible)),
            Node::Label(l) => Node::Label(l.with_visible(visible)),
        }
    }

    open spec fn with_debug(&self, debug: bool) -> Self {
        match self {
            Node::Rectangle(r) => Node::Rectangle(r.with_debug(debug)),
            Node::Vbox(v) => Node::Vbox(v.with_debug(debug)),
            Node::Label(l) => Node::Label(l.with_debug(debug)),
        }
    }

    open spec fn hit_ok(&self, px: int, py: int) -> bool {
        self.view_bounds().contains_defined(px, py)
    }

    open spec fn hit_spec(&self, px: int, py: int) -> bool {
        self.view_bounds().contains_point(px, py)
    }

    open spec fn down_spec(&self, px: int, py: int) -> (Self, bool) {
        (*self, false)
    }

    open spec fn up_spec(&self, px: int, py: int) -> (Self, bool) {
        (*self, false)
    }

    open spec fn entered(&self) -> Self {
        *self
    }

    open spec fn left(&self) -> Self {
        *self
    }

    open spec fn draw_quads(&self) -> Seq<Quad> {
        self.node_quads()
    }

    open spec fn can_layout(&self) -> bool {
        match self {
            Node::Vbox(v) => v.can_layout(),
            _ => true,
        }
    }

    open spec fn laid_out_as(&self, post: Self) -> bool {
        match self {
            Node::Vbox(v) => post matches Node::Vbox(pv) && v.laid_out_as(pv),
            _ => post == *self,
        }
    }

    proof fn lemma_with_bounds(&self, r1: Rect, r2: Rect) {
        match self {
            Node::Rectangle(r) => r.lemma_with_bounds(r1, r2),
            Node::Vbox(v) => v.lemma_with_bounds(r1, r2),
            Node::Label(l) => l.lemma_with_bounds(r1, r2),
        }
    }

    fn bounds(&self) -> (r: Rect) {
        match self {
            Node::Rectangle(r) => r.bounds(),
            Node::Vbox(v) => v.bounds(),
            Node::Label(l) => l.bounds(),
        }
    }

    fn bounds_mut(&mut self) -> (r: &mut Rect) {
        match self {
            Node::Rectangle(r) => r.bounds_mut(),
            Node::Vbox(v) => v.bounds_mut(),
            Node::Label(l) => l.bounds_mut(),
        }
    }

    fn draw(&self, renderer: &mut RenderContext)
        decreases self,
    {
        match self {
            Node::Rectangle(r) => {
                proof {
                    r.lemma_draw_quads();
                    assert(self.node_quads() == r.rect_quads());
                    assert(self.draw_quads() == r.rect_quads());
                }
                r.draw(renderer)
            },
            Node::Vbox(v) => {
                proof {
                    v.lemma_draw_quads();
                }
                v.draw(renderer)
            },
            Node::Label(l) => {
                proof {
                    l.lemma_draw_quads();
                }
                l.draw(renderer)
            },
        }
    }

    fn set_visible(&mut self, visible: bool) {
        match self {
            Node::Rectangle(r) => r.set_visible(visible),
            Node::Vbox(v) => v.set_visible(visible),
            Node::Label(l) => l.set_visible(visible),
        }
    }

    fn set_debug(&mut self, debug: bool) {
        match self {
            Node::Rectangle(r) => r.set_debug(debug),
            Node::Vbox(v) => v.set_debug(debug),
            Node::Label(l) => l.set_debug(debug),
        }
    }

    fn hit_test(&self, px: i32, py: i32) -> (r: bool) {
        self.bounds().contains(px, py)
    }

    fn on_mouse_down(&mut self, px: i32, py: i32) -> (r: bool) {
        false
    }

    fn on_mouse_up(&mut self, px: i32, py: i32) -> (r: bool) {
        false
    }

    fn on_mouse_enter(&mut self) {
    }

    fn on_mouse_leave(&mut self) {
    }

    fn layout(&mut self) {
        match self {
            Node::Vbox(v) => v.layout(),
            _ => {},
        }
    }
}

/// Setting the bounds of a node and reading them back gives what was set;
/// moving a node keeps its size and resizing it keeps its position.
pub proof fn lemma_node_bounds_read_back(n: Node, r: Rect, x: i32, y: i32, w: i32, h: i32)
    ensures
        n.with_bounds(r).view_bounds() == r,
        n.with_bounds(Rect { x, y, ..n.view_bounds() }).view_bounds().w == n.view_bounds().w,
        n.with_bounds(Rect { x, y, ..n.view_bounds() }).view_bounds().h == n.view_bounds().h,
        n.with_bounds(Rect { w, h, ..n.view_bounds() }).view_bounds().x == n.view_bounds().x,
        n.with_bounds(Rect { w, h, ..n.view_bounds() }).view_bounds().y == n.view_bounds().y,
{
    n.lemma_with_bounds(r, r);
    n.lemma_with_bounds(Rect { x, y, ..n.view_bounds() }, r);
    n.lemma_with_bounds(Rect { w, h, ..n.view_bounds() }, r);
}

/// Every rectangle that a node draws is within the range that `fill_rect` takes.
pub proof fn lemma_node_quads_in_range(n: Node)
    ensures
        forall|i: int| 0 <= i < n.node_quads().len() ==> quad_in_range(#[trigger] n.node_quads()[i]),
    decreases n,
{
    match n {
        Node::Rectangle(r) => r.lemma_rect_quads(),
        Node::Vbox(v) => {
            v.lemma_vbox_quads_children();
            v.lemma_children_smaller();
            lemma_children_quads_in_range(v.children(), v.is_debug());
        },
        Node::Label(_) => {},
    }
}

/// Every rectangle that a vertical box draws for its children is within range.
pub proof fn lemma_children_quads_in_range(s: Seq<Node>, debug: bool)
    ensures
        forall|i: int|
            0 <= i < children_quads(s, debug).len() ==> quad_in_range(
                #[trigger] children_quads(s, debug)[i],
            ),
    decreases s,
{
    if s.len() > 0 {
        lemma_children_quads_in_range(s.drop_last(), debug);
        lemma_node_quads_in_range(s.last());
        let a = children_quads(s.drop_last(), debug);
        let b = s.last().node_quads();
        let c = if debug {
            debug_quads(s.last().view_bounds())
        } else {
            Seq::empty()
        };
        assert forall|i: int| 0 <= i < (a + b + c).len() implies quad_in_range(
            #[trigger] (a + b + c)[i],
        ) by {
            if i < a.len() {
                assert((a + b + c)[i] == a[i]);
            } else if i < a.len() + b.len() {
                assert((a + b + c)[i] == b[i - a.len()]);
            } else {
                assert((a + b + c)[i] == c[i - a.len() - b.len()]);
            }
        }
    }
}

} // verus!
