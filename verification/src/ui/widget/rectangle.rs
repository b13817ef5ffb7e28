use vstd::prelude::*;

use crate::render::{ColorBits, RenderContext};
use crate::ui::renderer::Quad;
use crate::ui::widget::{Rect, Widget};

verus! {

/// A solid rectangle widget.
#[derive(Clone, Copy, Debug)]
pub struct Rectangle {
    bounds: Rect,
    color: ColorBits,
    visible: bool,
}

impl Rectangle {
    /// The fill colour.
    pub closed spec fn color_spec(&self) -> ColorBits {
        self.color
    }

    /// Whether the rectangle is shown.
    pub closed spec fn is_visible(&self) -> bool {
        self.visible
    }

    /// What drawing the rectangle appends: its bounds in its colour when shown,
    /// nothing when hidden.
    pub closed spec fn rect_quads(&self) -> Seq<Quad> {
        if self.visible {
            seq![
                Quad {
                    x: self.bounds.x as i64,
                    y: self.bounds.y as i64,
                    w: self.bounds.w as i64,
                    h: self.bounds.h as i64,
                    color: self.color,
                },
            ]
        } else {
            Seq::empty()
        }
    }

    /// The rectangles drawn are the bounds in the fill colour, when shown.
    pub proof fn lemma_rect_quads(&self)
        ensures
            self.rect_quads() == (if self.is_visible() {
                seq![
                    Quad {
                        x: self.view_bounds().x as i64,
                        y: self.view_bounds().y as i64,
                        w: self.view_bounds().w as i64,
                        h: self.view_bounds().h as i64,
                        color: self.color_spec(),
                    },
                ]
            } else {
                Seq::empty()
            }),
            forall|i: int|
                0 <= i < self.rect_quads().len() ==> crate::ui::renderer::quad_in_range(
                    #[trigger] self.rect_quads()[i],
                ),
    {
    }

    /// Drawing the rectangle appends `rect_quads`.
    pub proof fn lemma_draw_quads(&self)
        ensures
            self.draw_quads() == self.rect_quads(),
    {
    }

    /// The number of rectangles that drawing appends: one when shown.
    pub fn quad_count(&self) -> (r: u64)
        ensures
            r == self.rect_quads().len(),
    {
        if self.visible {
            1
        } else {
            0
        }
    }

    /// A shown rectangle at (`x`, `y`) of size `w` x `h` in `color`.
    pub fn new(x: i32, y: i32, w: i32, h: i32, color: ColorBits) -> (r: Self)
        ensures
            r.view_bounds() == (Rect { x, y, w, h }),
            r.color_spec() == color,
            r.is_visible(),
    {
        Self { bounds: Rect::new(x, y, w, h), color, visible: true }
    }

    /// Changes the fill colour.
    pub fn set_color(&mut self, color: ColorBits)
        ensures
            final(self).view_bounds() == old(self).view_bounds(),
            final(self).color_spec() == color,
            final(self).is_visible() == old(self).is_visible(),
    {
        self.color = color;
    }

    /// Shows the rectangle.
    pub fn show(&mut self)
        ensures
            final(self).view_bounds() == old(self).view_bounds(),
            final(self).color_spec() == old(self).color_spec(),
            final(self).is_visible(),
    {
        self.visible = true;
    }

    /// Hides the rectangle.
    pub fn hide_rect(&mut self)
        ensures
            final(self).view_bounds() == old(self).view_bounds(),
            final(self).color_spec() == old(self).color_spec(),
            !final(self).is_visible(),
    {
        self.visible = false;
    }
}

impl Widget for Rectangle {
    closed spec fn view_bounds(&self) -> Rect {
        self.bounds
    }

    closed spec fn with_bounds(&self, r: Rect) -> Self {
        Rectangle { bounds: r, ..*self }
    }

    closed spec fn with_visible(&self, visible: bool) -> Self {
        *self
    }

    closed spec fn with_debug(&self, debug: bool) -> Self {
        *self
    }

    closed spec fn hit_ok(&self, px: int, py: int) -> bool {
        self.bounds.contains_defined(px, py)
    }

    closed spec fn hit_spec(&self, px: int, py: int) -> bool {
        self.bounds.contains_point(px, py)
    }

    closed spec fn down_spec(&self, px: int, py: int) -> (Self, bool) {
        (*self, false)
    }

    closed spec fn up_spec(&self, px: int, py: int) -> (Self, bool) {
        (*self, false)
    }

    closed spec fn entered(&self) -> Self {
        *self
    }

    closed spec fn left(&self) -> Self {
        *self
    }

    closed spec fn draw_quads(&self) -> Seq<Quad> {
        self.rect_quads()
    }

    closed spec fn can_layout(&self) -> bool {
        true
    }

    closed spec fn laid_out_as(&self, post: Self) -> bool {
        post == *self
    }

    proof fn lemma_with_bounds(&self, r1: Rect, r2: Rect) {
    }

    fn bounds(&self) -> (r: Rect) {
        self.bounds
    }

    fn bounds_mut(&mut self) -> (r: &mut Rect) {
        &mut self.bounds
    }

    fn draw(&self, renderer: &mut RenderContext) {
        if self.visible {
            proof {
                reveal_with_fuel(crate::ui::renderer::UIBatchView::push_quads, 2);
            }
            renderer.ui.fill_rect(
                self.bounds.x as i64,
                self.bounds.y as i64,
                self.bounds.w as i64,
                self.bounds.h as i64,
                self.color,
            );
        }
    }

    fn set_visible(&mut self, visible: bool) {
    }

    fn set_debug(&mut self, debug: bool) {
    }

    fn hit_test(&self, px: i32, py: i32) -> (r: bool) {
        self.bounds.contains(px, py)
    }

    fn on_mouse_down(&mut self, px: i32, py: i32) -> (r: bool) {
        false
    }

    fn on_mouse_up(&mut self, px: i32, py: i32) -> (r: bool) {
        false
    }

    fn on_mouse_enter(&mut self) {
    }

    fn on_mouse_leave(&mut self) {
    }

    fn layout(&mut self) {
    }
}

} // verus!
