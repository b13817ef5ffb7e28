use vstd::prelude::*;

use crate::render::RenderContext;
use crate::ui::renderer::Quad;
use crate::ui::widget::{Rect, Widget};

verus! {

/// A text label. It has no geometry of its own yet: drawing it appends nothing.
pub struct Label {
    bounds: Rect,
    text: String,
    visible: bool,
    debug: bool,
}

impl Label {
    /// The text of the label.
    pub closed spec fn text_spec(&self) -> Seq<char> {
        self.text@
    }

    /// Drawing a label appends nothing.
    pub proof fn lemma_draw_quads(&self)
        ensures
            self.draw_quads() == Seq::<Quad>::empty(),
    {
    }

    /// A label showing `text`, with empty bounds at the origin.
    pub fn new(text: String) -> (r: Self)
        ensures
            r.view_bounds() == (Rect { x: 0, y: 0, w: 0, h: 0 }),
            r.text_spec() == text@,
    {
        Self { bounds: Rect::new(0, 0, 0, 0), text, visible: true, debug: false }
    }
}

impl Widget for Label {
    closed spec fn view_bounds(&self) -> Rect {
        self.bounds
    }

    closed spec fn with_bounds(&self, r: Rect) -> Self {
        Label { bounds: r, ..*self }
    }

    closed spec fn with_visible(&self, visible: bool) -> Self {
        *self
    }

    closed spec fn with_debug(&self, debug: bool) -> Self {
        *self
    }

    closed spec fn hit_ok(&self, px: int, py: int) -> bool {
        self.bounds.contains_defined(px, py)
    }

    closed spec fn hit_spec(&self, px: int, py: int) -> bool {
        self.bounds.contains_point(px, py)
    }

    closed spec fn down_spec(&self, px: int, py: int) -> (Self, bool) {
        (*self, false)
    }

    closed spec fn up_spec(&self, px: int, py: int) -> (Self, bool) {
        (*self, false)
    }

    closed spec fn entered(&self) -> Self {
        *self
    }

    closed spec fn left(&self) -> Self {
        *self
    }

    closed spec fn draw_quads(&self) -> Seq<Quad> {
        Seq::empty()
    }

    closed spec fn can_layout(&self) -> bool {
        true
    }

    closed spec fn laid_out_as(&self, post: Self) -> bool {
        post == *self
    }

    proof fn lemma_with_bounds(&self, r1: Rect, r2: Rect) {
    }

    fn bounds(&self) -> (r: Rect) {
        self.bounds
    }

    fn bounds_mut(&mut self) -> (r: &mut Rect) {
        &mut self.bounds
    }

    fn draw(&self, renderer: &mut RenderContext) {
    }

    fn set_position(&mut self, x: i32, y: i32) {
        self.bounds.x = x;
        self.bounds.y = y;
    }

    fn set_visible(&mut self, visible: bool) {
    }

    fn set_debug(&mut self, debug: bool) {
    }

    fn hit_test(&self, px: i32, py: i32) -> (r: bool) {
        self.bounds.contains(px, py)
    }

    fn on_mouse_down(&mut self, px: i32, py: i32) -> (r: bool) {
        false
    }

    fn on_mouse_up(&mut self, px: i32, py: i32) -> (r: bool) {
        false
    }

    fn on_mouse_enter(&mut self) {
    }

    fn on_mouse_leave(&mut self) {
    }

    fn layout(&mut self) {
    }
}

} // verus!
