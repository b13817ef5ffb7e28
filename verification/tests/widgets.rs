use xelgui::render::text_vertex::{color_blue, color_green};
use xelgui::render::RenderContext;
use xelgui::ui::renderer::UIVertex;
use xelgui::ui::widget::boxs::{Hbox, Vbox};
use xelgui::ui::widget::label::Label;
use xelgui::ui::widget::rectangle::Rectangle;
use xelgui::ui::widget::{Node, Rect, Widget};

#[test]
fn rect_contains_edges_inclusive() {
    let r = Rect::new(10, 20, 30, 40);
    assert!(r.contains(10, 20));
    assert!(r.contains(40, 60));
    assert!(r.contains(25, 30));
    assert!(!r.contains(9, 30));
    assert!(!r.contains(41, 30));
    assert!(!r.contains(25, 61));
    assert!(!r.contains(25, 19));
}

#[test]
fn rect_corners_of_empty_rect() {
    let r = Rect::new(5, 5, 0, 0);
    assert!(r.contains(5, 5));
    assert!(!r.contains(6, 5));
}

#[test]
fn rectangle_bounds_read_back() {
    let mut r = Rectangle::new(1, 2, 3, 4, color_blue());
    assert_eq!(r.bounds(), Rect::new(1, 2, 3, 4));
    r.set_position(7, 8);
    assert_eq!(r.bounds(), Rect::new(7, 8, 3, 4));
    r.set_size(9, 10);
    assert_eq!(r.bounds(), Rect::new(7, 8, 9, 10));
    r.set_bounds(-1, -2, 11, 12);
    assert_eq!(r.bounds(), Rect::new(-1, -2, 11, 12));
    r.set_bounds_rect(Rect::new(0, 0, 1, 1));
    assert_eq!(r.bounds(), Rect::new(0, 0, 1, 1));
    r.bounds_mut().w = 50;
    assert_eq!(r.bounds(), Rect::new(0, 0, 50, 1));
}

#[test]
fn rectangle_draws_when_visible() {
    let mut ctx = RenderContext::new(100, 100);
    let mut r = Rectangle::new(10, 20, 30, 40, color_blue());
    r.draw(&mut ctx);
    assert_eq!(ctx.ui.vertices().len(), 4);
    assert_eq!(ctx.ui.vertices()[2], UIVertex { x: 40, y: 60, color: color_blue() });
    r.hide_rect();
    r.draw(&mut ctx);
    assert_eq!(ctx.ui.vertices().len(), 4);
    r.set_visible(false);
    r.show();
    r.set_color(color_green());
    r.draw(&mut ctx);
    assert_eq!(ctx.ui.vertices().len(), 8);
    assert_eq!(ctx.ui.vertices()[4].color, color_green());
    assert_eq!(ctx.text.num_indices(), 0);
}

#[test]
fn rectangle_is_passive() {
    let mut r = Rectangle::new(0, 0, 10, 10, color_blue());
    assert!(r.hit_test(5, 5));
    assert!(!r.hit_test(11, 5));
    assert!(!r.on_mouse_down(5, 5));
    assert!(!r.on_mouse_up(5, 5));
    r.on_mouse_enter();
    r.on_mouse_leave();
    assert_eq!(r.bounds(), Rect::new(0, 0, 10, 10));
}

#[test]
fn draw_debug_outlines_bounds() {
    let mut ctx = RenderContext::new(100, 100);
    let r = Rectangle::new(10, 20, 100, 50, color_blue());
    r.draw_debug(&mut ctx);
    let v = ctx.ui.vertices();
    assert_eq!(v.len(), 16);
    assert!(v.iter().all(|p| p.color == color_green()));
    assert_eq!((v[4].x, v[4].y), (10, 68));
    assert_eq!((v[8].x, v[8].y), (10, 22));
    assert_eq!((v[10].x, v[10].y), (12, 68));
    assert_eq!((v[12].x, v[12].y), (108, 22));
}

#[test]
fn label_has_empty_bounds_and_draws_nothing() {
    let mut l = Label::new(String::from("hello"));
    assert_eq!(l.bounds(), Rect::new(0, 0, 0, 0));
    l.set_position(3, 4);
    l.set_size(5, 6);
    assert_eq!(l.bounds(), Rect::new(3, 4, 5, 6));
    let mut ctx = RenderContext::new(10, 10);
    l.draw(&mut ctx);
    assert_eq!(ctx.ui.num_indices(), 0);
}

#[test]
fn vbox_add_stacks_children() {
    let mut v = Vbox::new(20, 20, 30, 80);
    v.add(Node::Rectangle(Rectangle::new(50, 50, 200, 100, color_blue())));
    v.add(Node::Rectangle(Rectangle::new(0, 0, 10, 25, color_blue())));
    v.add(Node::Label(Label::new(String::from("x"))));
    let mut ctx = RenderContext::new(100, 100);
    v.draw(&mut ctx);
    let verts = ctx.ui.vertices();
    assert_eq!(verts.len(), 8);
    // first child: x 20, y 20, w 30, h 100
    assert_eq!((verts[0].x, verts[0].y, verts[2].x, verts[2].y), (20, 20, 50, 120));
    // second child: right below the first
    assert_eq!((verts[4].x, verts[4].y, verts[6].x, verts[6].y), (20, 120, 50, 145));
    assert_eq!(v.bounds(), Rect::new(20, 20, 30, 80));
}

#[test]
fn vbox_layout_is_idempotent() {
    let mut v = Vbox::new(0, 5, 10, 10);
    v.add(Node::Rectangle(Rectangle::new(3, 3, 4, 7, color_blue())));
    v.add(Node::Rectangle(Rectangle::new(3, 3, 4, 9, color_blue())));
    let mut a = RenderContext::new(1, 1);
    v.draw(&mut a);
    v.layout();
    let mut b = RenderContext::new(1, 1);
    v.draw(&mut b);
    assert_eq!(a.ui.vertices(), b.ui.vertices());
}

#[test]
fn vbox_moves_without_relayout() {
    let mut v = Vbox::new(0, 0, 10, 10);
    v.add(Node::Rectangle(Rectangle::new(0, 0, 4, 7, color_blue())));
    v.set_position(100, 100);
    let mut a = RenderContext::new(1, 1);
    v.draw(&mut a);
    assert_eq!((a.ui.vertices()[0].x, a.ui.vertices()[0].y), (0, 0));
    v.layout();
    let mut b = RenderContext::new(1, 1);
    v.draw(&mut b);
    assert_eq!((b.ui.vertices()[0].x, b.ui.vertices()[0].y), (100, 100));
}

#[test]
fn vbox_debug_outlines_children() {
    let mut v = Vbox::new(0, 0, 10, 10);
    v.add(Node::Rectangle(Rectangle::new(0, 0, 4, 7, color_blue())));
    v.set_debug(true);
    let mut ctx = RenderContext::new(1, 1);
    v.draw(&mut ctx);
    assert_eq!(ctx.ui.vertices().len(), 4 + 16);
    assert_eq!(ctx.ui.vertices()[4].color, color_green());
    v.set_debug(false);
    v.set_visible(false);
    let mut ctx2 = RenderContext::new(1, 1);
    v.draw(&mut ctx2);
    assert_eq!(ctx2.ui.vertices().len(), 4);
}

#[test]
fn node_dispatches_to_widget() {
    let mut n = Node::Vbox(Vbox::new(1, 1, 5, 5));
    assert!(n.hit_test(3, 3));
    n.set_bounds(10, 10, 2, 2);
    assert_eq!(n.bounds(), Rect::new(10, 10, 2, 2));
    assert!(!n.hit_test(3, 3));
    let _h = Hbox {};
}
