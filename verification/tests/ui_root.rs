use xelgui::render::text_vertex::color_blue;
use xelgui::render::RenderContext;
use xelgui::ui::debug::UIDebugFlag;
use xelgui::ui::widget::boxs::Vbox;
use xelgui::ui::widget::rectangle::Rectangle;
use xelgui::ui::widget::{Node, Widget};
use xelgui::ui::UIRoot;

fn rect(x: i32, y: i32, w: i32, h: i32) -> Node {
    Node::Rectangle(Rectangle::new(x, y, w, h, color_blue()))
}

#[test]
fn root_starts_empty() {
    let ui: UIRoot<Node> = UIRoot::new();
    assert_eq!(ui.len(), 0);
    assert_eq!(ui.hovered(), None);
    assert_eq!(ui.active(), None);
    assert_eq!(ui.debug_flags(), UIDebugFlag::none());
}

#[test]
fn root_hover_picks_topmost() {
    let mut ui: UIRoot<Node> = UIRoot::new();
    ui.add(rect(0, 0, 100, 100));
    ui.add(rect(50, 50, 100, 100));
    assert_eq!(ui.handle_mouse_move(60, 60), Some(1));
    assert_eq!(ui.hovered(), Some(1));
    assert_eq!(ui.handle_mouse_move(10, 10), Some(0));
    assert_eq!(ui.hovered(), Some(0));
    assert_eq!(ui.handle_mouse_move(150, 150), Some(1));
    assert_eq!(ui.handle_mouse_move(500, 500), None);
    assert_eq!(ui.hovered(), None);
}

#[test]
fn root_hover_same_point_twice() {
    let mut ui: UIRoot<Node> = UIRoot::new();
    ui.add(rect(0, 0, 100, 100));
    assert_eq!(ui.handle_mouse_move(1, 1), Some(0));
    assert_eq!(ui.handle_mouse_move(1, 1), Some(0));
    assert_eq!(ui.widget(0).bounds(), rect(0, 0, 100, 100).bounds());
}

#[test]
fn root_builtin_widgets_take_no_press() {
    let mut ui: UIRoot<Node> = UIRoot::new();
    ui.set_debug(UIDebugFlag::debug_widgets() | UIDebugFlag::debug_events());
    assert_eq!(ui.debug_flags(), UIDebugFlag::from_bits(3));
    ui.add(rect(50, 50, 200, 100));
    ui.add(rect(100, 200, 300, 60));
    assert_eq!(ui.handle_mouse_move(120, 210), Some(1));
    assert!(!ui.handle_mouse_down(120, 210));
    assert_eq!(ui.active(), None);
    assert!(!ui.handle_mouse_up(120, 210));
    assert!(!ui.handle_mouse_up(0, 0));
    assert_eq!(ui.len(), 2);
}

#[test]
fn root_release_without_hover() {
    let mut ui: UIRoot<Node> = UIRoot::new();
    ui.add(rect(0, 0, 1, 1));
    assert!(!ui.handle_mouse_up(0, 0));
}

#[test]
fn root_draws_bottom_first() {
    let mut ui: UIRoot<Node> = UIRoot::new();
    ui.add(rect(1, 1, 1, 1));
    let mut vbox = Vbox::new(20, 20, 30, 80);
    vbox.add(rect(50, 50, 200, 100));
    ui.add(Node::Vbox(vbox));
    ui.add(rect(2, 2, 1, 1));
    let mut ctx = RenderContext::new(10, 10);
    ui.draw(&mut ctx);
    let v = ctx.ui.vertices();
    assert_eq!(v.len(), 12);
    assert_eq!((v[0].x, v[4].x, v[4].y, v[8].x), (1, 20, 20, 2));
}

#[test]
fn root_move_stops_at_first_hit() {
    let mut ui: UIRoot<Node> = UIRoot::new();
    ui.add(rect(100, 0, i32::MAX, 10));
    ui.add(rect(100, 0, 100, 10));
    assert_eq!(ui.handle_mouse_move(150, 5), Some(1));
    assert_eq!(ui.hovered(), Some(1));
}

#[test]
fn root_can_draw_into_counts_every_rectangle() {
    let mut ui: UIRoot<Node> = UIRoot::new();
    ui.add(rect(0, 0, 10, 10));
    let mut vbox = Vbox::new(0, 0, 30, 80);
    vbox.add(rect(0, 0, 5, 5));
    vbox.add(rect(0, 0, 5, 5));
    vbox.set_debug(true);
    ui.add(Node::Vbox(vbox));
    let mut hidden = Rectangle::new(0, 0, 1, 1, color_blue());
    hidden.hide_rect();
    ui.add(Node::Rectangle(hidden));
    assert_eq!(ui.widget(0).quad_count(), 1);
    assert_eq!(ui.widget(1).quad_count(), 10);
    assert_eq!(ui.widget(2).quad_count(), 0);
    let mut ctx = RenderContext::new(10, 10);
    assert!(ui.can_draw_into(&ctx));
    ui.draw(&mut ctx);
    assert_eq!(ctx.ui.vertices().len(), 44);
    assert_eq!(ctx.ui.num_indices(), 66);
}
