use xelgui::render::text_render::TextRenderer;
use xelgui::render::text_vertex::{color_green, color_red, TextVertex};
use xelgui::render::{ColorBits, RenderContext, ONE_BITS, ZERO_BITS};
use xelgui::ui::renderer::{UIRenderer, UIVertex};

fn red() -> ColorBits {
    color_red()
}

#[test]
fn ui_fill_rect_appends_quad() {
    let mut r = UIRenderer::new(800, 600);
    r.fill_rect(10, 20, 30, 40, red());
    let c = red();
    assert_eq!(
        r.vertices(),
        &[
            UIVertex { x: 10, y: 20, color: c },
            UIVertex { x: 40, y: 20, color: c },
            UIVertex { x: 40, y: 60, color: c },
            UIVertex { x: 10, y: 60, color: c },
        ]
    );
    assert_eq!(r.indices(), &[0, 1, 3, 1, 2, 3]);
    assert_eq!(r.num_indices(), 6);
    r.fill_rect(0, 0, 1, 1, c);
    assert_eq!(&r.indices()[6..], &[4, 5, 7, 5, 6, 7]);
    assert_eq!(r.num_indices(), 12);
    assert_eq!(r.vertices().len(), 8);
}

#[test]
fn ui_stroke_rect_is_four_fills() {
    let mut a = UIRenderer::new(100, 100);
    a.stroke_rect(10, 20, 100, 50, 2, red());
    let mut b = UIRenderer::new(100, 100);
    b.fill_rect(10, 20, 100, 2, red());
    b.fill_rect(10, 68, 100, 2, red());
    b.fill_rect(10, 22, 2, 46, red());
    b.fill_rect(108, 22, 2, 46, red());
    assert_eq!(a.vertices(), b.vertices());
    assert_eq!(a.indices(), b.indices());
    assert_eq!(a.num_indices(), 24);
}

#[test]
fn ui_begin_frame_clears() {
    let mut r = UIRenderer::new(800, 600);
    r.fill_rect(1, 2, 3, 4, red());
    r.begin_frame(1024, 768);
    assert!(r.vertices().is_empty());
    assert!(r.indices().is_empty());
    assert_eq!(r.num_indices(), 0);
    assert_eq!(r.size(), (1024, 768));
}

#[test]
fn ui_indices_wrap_at_16_bits() {
    let mut r = UIRenderer::new(1, 1);
    for _ in 0..16384 {
        r.fill_rect(0, 0, 1, 1, red());
    }
    assert_eq!(r.vertices().len(), 65536);
    r.fill_rect(0, 0, 1, 1, red());
    let n = r.indices().len();
    assert_eq!(&r.indices()[n - 6..], &[0, 1, 3, 1, 2, 3]);
    assert_eq!(&r.indices()[n - 12..n - 6], &[65532, 65533, 65535, 65533, 65534, 65535]);
}

#[test]
fn text_draw_texture_appends_quad() {
    let mut t = TextRenderer::new(800, 600);
    t.draw_texture(200, 200, 600, 600);
    let g = color_green();
    assert_eq!(
        t.vertices(),
        &[
            TextVertex { x: 200, y: 200, u_bits: ZERO_BITS, v_bits: ZERO_BITS, color: g },
            TextVertex { x: 200, y: 800, u_bits: ZERO_BITS, v_bits: ONE_BITS, color: g },
            TextVertex { x: 800, y: 800, u_bits: ONE_BITS, v_bits: ONE_BITS, color: g },
            TextVertex { x: 800, y: 200, u_bits: ONE_BITS, v_bits: ZERO_BITS, color: g },
        ]
    );
    assert_eq!(t.indices(), &[0, 1, 3, 3, 1, 2]);
    assert_eq!(t.num_indices(), 6);
    t.begin_frame(10, 20);
    assert!(t.vertices().is_empty());
    assert_eq!(t.num_indices(), 0);
    assert_eq!(t.size(), (10, 20));
}

#[test]
fn colors_are_single_precision_bits() {
    assert_eq!(f32::from_bits(ONE_BITS), 1.0f32);
    assert_eq!(f32::from_bits(ZERO_BITS), 0.0f32);
    let g = color_green();
    assert_eq!([g.r, g.g, g.b, g.a].map(f32::from_bits), [0.0, 1.0, 0.0, 1.0]);
}

#[test]
fn render_context_starts_empty() {
    let c = RenderContext::new(640, 480);
    assert_eq!(c.ui.size(), (640, 480));
    assert_eq!(c.text.size(), (640, 480));
    assert_eq!(c.ui.num_indices(), 0);
    assert_eq!(c.text.num_indices(), 0);
}

#[test]
fn ui_quad_triangles_wind_alike() {
    let mut r = UIRenderer::new(1, 1);
    r.fill_rect(3, 4, 10, 20, red());
    let v = r.vertices();
    let i = r.indices();
    let area = |a: &UIVertex, b: &UIVertex, c: &UIVertex| (b.x - a.x) * (c.y - a.y) - (b.y - a.y) * (c.x - a.x);
    let t1 = area(&v[i[0] as usize], &v[i[1] as usize], &v[i[2] as usize]);
    let t2 = area(&v[i[3] as usize], &v[i[4] as usize], &v[i[5] as usize]);
    assert_eq!((t1, t2), (200, 200));
}

#[test]
fn ui_fill_rect_takes_far_coordinates() {
    let mut r = UIRenderer::new(10, 10);
    r.fill_rect(i64::MAX - 5, i64::MIN, 5, 1, red());
    assert_eq!(r.vertices()[2].x, i64::MAX);
    assert_eq!(r.vertices()[2].y, i64::MIN + 1);
}

#[test]
fn ui_indices_name_batch_vertices() {
    let mut r = UIRenderer::new(10, 10);
    for i in 0..1023 {
        r.fill_rect(i, 0, 1, 1, red());
    }
    assert_eq!(r.vertices().len(), 4092);
    assert_eq!(r.indices().len(), 4092 / 4 * 6);
    assert!(r.indices().iter().all(|&i| (i as usize) < r.vertices().len()));
    r.stroke_rect(0, 0, 10, 10, 1, red());
    assert_eq!(r.vertices().len(), 4108);
    assert_eq!(r.num_indices() as usize, r.indices().len());
}
