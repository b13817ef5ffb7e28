use vstd::prelude::*;

use crate::render::ColorBits;

verus! {

/// A vertex of the UI layer: a position in pixels and a colour.
#[derive(Clone, Copy, Debug, PartialEq, Eq, Structural)]
pub struct UIVertex {
    pub x: i64,
    pub y: i64,
    pub color: ColorBits,
}

/// A solid rectangle handed to `fill_rect`: its top-left corner, its size in
/// pixels and its colour.
#[derive(Clone, Copy, Debug, PartialEq, Eq, Structural)]
pub struct Quad {
    pub x: i64,
    pub y: i64,
    pub w: i64,
    pub h: i64,
    pub color: ColorBits,
}

/// Vertices that the GPU vertex buffer of the UI layer holds per frame.
pub const MAX_UI_VERTICES: usize = 4096;

/// Indices that the GPU index buffer of the UI layer holds per frame.
pub const MAX_UI_INDICES: usize = 8192;

/// Whether `v` is a value of `i64`.
pub open spec fn fits_i64(v: int) -> bool {
    i64::MIN <= v <= i64::MAX
}

/// Whether the far corner of `q`, computed in `i64`, does not overflow.
pub open spec fn quad_in_range(q: Quad) -> bool {
    &&& fits_i64(q.x + q.w)
    &&& fits_i64(q.y + q.h)
}

/// Whether `stroke_rect(x, y, w, h, t, ..)` computes every coordinate and extent
/// of its four rectangles, and their far corners, without an `i64` overflow.
pub open spec fn stroke_in_range(x: i64, y: i64, w: i64, h: i64, t: i64) -> bool {
    &&& fits_i64(x + w)
    &&& fits_i64(x + w - t)
    &&& fits_i64(x + t)
    &&& fits_i64(y + h)
    &&& fits_i64(y + h - t)
    &&& fits_i64(y + t)
    &&& fits_i64(2 * t)
    &&& fits_i64(h - 2 * t)
}

/// The four corners of `q`, clockwise from the top-left one in screen space.
pub open spec fn quad_vertices(q: Quad) -> Seq<UIVertex> {
    seq![
        UIVertex { x: q.x, y: q.y, color: q.color },
        UIVertex { x: (q.x + q.w) as i64, y: q.y, color: q.color },
        UIVertex { x: (q.x + q.w) as i64, y: (q.y + q.h) as i64, color: q.color },
        UIVertex { x: q.x, y: (q.y + q.h) as i64, color: q.color },
    ]
}

/// The two triangles of a quad whose first vertex has index `base`.
pub open spec fn quad_indices(base: int) -> Seq<u16> {
    seq![
        base as u16,
        (base + 1) as u16,
        (base + 3) as u16,
        (base + 1) as u16,
        (base + 2) as u16,
        (base + 3) as u16,
    ]
}

/// The rectangles that outline the rectangle at (`x`, `y`) of size `w` x `h`
/// with a border `t` pixels thick: top, bottom, left, right.
pub open spec fn stroke_quads(x: i64, y: i64, w: i64, h: i64, t: i64, color: ColorBits) -> Seq<Quad> {
    seq![
        Quad { x, y, w, h: t, color },
        Quad { x, y: (y + h - t) as i64, w, h: t, color },
        Quad { x, y: (y + t) as i64, w: t, h: (h - 2 * t) as i64, color },
        Quad { x: (x + w - t) as i64, y: (y + t) as i64, w: t, h: (h - 2 * t) as i64, color },
    ]
}

/// The geometry of the UI layer collected in the current frame.
pub struct UIBatchView {
    pub vertices: Seq<UIVertex>,
    pub indices: Seq<u16>,
    pub width: u32,
    pub height: u32,
}

impl UIBatchView {
    /// A frame with no geometry yet for a surface of `width` x `height` pixels.
    pub open spec fn empty(width: u32, height: u32) -> UIBatchView {
        UIBatchView { vertices: Seq::empty(), indices: Seq::empty(), width, height }
    }

    /// The batch after `fill_rect` with `q`: four vertices more, and six indices
    /// more that number them from the 16-bit index of the first.
    pub open spec fn push_quad(self, q: Quad) -> UIBatchView {
        UIBatchView {
            vertices: self.vertices + quad_vertices(q),
            indices: self.indices + quad_indices(self.vertices.len() as int % 0x1_0000),
            ..self
        }
    }

    /// The batch after `fill_rect` with each quad of `qs` in turn.
    pub open spec fn push_quads(self, qs: Seq<Quad>) -> UIBatchView
        decreases qs.len(),
    {
        if qs.len() == 0 {
            self
        } else {
            self.push_quads(qs.drop_last()).push_quad(qs.last())
        }
    }

    /// Whether the batch is made of whole quads: a multiple of four vertices,
    /// six indices per quad, and every index naming a vertex of the batch.
    pub open spec fn well_formed(self) -> bool {
        &&& self.vertices.len() % 4 == 0
        &&& self.indices.len() == self.vertices.len() / 4 * 6
        &&& forall|i: int| 0 <= i < self.indices.len() ==> (#[trigger] self.indices[i]) < self.vertices.len()
    }

    /// Whether `fill_rect` can take each quad of `qs` in turn: each is in range
    /// and the index count stays within `u32`.
    pub open spec fn can_push(self, qs: Seq<Quad>) -> bool {
        &&& self.indices.len() + 6 * qs.len() <= u32::MAX
        &&& forall|i: int| 0 <= i < qs.len() ==> quad_in_range(#[trigger] qs[i])
    }
}

/// Appending quads one list after another is appending their concatenation.
pub proof fn lemma_push_quads_append(v: UIBatchView, a: Seq<Quad>, b: Seq<Quad>)
    ensures
        v.push_quads(a).push_quads(b) == v.push_quads(a + b),
    decreases b.len(),
{
    if b.len() == 0 {
        assert(a + b =~= a);
    } else {
        lemma_push_quads_append(v, a, b.drop_last());
        assert((a + b).drop_last() =~= a + b.drop_last());
        assert((a + b).last() == b.last());
    }
}

/// `fill_rect` keeps a batch made of whole quads whose indices name its own
/// vertices, adds four vertices and six indices numbered from a 16-bit base
/// that does not overflow, and, when the vertex buffer had room for four more
/// vertices, can take the quad and leaves both buffers within their size.
pub proof fn lemma_push_quad_well_formed(v: UIBatchView, q: Quad)
    requires
        v.well_formed(),
    ensures
        v.push_quad(q).well_formed(),
        v.push_quad(q).vertices.len() == v.vertices.len() + 4,
        v.push_quad(q).indices.len() == v.indices.len() + 6,
        v.vertices.len() % 0x1_0000 + 3 <= u16::MAX,
        v.vertices.len() + 4 <= MAX_UI_VERTICES ==> {
            &&& v.indices.len() + 6 <= u32::MAX
            &&& v.push_quad(q).vertices.len() <= MAX_UI_VERTICES
            &&& v.push_quad(q).indices.len() <= MAX_UI_VERTICES / 4 * 6
            &&& MAX_UI_VERTICES / 4 * 6 <= MAX_UI_INDICES
        },
{
    let n = v.vertices.len() as int;
    let p = v.push_quad(q);
    let base = n % 0x1_0000;
    assert(base <= n && base <= 0xFFFC) by (nonlinear_arith)
        requires
            n % 4 == 0,
            n >= 0,
            base == n % 0x1_0000,
    ;
    assert((n + 4) / 4 * 6 == n / 4 * 6 + 6) by (nonlinear_arith)
        requires
            n % 4 == 0,
            n >= 0,
    ;
    assert forall|i: int| 0 <= i < p.indices.len() implies (#[trigger] p.indices[i]) < p.vertices.len() by {
        if i >= v.indices.len() {
            assert(p.indices[i] == quad_indices(base)[i - v.indices.len()]);
        }
    }
    if n + 4 <= MAX_UI_VERTICES {
        assert((n + 4) / 4 * 6 <= 6144int) by (nonlinear_arith)
            requires
                n + 4 <= 4096,
                n >= 0,
        ;
    }
}

/// A call of `fill_rect` keeps what the batch held and appends four vertices,
/// the corners of the rectangle clockwise from its top-left one in its colour,
/// and six indices that name only those four vertices, counted from the 16-bit
/// index of the first of them, and name each of them.
pub proof fn lemma_quad_names_own_vertices(v: UIBatchView, q: Quad)
    requires
        v.vertices.len() % 4 == 0,
        quad_in_range(q),
    ensures
        ({
            let p = v.push_quad(q);
            let n = v.vertices.len() as int;
            let m = v.indices.len() as int;
            let base = n % 0x1_0000;
            let added = p.indices.subrange(m, m + 6);
            &&& p.vertices.len() == n + 4
            &&& p.indices.len() == m + 6
            &&& p.vertices.subrange(0, n) == v.vertices
            &&& p.indices.subrange(0, m) == v.indices
            &&& p.width == v.width && p.height == v.height
            &&& forall|j: int| 0 <= j < 6 ==> base <= #[trigger] added[j] < base + 4
            &&& added.contains(base as u16)
            &&& added.contains((base + 1) as u16)
            &&& added.contains((base + 2) as u16)
            &&& added.contains((base + 3) as u16)
            &&& p.vertices[n] == UIVertex { x: q.x, y: q.y, color: q.color }
            &&& p.vertices[n + 1].x == q.x + q.w && p.vertices[n + 1].y == q.y
            &&& p.vertices[n + 2].x == q.x + q.w && p.vertices[n + 2].y == q.y + q.h
            &&& p.vertices[n + 3].x == q.x && p.vertices[n + 3].y == q.y + q.h
            &&& forall|c: int| 0 <= c < 4 ==> (#[trigger] p.vertices[n + c]).color == q.color
        }),
{
    let p = v.push_quad(q);
    let n = v.vertices.len() as int;
    let m = v.indices.len() as int;
    let base = n % 0x1_0000;
    let added = p.indices.subrange(m, m + 6);
    assert(base <= 0xFFFC) by (nonlinear_arith)
        requires
            n % 4 == 0,
            n >= 0,
            base == n % 0x1_0000,
    ;
    assert(p.vertices.subrange(0, n) =~= v.vertices);
    assert(p.indices.subrange(0, m) =~= v.indices);
    assert(added =~= quad_indices(base));
    assert(added[0] == base as u16);
    assert(added[1] == (base + 1) as u16);
    assert(added[4] == (base + 2) as u16);
    assert(added[2] == (base + 3) as u16);
}

/// `stroke_rect` appends what four `fill_rect` calls append: the top, bottom,
/// left and right edges, sixteen vertices and twenty-four indices in all. It
/// keeps a batch made of whole quads and, when the vertex buffer had room for
/// sixteen more vertices, leaves both buffers within their size.
pub proof fn lemma_stroke_is_four_fills(
    v: UIBatchView,
    x: i64,
    y: i64,
    w: i64,
    h: i64,
    t: i64,
    color: ColorBits,
)
    ensures
        v.push_quads(stroke_quads(x, y, w, h, t, color)) == v.push_quad(
            Quad { x, y, w, h: t, color },
        ).push_quad(Quad { x, y: (y + h - t) as i64, w, h: t, color }).push_quad(
            Quad { x, y: (y + t) as i64, w: t, h: (h - 2 * t) as i64, color },
        ).push_quad(Quad { x: (x + w - t) as i64, y: (y + t) as i64, w: t, h: (h - 2 * t) as i64, color }),
        v.push_quads(stroke_quads(x, y, w, h, t, color)).vertices.len() == v.vertices.len() + 16,
        v.push_quads(stroke_quads(x, y, w, h, t, color)).indices.len() == v.indices.len() + 24,
        v.well_formed() ==> v.push_quads(stroke_quads(x, y, w, h, t, color)).well_formed(),
        v.well_formed() && v.vertices.len() + 16 <= MAX_UI_VERTICES ==> {
            &&& v.indices.len() + 24 <= u32::MAX
            &&& v.push_quads(stroke_quads(x, y, w, h, t, color)).vertices.len() <= MAX_UI_VERTICES
            &&& v.push_quads(stroke_quads(x, y, w, h, t, color)).indices.len() <= MAX_UI_INDICES
        },
{
    let qs = stroke_quads(x, y, w, h, t, color);
    reveal_with_fuel(UIBatchView::push_quads, 5);
    assert(qs.drop_last().drop_last().drop_last().drop_last() =~= Seq::<Quad>::empty());
    if v.well_formed() {
        let v1 = v.push_quad(qs[0]);
        let v2 = v1.push_quad(qs[1]);
        let v3 = v2.push_quad(qs[2]);
        lemma_push_quad_well_formed(v, qs[0]);
        lemma_push_quad_well_formed(v1, qs[1]);
        lemma_push_quad_well_formed(v2, qs[2]);
        lemma_push_quad_well_formed(v3, qs[3]);
    }
}

/// If a batch can take `a + b`, it can take `a`, and after `a` it can take `b`.
pub proof fn lemma_can_push_split(v: UIBatchView, a: Seq<Quad>, b: Seq<Quad>)
    requires
        v.can_push(a + b),
    ensures
        v.can_push(a),
        v.push_quads(a).can_push(b),
{
    lemma_push_quads_len(v, a);
    assert forall|i: int| 0 <= i < a.len() implies quad_in_range(
        #[trigger] a[i],
    ) by {
        assert((a + b)[i] == a[i]);
    }
    assert forall|i: int| 0 <= i < b.len() implies quad_in_range(
        #[trigger] b[i],
    ) by {
        assert((a + b)[a.len() + i] == b[i]);
    }
}

/// Pushing quads keeps the surface size and adds four vertices and six indices
/// per quad.
pub proof fn lemma_push_quads_len(v: UIBatchView, qs: Seq<Quad>)
    ensures
        v.push_quads(qs).vertices.len() == v.vertices.len() + 4 * qs.len(),
        v.push_quads(qs).indices.len() == v.indices.len() + 6 * qs.len(),
        v.push_quads(qs).width == v.width,
        v.push_quads(qs).height == v.height,
    decreases qs.len(),
{
    if qs.len() > 0 {
        lemma_push_quads_len(v, qs.drop_last());
    }
}

/// When a frame holds fewer than 65 536 vertices, every index points at one of
/// them, and quad `k`'s six indices point at its own four vertices.
pub proof fn lemma_indices_in_bounds(width: u32, height: u32, qs: Seq<Quad>)
    requires
        4 * qs.len() <= 0x1_0000,
    ensures
        ({
            let v = UIBatchView::empty(width, height).push_quads(qs);
            forall|k: int, j: int|
                0 <= k < qs.len() && 0 <= j < 6 ==> 4 * k <= #[trigger] v.indices[6 * k + j] < 4 * k + 4
        }),
    decreases qs.len(),
{
    let e = UIBatchView::empty(width, height);
    if qs.len() > 0 {
        lemma_indices_in_bounds(width, height, qs.drop_last());
        lemma_push_quads_len(e, qs.drop_last());
        let prev = e.push_quads(qs.drop_last());
        let n = qs.len() - 1;
        assert(prev.vertices.len() == 4 * n);
        assert forall|k: int, j: int|
            0 <= k < qs.len() && 0 <= j < 6 implies 4 * k <= #[trigger] e.push_quads(qs).indices[6 * k
            + j] < 4 * k + 4 by {
            if k < n {
                assert(e.push_quads(qs).indices[6 * k + j] == prev.indices[6 * k + j]);
            } else {
                assert(6 * k + j - prev.indices.len() == j);
            }
        }
    }
}

/// Twice the signed area of the triangle (`a`, `b`, `c`) in pixel coordinates.
pub open spec fn winding(a: UIVertex, b: UIVertex, c: UIVertex) -> int {
    (b.x - a.x) * (c.y - a.y) - (b.y - a.y) * (c.x - a.x)
}

/// The two triangles of a quad of positive size wind the same way.
pub proof fn lemma_quad_triangles_same_winding(q: Quad)
    requires
        q.w > 0,
        q.h > 0,
        quad_in_range(q),
    ensures
        ({
            let v = quad_vertices(q);
            &&& winding(v[0], v[1], v[3]) > 0
            &&& winding(v[1], v[2], v[3]) > 0
        }),
{
    let v = quad_vertices(q);
    let (x, y, w, h) = (q.x as int, q.y as int, q.w as int, q.h as int);
    assert(v[0].x == x && v[0].y == y);
    assert(v[1].x == x + w && v[1].y == y);
    assert(v[2].x == x + w && v[2].y == y + h);
    assert(v[3].x == x && v[3].y == y + h);
    assert(w * h > 0 && (x + w - x) * (y + h - y) - (y - y) * (x - x) == w * h && (x + w - (x + w)) * (
    y + h - y) - (y + h - y) * (x - (x + w)) == w * h) by (nonlinear_arith)
        requires
            w > 0,
            h > 0,
    ;
}

/// The CPU side of the UI layer: the vertices and indices of the solid
/// rectangles drawn in the current frame.
pub struct UIRenderer {
    vertices: Vec<UIVertex>,
    indices: Vec<u16>,
    num_indices: u32,
    width: u32,
    height: u32,
}

impl View for UIRenderer {
    type V = UIBatchView;

    closed spec fn view(&self) -> UIBatchView {
        UIBatchView {
            vertices: self.vertices@,
            indices: self.indices@,
            width: self.width,
            height: self.height,
        }
    }
}

impl UIRenderer {
    /// The vertex count is a multiple of four and the index counter matches the
    /// indices.
    pub closed spec fn wf(&self) -> bool {
        &&& self@.well_formed()
        &&& self.num_indices == self.indices@.len()
    }

    /// An empty batch for a surface of `width` x `height` pixels.
    pub fn new(width: u32, height: u32) -> (r: Self)
        ensures
            r.wf(),
            r@.well_formed(),
            r@ == UIBatchView::empty(width, height),
    {
        let r = UIRenderer {
            vertices: Vec::new(),
            indices: Vec::new(),
            num_indices: 0,
            width,
            height,
        };
        assert(r@ =~= UIBatchView::empty(width, height));
        r
    }

    /// Starts a frame: drops the geometry of the previous one and records the
    /// surface size.
    pub fn begin_frame(&mut self, width: u32, height: u32)
        ensures
            final(self).wf(),
            final(self)@.well_formed(),
            final(self)@ == UIBatchView::empty(width, height),
    {
        self.vertices.clear();
        self.indices.clear();
        self.num_indices = 0;
        if width != self.width || height != self.height {
            self.width = width;
            self.height = height;
        }
        assert(self@ =~= UIBatchView::empty(width, height));
    }

    /// Appends a solid rectangle at (`x`, `y`) of size `w` x `h`.
    pub fn fill_rect(&mut self, x: i64, y: i64, w: i64, h: i64, color: ColorBits)
        requires
            old(self).wf(),
            quad_in_range(Quad { x, y, w, h, color }),
            old(self)@.indices.len() + 6 <= u32::MAX,
        ensures
            final(self).wf(),
            final(self)@.well_formed(),
            final(self)@ == old(self)@.push_quad(Quad { x, y, w, h, color }),
    {
        proof {
            lemma_push_quad_well_formed(self@, Quad { x, y, w, h, color });
        }
        let ghost q = Quad { x, y, w, h, color };
        let ghost v0 = self@;
        let len = self.vertices.len();
        let base = (len % 0x1_0000) as u16;
        assert(base + 3 <= u16::MAX) by {
            assert(len % 4 == 0 ==> len % 0x1_0000 <= 0xFFFC) by (nonlinear_arith);
        }
        self.vertices.push(UIVertex { x, y, color });
        self.vertices.push(UIVertex { x: x + w, y, color });
        self.vertices.push(UIVertex { x: x + w, y: y + h, color });
        self.vertices.push(UIVertex { x, y: y + h, color });

        self.indices.push(base);
        self.indices.push(base + 1);
        self.indices.push(base + 3);
        self.indices.push(base + 1);
        self.indices.push(base + 2);
        self.indices.push(base + 3);

        self.num_indices = self.num_indices + 6;
        assert(self@.vertices =~= v0.vertices + quad_vertices(q));
        assert(self@.indices =~= v0.indices + quad_indices(v0.vertices.len() as int % 0x1_0000));
    }

    /// Appends the outline of the rectangle at (`x`, `y`) of size `w` x `h`,
    /// `thickness` pixels wide, as four solid rectangles.
    pub fn stroke_rect(&mut self, x: i64, y: i64, w: i64, h: i64, thickness: i64, color: ColorBits)
        requires
            old(self).wf(),
            stroke_in_range(x, y, w, h, thickness),
            old(self)@.indices.len() + 24 <= u32::MAX,
        ensures
            final(self).wf(),
            final(self)@.well_formed(),
            final(self)@ == old(self)@.push_quads(stroke_quads(x, y, w, h, thickness, color)),
    {
        let t = thickness;
        self.fill_rect(x, y, w, t, color);
        self.fill_rect(x, y + h - t, w, t, color);
        self.fill_rect(x, y + t, t, h - 2 * t, color);
        self.fill_rect(x + w - t, y + t, t, h - 2 * t, color);
        proof {
            let qs = stroke_quads(x, y, w, h, thickness, color);
            reveal_with_fuel(UIBatchView::push_quads, 5);
            assert(qs.drop_last().drop_last().drop_last().drop_last() =~= Seq::<Quad>::empty());
        }
    }

    /// The vertices collected in this frame.
    pub fn vertices(&self) -> (r: &[UIVertex])
        ensures
            r@ == self@.vertices,
    {
        self.vertices.as_slice()
    }

    /// The indices collected in this frame.
    pub fn indices(&self) -> (r: &[u16])
        ensures
            r@ == self@.indices,
    {
        self.indices.as_slice()
    }

    /// The number of indices collected in this frame.
    pub fn num_indices(&self) -> (r: u32)
        requires
            self.wf(),
        ensures
            r == self@.indices.len(),
    {
        self.num_indices
    }

    /// The surface size recorded by the last `begin_frame`.
    pub fn size(&self) -> (r: (u32, u32))
        ensures
            r == (self@.width, self@.height),
    {
        (self.width, self.height)
    }
}

} // verus!
