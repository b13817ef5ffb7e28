use vstd::prelude::*;

use crate::render::text_vertex::{color_green, green, TextVertex};
use crate::render::{ONE_BITS, ZERO_BITS};
use crate::ui::renderer::fits_i64;

verus! {

/// The four vertices of a textured quad at (`x`, `y`) of size `w` x `h`, in
/// green, counter-clockwise from the top-left one in screen space, with the
/// whole texture mapped onto it.
pub open spec fn texture_quad_vertices(x: i64, y: i64, w: i64, h: i64) -> Seq<TextVertex> {
    seq![
        TextVertex { x, y, u_bits: ZERO_BITS, v_bits: ZERO_BITS, color: green() },
        TextVertex { x, y: (y + h) as i64, u_bits: ZERO_BITS, v_bits: ONE_BITS, color: green() },
        TextVertex {
            x: (x + w) as i64,
            y: (y + h) as i64,
            u_bits: ONE_BITS,
            v_bits: ONE_BITS,
            color: green(),
        },
        TextVertex { x: (x + w) as i64, y, u_bits: ONE_BITS, v_bits: ZERO_BITS, color: green() },
    ]
}

/// The two triangles of a textured quad whose first vertex has index `base`.
pub open spec fn texture_quad_indices(base: int) -> Seq<u16> {
    seq![
        base as u16,
        (base + 1) as u16,
        (base + 3) as u16,
        (base + 3) as u16,
        (base + 1) as u16,
        (base + 2) as u16,
    ]
}

/// The geometry of the text layer collected in the current frame.
pub struct TextBatchView {
    pub vertices: Seq<TextVertex>,
    pub indices: Seq<u16>,
    pub width: u32,
    pub height: u32,
}

impl TextBatchView {
    /// A frame with no geometry yet for a surface of `width` x `height` pixels.
    pub open spec fn empty(width: u32, height: u32) -> TextBatchView {
        TextBatchView { vertices: Seq::empty(), indices: Seq::empty(), width, height }
    }

    /// The batch after `draw_texture(x, y, w, h)`.
    pub open spec fn push_texture_quad(self, x: i64, y: i64, w: i64, h: i64) -> TextBatchView {
        TextBatchView {
            vertices: self.vertices + texture_quad_vertices(x, y, w, h),
            indices: self.indices + texture_quad_indices(self.vertices.len() as int % 0x1_0000),
            ..self
        }
    }
}

/// A call of `draw_texture` keeps what the batch held and appends four
/// vertices and six indices. The vertices are the four corners of the
/// rectangle, each once, in green, each carrying the texture coordinate of its
/// corner (0 on the left and top edges, 1 on the right and bottom ones). The
/// indices name only those four vertices, counted from the 16-bit index of the
/// first of them, and name each of them.
pub proof fn lemma_texture_quad_names_own_vertices(v: TextBatchView, x: i64, y: i64, w: i64, h: i64)
    requires
        v.vertices.len() % 4 == 0,
        fits_i64(x + w),
        fits_i64(y + h),
    ensures
        ({
            let p = v.push_texture_quad(x, y, w, h);
            let n = v.vertices.len() as int;
            let m = v.indices.len() as int;
            let base = n % 0x1_0000;
            let added = p.indices.subrange(m, m + 6);
            &&& p.vertices.len() == n + 4
            &&& p.indices.len() == m + 6
            &&& p.vertices.subrange(0, n) == v.vertices
            &&& p.indices.subrange(0, m) == v.indices
            &&& p.width == v.width && p.height == v.height
            &&& forall|j: int| 0 <= j < 6 ==> base <= #[trigger] added[j] < base + 4
            &&& added.contains(base as u16)
            &&& added.contains((base + 1) as u16)
            &&& added.contains((base + 2) as u16)
            &&& added.contains((base + 3) as u16)
            &&& forall|c: int|
                0 <= c < 4 ==> {
                    let t = #[trigger] p.vertices[n + c];
                    &&& (t.x == x && t.u_bits == ZERO_BITS) || (t.x == x + w && t.u_bits == ONE_BITS)
                    &&& (t.y == y && t.v_bits == ZERO_BITS) || (t.y == y + h && t.v_bits == ONE_BITS)
                    &&& t.color == green()
                }
            &&& forall|c1: int, c2: int|
                0 <= c1 < c2 < 4 ==> (#[trigger] p.vertices[n + c1].u_bits, p.vertices[n + c1].v_bits)
                    != (#[trigger] p.vertices[n + c2].u_bits, p.vertices[n + c2].v_bits)
        }),
{
    let p = v.push_texture_quad(x, y, w, h);
    let n = v.vertices.len() as int;
    let m = v.indices.len() as int;
    let base = n % 0x1_0000;
    let added = p.indices.subrange(m, m + 6);
    assert(base <= 0xFFFC) by (nonlinear_arith)
        requires
            n % 4 == 0,
            n >= 0,
            base == n % 0x1_0000,
    ;
    assert(p.vertices.subrange(0, n) =~= v.vertices);
    assert(p.indices.subrange(0, m) =~= v.indices);
    assert(added =~= texture_quad_indices(base));
    assert(added[0] == base as u16);
    assert(added[1] == (base + 1) as u16);
    assert(added[5] == (base + 2) as u16);
    assert(added[2] == (base + 3) as u16);
}

/// The CPU side of the text layer: the vertices and indices of the textured
/// quads drawn in the current frame.
pub struct TextRenderer {
    vertices: Vec<TextVertex>,
    indices: Vec<u16>,
    num_indices: u32,
    width: u32,
    height: u32,
}

impl View for TextRenderer {
    type V = TextBatchView;

    closed spec fn view(&self) -> TextBatchView {
        TextBatchView {
            vertices: self.vertices@,
            indices: self.indices@,
            width: self.width,
            height: self.height,
        }
    }
}

impl TextRenderer {
    /// The vertex count is a multiple of four and the index counter matches the
    /// indices.
    pub closed spec fn wf(&self) -> bool {
        &&& self.vertices@.len() % 4 == 0
        &&& self.num_indices == self.indices@.len()
    }

    /// An empty batch for a surface of `width` x `height` pixels.
    pub fn new(width: u32, height: u32) -> (r: Self)
        ensures
            r.wf(),
            r@ == TextBatchView::empty(width, height),
    {
        let r = TextRenderer {
            vertices: Vec::new(),
            indices: Vec::new(),
            num_indices: 0,
            width,
            height,
        };
        assert(r@ =~= TextBatchView::empty(width, height));
        r
    }

    /// Starts a frame: drops the geometry of the previous one and records the
    /// surface size.
    pub fn begin_frame(&mut self, width: u32, height: u32)
        ensures
            final(self).wf(),
            final(self)@ == TextBatchView::empty(width, height),
    {
        self.vertices.clear();
        self.indices.clear();
        self.num_indices = 0;
        if width != self.width || height != self.height {
            self.width = width;
            self.height = height;
        }
        assert(self@ =~= TextBatchView::empty(width, height));
    }

    /// Appends a green quad at (`x`, `y`) of size `w` x `h` showing the whole
    /// texture.
    pub fn draw_texture(&mut self, x: i64, y: i64, w: i64, h: i64)
        requires
            old(self).wf(),
            fits_i64(x + w),
            fits_i64(y + h),
            old(self)@.indices.len() + 6 <= u32::MAX,
        ensures
            final(self).wf(),
            final(self)@ == old(self)@.push_texture_quad(x, y, w, h),
    {
        let ghost v0 = self@;
        let len = self.vertices.len();
        let base = (len % 0x1_0000) as u16;
        assert(base + 3 <= u16::MAX) by {
            assert(len % 4 == 0 ==> len % 0x1_0000 <= 0xFFFC) by (nonlinear_arith);
        }
        let color = color_green();
        self.vertices.push(TextVertex { x, y, u_bits: ZERO_BITS, v_bits: ZERO_BITS, color });
        self.vertices.push(TextVertex { x, y: y + h, u_bits: ZERO_BITS, v_bits: ONE_BITS, color });
        self.vertices.push(TextVertex { x: x + w, y: y + h, u_bits: ONE_BITS, v_bits: ONE_BITS, color });
        self.vertices.push(TextVertex { x: x + w, y, u_bits: ONE_BITS, v_bits: ZERO_BITS, color });

        self.indices.push(base);
        self.indices.push(base + 1);
        self.indices.push(base + 3);
        self.indices.push(base + 3);
        self.indices.push(base + 1);
        self.indices.push(base + 2);

        self.num_indices = self.num_indices + 6;
        assert(self@.vertices =~= v0.vertices + texture_quad_vertices(x, y, w, h));
        assert(self@.indices =~= v0.indices + texture_quad_indices(v0.vertices.len() as int % 0x1_0000));
    }

    /// The vertices collected in this frame.
    pub fn vertices(&self) -> (r: &[TextVertex])
        ensures
            r@ == self@.vertices,
    {
        self.vertices.as_slice()
    }

    /// The indices collected in this frame.
    pub fn indices(&self) -> (r: &[u16])
        ensures
            r@ == self@.indices,
    {
        self.indices.as_slice()
    }

    /// The number of indices collected in this frame.
    pub fn num_indices(&self) -> (r: u32)
        requires
            self.wf(),
        ensures
            r == self@.indices.len(),
    {
        self.num_indices
    }

    /// The surface size recorded by the last `begin_frame`.
    pub fn size(&self) -> (r: (u32, u32))
        ensures
            r == (self@.width, self@.height),
    {
        (self.width, self.height)
    }
}

} // verus!
