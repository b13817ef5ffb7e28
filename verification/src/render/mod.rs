pub mod font_atlas;
pub mod glyph_cache;
pub mod text_render;
pub mod text_vertex;

use vstd::prelude::*;

use crate::render::text_render::TextRenderer;
use crate::ui::renderer::UIRenderer;

verus! {

/// An RGBA colour whose four components are kept as the bit patterns of
/// IEEE-754 single-precision numbers, as the GPU reads them.
#[derive(Clone, Copy, Debug, PartialEq, Eq, Structural, Default)]
pub struct ColorBits {
    pub r: u32,
    pub g: u32,
    pub b: u32,
    pub a: u32,
}

/// Bit pattern of the single-precision number `0.0`.
pub const ZERO_BITS: u32 = 0x0000_0000;

/// Bit pattern of the single-precision number `1.0`.
pub const ONE_BITS: u32 = 0x3F80_0000;

/// The per-frame geometry batches of the UI layer and of the text layer.
pub struct RenderContext {
    pub ui: UIRenderer,
    pub text: TextRenderer,
}

impl RenderContext {
    /// Both batches are well formed.
    pub open spec fn wf(&self) -> bool {
        self.ui.wf() && self.text.wf()
    }

    /// Empty batches for a surface of `width` x `height` pixels.
    pub fn new(width: u32, height: u32) -> (r: Self)
        ensures
            r.wf(),
            r.ui@ == crate::ui::renderer::UIBatchView::empty(width, height),
            r.text@ == crate::render::text_render::TextBatchView::empty(width, height),
    {
        let ui = UIRenderer::new(width, height);
        let text = TextRenderer::new(width, height);
        RenderContext { ui, text }
    }
}

} // verus!
