# xelgui

A small retained-widget GUI layer for wgpu, written in Verus.

The library (`src/`) holds the logic, each function with a contract that Verus
checks:

- `ui::debug` — the debug switch set (`UIDebugFlag`) and its union laws.
- `ui::widget` — `Rect`, the `Widget` trait (its behaviour described by spec
  functions that each widget defines), the built-in widgets `Rectangle`, `Vbox`
  (vertical stacking layout) and `Label`, and `Node`, any of them.
- `ui` — `UIRoot`, which draws its widgets bottom first and routes pointer
  events to the topmost widget hit.
- `ui::renderer` and `render::text_render` — the per-frame vertex and index
  batches of the UI and text layers, with pixel positions as integers and
  colours as single-precision bit patterns.
- `render::glyph_cache` — the shelf-packed RGBA glyph atlas: glyphs never
  overlap, and a stored bitmap reads back pixel for pixel.
- `render::font_atlas` — the parser of bitmap-font atlas descriptions.

Widgets are positioned in whole pixels; the library has no floating-point
widget set and no button widget. Containers hold `Node`, the enum of the
built-in widgets; `UIRoot` is generic over its widget type.

`app/` is the demo program: the winit event loop, the wgpu pipelines that
upload the batches, and the floating-point steps (projections, UV coordinates,
fontdue rasterisation) that Verus cannot hold.

The demo reads its text texture from `res/font_e.png` at start-up.
