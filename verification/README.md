# runebender

The data model of a font editor, with its logic verified by Verus.

- `src/outline.rs`: turns a glyph's contours, given by the kinds of their
  points, into bezier drawing commands that name the points they draw to;
  checks which contours can be drawn; the placeholder outline.
- `src/font.rs`: the font being edited (a `norad::Ufo`), the glyphs open in
  editing sessions, and the resolution of a glyph's outline with the outlines
  of its components, each placed under the components that use it.
- `src/modal.rs`: which events open or dismiss a modal dialog and which
  widgets each event reaches.
- `src/save.rs`: the order of the steps of saving a font, and the name of the
  temporary file it is first written to.
- `app/`: the GUI widgets, the file operations and the floating-point
  geometry (point coordinates, component transformations, metrics), which
  use the library's decisions.
