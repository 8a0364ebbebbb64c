# blitz_layout

Verified pieces of a CSS layout and rendering engine, written in Verus.

- `src/table.rs` walks a table's box tree (rows, row groups, cells, and
  block-level boxes standing for anonymous cells) and produces the CSS grid the
  table is laid out as: columns, row count, gap, collapsed outer border, and each
  cell's grid placement. Its contract is an exact specification of the walk;
  laws state that grid rows are table rows plus anonymous cells, that every item
  spans 1 to 65534 rows, that a table of only block-level boxes gets one
  full-width column, that a row group walks its children in document order, and
  that the walk only appends and keeps the first borders it finds.
- `src/border.rs` computes used border widths (in app units) and the widths a
  border contributes to a collapsed grid.
- `src/span.rs` parses span attributes exactly as `str::parse::<u16>` does.
- `src/filters.rs` converts a `filter` list into a chain of effects whose lengths
  are marked for the device scale.
- `src/cull.rs` decides which elements are painted: each is culled by its
  scrollable overflow grown by the document's ink margin. Laws state that no ink
  reaching the clip is lost and that the margin is exactly the widest reach.

Lengths that are floating point in the engine are carried as `f32` bit patterns;
the arithmetic on them happens in `app/`, which also converts between the
library's values and those of stylo, taffy and anyrender.
