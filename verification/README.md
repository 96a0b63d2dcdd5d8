# range2d

`Range2D` walks the `(y, x)` cells of a rectangle given by two ranges, row by
row from top to bottom and, within a row, from left to right. It can be walked
from both ends, skipped ahead, rewound, and split into parts for parallel work.

- `src/idx.rs`: the `Idx` trait for the coordinate type, with its impls for
  every primitive integer type.
- `src/grid.rs`: the abstract state of a walk (`GridView`): the rectangle, the
  row-by-row numbering of its cells, and the window of positions still to visit.
- `src/lib.rs`: `Range2D` and its operations, each specified over `GridView`.
- `src/laws.rs`: properties of the numbering (row-major order, coverage,
  no repeated cell).
- `app/lib.rs`: the standard iterator traits, through the `Coords` wrapper.
