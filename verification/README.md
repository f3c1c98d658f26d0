# nanachi

Path flattening and line rasterisation, verified with Verus.

* `src/` is the verified library. Coordinates are held as the binary64
  encodings of the numbers they stand for and compared as IEEE-754 compares
  them (`point`). On top of that: the direction between two points and the
  drawing order of a line's end points (`direction`), the flattening of a
  path's curves into lines from given approximation points (`path_flatten`),
  and pixel drawing on a grayscale coverage mask of the `image` crate
  (`mask`, `draw_path`).
* `app/` is the floating-point side: `f64` points and path items, curve
  approximation with `lyon_geom`, the diagonal line walk, arc drawing, blending
  and the pixel compositors. It calls the library for the coordinate
  comparisons, the direction and drawing order of a line, the flattening of
  paths, and every pixel it draws or pairs up; the diagonal walk's loop
  around the library's single steps stays with the floating-point test that
  steers it.
* `tests/` runs the library on concrete values.
