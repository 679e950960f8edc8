# zonalrust

Reading the inputs of a zonal-statistics tool: the command line, raster
metadata and cell files, and vector geometries in well-known text (WKT).

The library under `src/` is verified with Verus:

- `config.rs`: the command line, read into a `Config` or refused with an error
  that ends with the usage text; `config_laws.rs` proves properties of it.
- `wkt.rs`: reading WKT points, line strings and polygon rings. Coordinates
  are kept as the text of `f64` values, checked against the grammar that the
  standard library documents for `f64::from_str`. Polygon rings are read as
  written; whether a ring closes is a float comparison that `app/` makes
  before it accepts a polygon. `wkt_laws.rs` proves that written points and
  line strings, and the rings of a written polygon, read back unchanged.
- `raster.rs`: the metadata fields, the size checks on the cell file, and a
  row-major `Grid<T>` of cells with windowed reads; `raster_laws.rs`.
- `text.rs` and `number.rs`: trimming, splitting, prefixes and suffixes,
  decimal formatting, and the integer and float text grammars, each stated as a
  spec function.

`app/` is the program around it: file I/O, the conversion of coordinate and
georeference text to floating point, and the float arithmetic of raster
look-ups (cell indices from coordinates, bounding boxes, means) and of polygon
ring closure.
