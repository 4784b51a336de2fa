# h3ron

Tools around the H3 hexagonal grid, with their logic verified by Verus.

- `src/` is the verified library:
  - `index`: H3 cell indexes: resolution, parents and children relations
    (with proofs that the parent relation is reflexive, transitive and never
    goes finer), hexadecimal text, grouping by resolution, and the handling
    of the buffers that the H3 C library fills for ring queries.
  - `geo`: integer-grid geometry: rectangles, the dateline test for cell
    polygons, and the `Circle` ring generator used when rasterising.
  - `error`, `index_error`: error types and their messages.
- `app/` holds what runs outside the verifier: the calls into the H3 C
  library and GDAL, floating-point area computations, and serialisation.
- `tests/` runs the library on concrete values.
