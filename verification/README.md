# osm_pbf_benchmark

Bounding boxes and element counts of OpenStreetMap PBF files, computed with
three decoder crates (`osmpbf`, `osmpbfreader`, `osm-pbf-reader`), written
in Verus and verified.

- `src/` is the verified library: the statistics and bounding-box types,
  what one decoded block or object adds to them, the laws that make the
  result independent of block order and grouping, and one module per decoder
  crate whose element iteration stands behind a small trusted wrapper.
- `app/` runs the Criterion benchmarks: it streams the map files through the
  decoders, hands blocks out to rayon's threads, and prints the results.
- `tests/` exercises the library with the real decoders on two small PBF
  files embedded as bytes.

The map files (`liechtenstein-latest.osm.pbf`,
`ireland-and-northern-ireland-latest.osm.pbf`) are looked up in the directory
the benchmarks run in.
