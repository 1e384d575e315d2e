# utiles

Web-mercator XYZ tile utilities with their integer arithmetic verified by
Verus: tile identity and order, parents, children, siblings and neighbours,
quadkeys, PMTiles tile ids (Hilbert order within a zoom), zoom sets,
tile-set simplification, tile-format sniffing, and the plain computations
behind MBTiles files (statement text, per-zoom statistics, index checks,
database paths, filling in a missing zoom range in the metadata, deciding
whether a database is an MBTiles file).

Layout:

- `src/` — the verified library. Each function states its result in its
  contract; laws that relate several functions are public proof functions
  (`lemma_*`). The only calls that are trusted rather than proved are the
  Hilbert-curve conversions of the `fast_hilbert` crate and
  `std::path::Path::file_name`, each behind one small wrapper.
- `tests/` — the unit tests.
- `app/` — what talks to the outside world: the Python module (pyo3), MBTiles
  files in SQLite (rusqlite), JSON (serde), and the floating-point
  longitude/latitude geometry.
