# sbsampling

Sequence-based spatially balanced sampling on the sphere: the integer core of
an exact-area GRTS sampler, verified with Verus.

A sample is drawn by taking the first `n` points of a two-dimensional Sobol
sequence (Van der Corput and the Joe-Kuo dimension of `x + 1`), Owen
scrambling each coordinate with a seed-derived Laine-Karras hash, and
interleaving the two coordinates into a Morton code. The top 53 bits of that
code give each point a target along the cumulative area of the sampling
frame; a quadtree over (longitude, sine of latitude) routes each target to a
location.

## Layout

- `src/` — the verified library:
  - `bits.rs` — bit reversal of 32-bit words;
  - `hash.rs` — Laine-Karras hash, dimension seeds, Owen scramble, seed folding,
    and the proofs that Owen scrambling permutes the dyadic intervals of every
    length;
  - `sobol.rs` — direction numbers and Sobol coordinates, Van der Corput and
    GF(2)-linearity laws;
  - `morton.rs` — Morton interleaving and its prefix law;
  - `sampler.rs` — sample size check, the 53-bit curve keys of the sample,
    prefix stability;
  - `balance.rs` — the first `4^k` points occupy distinct depth-`k` cells;
  - `ranking.rs` — the GRTS order (stable sort of the keys) and ranks;
  - `quadtree.rs` — partition of a cell's points among its four children;
  - `clip.rs` — the Sutherland-Hodgman plan of a ring clipped to a half-plane;
  - `shape.rs` — the polygon/ring structure of a sampling frame;
  - `frame.rs` — the frame read from its WKB bytes (the reader is called
    behind one trusted function), its polygons and signed rings.
- `tests/` — tests run against the compiled library.
- `app/` — the R interface (extendr): the coordinates of the frame, the
  floating-point geometry (densification, clipping arithmetic, areas, quadtree cell bounds)
  and the data frame returned to R.
