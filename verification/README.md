# nesting_geometry

Geometry of irregular shapes for nesting problems. Shapes are simple polygons whose
sides are straight lines or circular arcs; an arc is given by its bulge, the tangent of
a quarter of its sweep.

* `src/num.rs` and `src/num/`: IEEE 754 binary64 numbers on integers, correctly rounded,
  so that everything above can be stated and proved down to the last bit, and how far
  results are from the exact ones.
* `src/math.rs`: sine, cosine and their kin, which callers supply.
* `src/geometry/`: points, edges, arcs, boundaries, polygons, their surrogates, and the
  modification of shapes.
* `src/io/`: import of external shapes, items and containers.
* `src/collision_detection/`: hazards of quadtree nodes.
* `src/probs/`: import of bin packing instances and solutions.
* `src/outside.rs`: calls into other crates, with what is relied on of them.
* `app/`: floating point, offsetting crates, serialisation, parallel imports, messages.

Finding poles of inaccessibility, hulls, poles and piers of surrogates, and offsetting are
left to functions that the caller passes in. Contracts say what they are asked and what
becomes of their answers.
