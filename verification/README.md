# parametric_meshes

Procedurally generated triangle meshes (a barn-shaped prism, a cone, a vase
turned on a lathe, and a flat disc) and the key handling of the viewer that
shows them, verified with Verus.

- `src/` is the verified library. Each `make_*` function returns a
  descriptor per vertex (what the vertex stands for) and the `u16` index
  buffer of the triangle list. The contracts give every vertex and every
  triangle exactly, and state that every index names an existing vertex
  and that no triangle repeats a vertex (from two rim points, slices or
  sectors on). For the cone, the vase and the disc they also state that
  every directed edge, except those along the open rims, is walked the
  other way by some triangle; the barn, whose walls have vertices of their
  own, is not stated to have that property.
  - `topology.rs`: reading an index buffer as triangles; the shared properties.
  - `band.rs`: bands of quads between consecutive rings of vertices.
  - `barn.rs`, `cone.rs`, `vase.rs`, `disc.rs`: the four shapes.
  - `viewer.rs`: which key does what, and which mesh is on show.
- `app/` is the window, the GPU pipeline and the floating-point side: vertex
  positions and colours, the camera and the model scale.
- `tests/` runs the library on concrete shapes.
