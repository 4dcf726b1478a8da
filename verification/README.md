# projeto_cg

A small OpenGL scene of a gym (dumbbell, lat pulldown, bench, people),
split in two:

- `src/` — the verified library: reading Wavefront OBJ text
  (`objetos`), turning polygon faces into triangle lists and gathering the
  vertices they name (`faces`), the triangle order of cylinder meshes
  (`cilindro`), 4x4 matrix transposition (`alglin`), decoding texture
  files into the width, height and upside-down pixel rows that OpenGL takes
  (`textura`, through the `image` crate) and the scene's key handling and
  vertex-buffer layout (`cena`). Each public function states its
  result exactly; the `lema_*` proof functions state the laws that hold
  across calls.
- `app/` — the program: window and OpenGL calls, file reading, texture upload, and
  everything computed with `f32` (matrices, camera, cylinder coordinates).

Keys: `L` pulls the pulldown bar one step further (three steps at most),
`H` lets it back, `C`/`R` flex and relax the left person's arm one step,
`X`/`N` expand and contract the dumbbell one step, `P` switches between
filled and wireframe polygons, `Escape` closes the window.
