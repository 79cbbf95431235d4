# space_travel

A CPU software renderer for a small solar system with a Snoopy ship, and a
procedural-star lab. The crate is split in two:

- `src/` is the verified library. It holds everything about the
  renderer that is not floating-point arithmetic:
  - `text`: whitespace tokenisation with line numbers, and decimal integer
    parsing with the semantics of `str::parse` for `isize` and `u32`;
  - `mtl`: finding the diffuse colour line of a material file;
  - `obj_loader`: the scene's Wavefront OBJ reader (vertex lines, polygon
    lines with 1-based or negative corners fanned into triangles, short
    polygons reported by line);
  - `framebuffer`: the scene's RGBA framebuffer with a depth buffer;
  - `scene`: UV-sphere triangles and the fixed star field;
  - `shader`: which surface shader a fragment gets;
  - `planet_lab`: the lab's ARGB framebuffer, strict OBJ reader, mesh,
    colour packing and bitmap-font HUD.

  - `depth`: the `u32` order key of a depth, from its IEEE-754 bits; keys
    compare as the depths do (smaller is nearer), positive infinity is
    `FAR_DEPTH` and NaN never passes a depth test.
- `app/` is the program around it: windows (raylib, minifb), file reading,
  projection, rasterisation, and the floating-point shaders.

The planets' and moons' orbit guides are not drawn: the program has no
line rasteriser. The planet lab's HUD text (`planet_lab::hud`) is verified
but no window of the program shows it.

Tests are under `tests/`.
