# software_rasterizer

A terminal software rasterizer. The library in `src/` is verified with Verus:

- `pixel`, `screen`: the pixel buffer (with a depth value of any type per pixel),
  clearing, painting single pixels and grey shading;
- `frame`: the byte stream that draws a screen with ANSI colours and
  lower-half-block characters, two pixel rows per terminal row;
- `triangle`: triangles, and clipping a triangle against a plane into zero,
  one or two triangles;
- `text`, `obj`: splitting text into lines and words, reading decimal integers,
  and reading Wavefront OBJ geometry (vertex coordinate words and fanned
  triangle faces).

`app/` holds the interactive viewer: terminal I/O, timing, and all `f32`
geometry (vectors, quaternions, the camera, rasterizing into the depth buffer).
