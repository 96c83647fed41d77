# pixel_app

A web application for drawing small pixel-art images and animations, frame by
frame, and for cutting views out of uploaded videos.

- `src/` is the verified library: colour codes and colour substitutions,
  query-string parsing, the RGBA canvas and the painting of stored pixels as
  blocks, GIF frame orders, PNG and GIF encoding, frame planning and file
  names for uploaded videos, and the records the database stores.
- `app/` is the server around it: the command line, the HTTP routes, the
  SQLite queries, templates, video processing with `ffmpeg`, and the
  floating-point colour blending and animation drawing.
- `tests/` runs the library on concrete values.

Run the server with `--port <port>` (default 8888) and `--debug`.
