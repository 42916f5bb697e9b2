# terminal3d

A software rasterizer that draws spinning 3D meshes as coloured characters in a
terminal.

The library under `src/` holds the parts whose behaviour is stated and proved:

- `text`: splitting lines into words at Unicode white space, and reading unsigned
  integers.
- `obj`: the lines of OBJ and MTL files, face corners, material libraries and
  names.
- `loader`: reading an OBJ file line by line into a mesh, sharing one point among
  the corners at the same grid position.
- `entity`, `algebra`: material colours, triangles and meshes.
- `render`: packed screen cells, decimal numbers and terminal escapes, the frame
  buffer and the bytes that draw a frame (whole or only what changed), the depth
  buffer, the integer set-up of a screen triangle, the shading ramp, and the
  hand-out of screen tiles to workers.

`app/` is the program around it: floating-point geometry and lighting, file and
terminal input and output, and the main loop.
