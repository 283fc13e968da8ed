# easymill

The verified core of a PCB milling pipeline: Gerber and Excellon files are
rendered into aligned layer pictures, and a picture of copper is turned into
G-code toolpaths.

## Layout

- `src/` — the library, verified with Verus.
  - `stackup.rs` — loaded layer files, their detected and chosen category and
    side, and the files each milling step uses.
  - `pipeline.rs` — the application's state machine: every event (user input
    or finished background work) leads to a new state and an action for the
    caller.
  - `gerber.rs` — the Gerber command interpreter: units, apertures,
    aperture blocks, modes, regions and step-and-repeat, turned into drawing
    primitives.
  - `macro_expr.rs` — aperture-macro expressions: tokens and their reverse
    Polish order.
  - `excellon.rs` — recognising and reading Excellon drill files.
  - `conversion.rs` — render jobs, raster size limits, and how each layer
    picture is finished and named.
  - `raster.rs` — grayscale pictures: inversion, mirroring, hole filling,
    thresholding, dark runs.
  - `edges.rs` — boundary detection, orientation and contour tracing on a
    material mask, and the row pass of the distance transform.
  - `mods.rs` — the small server that hands pictures to mods: which file a
    request asks for, and the reply header.
  - `text.rs` — character helpers shared by the text formats.
- `app/` — a command-line front end: file and network I/O, and the
  floating-point geometry (tessellation, rasterising, distance transform
  column pass, path straightening, G-code writing).
- `tests/` — tests of the library.
