# swl

A minimal tiling Wayland compositor. The library under `src/` decides what happens: which
workspace is where, how windows are tiled, what is drawn and what input means. It is verified
with Verus. The program under `app/` opens devices, speaks the Wayland protocols and carries
out what the library decides.

- `utils/`: points, rectangles and coordinate systems, texts, lists and tables.
- `shell/`: workspaces, tiling and tabs, virtual outputs, hit tests, and what is drawn.
- `input/`: key bindings, actions and input events.
- `backend/`: graphics devices, connectors and modes, frame scheduling, renderers, the pointer.
- `wayland/`: output configuration, popup grabs, idle inhibition, buffer imports.
- `state.rs`: what happens when clients and devices do something.
- `environment.rs`, `startup.rs`: the session around the compositor.

The library does no I/O and has no floating-point numbers. Windows, surfaces and outputs are
numbers to it, points are whole pixels, and scales are counted in 256ths. What it wants done,
it returns as commands, effects and actions.
