# bevy_ui_render

The rendering side of a user interface for the Bevy engine, with the rules that decide what is
drawn, in which order and in which batches verified by Verus.

- `src/` is the verified library. It holds coordinates as the bits that encode them and compares
  and selects them; it computes none. Images, entities and bind groups are plain numbers there.
- `app/` holds the systems around it: they read the world, compute coordinates, and talk to the
  graphics device.
- `tests/` runs the library on concrete values, with the engine's own collections and graphs.
