# vulkan_todo

A to-do list drawn with Vulkan, split into a verified library (`src/`) and the program
around it (`app/`).

- `src/todos.rs`: the list model, its `flag<TAB>text` save format, keyboard editing, and
  the laws that tie them together (saving and loading round-trips, every operation keeps
  item texts clean and the input within 80 drawable characters).
- `src/text.rs`: drawable characters, Unicode whitespace and trimming.
- `src/font.rs`, `src/atlas.rs`: the 8x8 font and the glyph-atlas texture layout.
- `src/snapshot.rs`: the PPM image of a frame read back from the GPU.
- `src/widgets.rs`, `src/clock.rs`: the caret blink and the clock it reads.
- `app/`: window and input (winit), rendering (vulkano), screen layout and file I/O.
