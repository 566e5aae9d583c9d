# boxdraw

A small editor for drawing boxes and text on a grid of characters, verified with Verus.

`src/` is the verified library:

- `text_area`: grid coordinates, rectangles, and the editable grid with its cursor
  (`TextArea`), stored as a map from positions to characters.
- `keymap`: input modes, actions, and the AZERTY key bindings (`keymap::azerty`).
- `pragmata_pro_input`: codes that name the extra line glyphs of the PragmataPro font.
- `canvas`: the frame buffer, glyph blending, cell inversion for the cursor, and the
  rendering of the three text areas of the window.
- `editor`: the editor's state between window events and what each key does to it.
- `chars`: the few std character and string calls the library relies on, with their
  contracts.

`app/` is the program around it: command-line arguments, the window and its event loop,
font loading and glyph rasterization (floating-point font sizes), and presenting the
frame.
