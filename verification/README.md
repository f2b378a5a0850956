# winpanes

A tiling frame for desktop windows: a frame window is split into panels
(2x2, two columns or two rows) and other applications' windows are docked into
the panels by dragging them there.

- `src/` is the verified library (Verus):
  - `layout` – presets, rectangles and the split of a frame's body into panels;
  - `dock` – the per-frame ledger of docked windows, locks and the maximized panel;
  - `config` – the saved frame records;
  - `frame` – frame state, toolbar/button geometry, hit testing and the frame commands;
  - `drag` – drop targets, the drop highlight and what a drop does;
  - `paint` – the drawing operations of a frame;
  - `win_util` – DPI scaling, which windows may be managed, and the colour palette.
- `app/` is the Windows program around it: window classes and procedures,
  hooks, GDI painting, the tray icon, and reading/writing `config.toml`.
- `tests/` exercises the library.
