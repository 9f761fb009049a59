# velo-de

Velo-de is a Wayland desktop environment built around a 2D grid of
horizontally scrolling "Spaces", with an Overview that zooms out over the
grid, a Hyprland-compatible IPC surface for Velo-shell, and the shared Velo
"glass" palette.

## Layout

- `src/` — the verified library (Verus). The grid of Spaces and every
  command on it (`grid`, `commands`, `model`), the laws those commands keep
  (`laws`), what the Overview shows (`overview`), the IPC values and the
  grid as IPC clients see it (`protocol`, `ipc_state`), Hyprland event lines
  and the `hyprctl` shim's answers (`hypr_compat`, `hyprctl`), socket paths
  (`paths`), layer-shell geometry (`layer`), keybinding parsing (`keybind`: splitting
  a combo, its modifiers and its error messages; the keysym lookup itself
  is libxkbcommon's, called by the compositor in `app/` and handed to
  `KeyCombo::parse`),
  palette colours (`theme`), cursor frames (`cursor`) and the text helpers
  they share (`text`).
- `tests/` — tests of the library.
- `app/` — the programs around it: the smithay compositor, the `velo-msg`
  CLI and the `hyprctl` shim (one binary, chosen by the name it runs
  under), configuration files, the serde shapes of the IPC protocol, and the
  floating-point parts of the layout (column widths, spring animations and
  window rectangles).
