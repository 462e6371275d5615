# SharkManager

A Thunar-like file manager for Linux on GTK 4, whose rules are written and proved
with Verus.

- `src/` is the `sharkmanager` library: listing, filtering and sorting folders, the
  back/forward history, selection and rubber-band geometry, the path bar, bookmarks
  and their file format, URIs and percent-encoding, XDG user folders, mounted
  devices, "Open With" choices, keyboard shortcuts, pasting and renaming rules, and
  the texts the windows show. Every function carries a contract that Verus checks;
  the `law_*` proof functions state what holds across calls.
- `app/` is the GTK program around the library: windows, menus, dialogs, thumbnails
  and the file-system work itself.
- `tests/` runs the library on concrete inputs.
