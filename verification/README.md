# kylin-desktop-organizer

A desktop organizer for UKUI / Kylin desktops: it shows the desktop's
entries as icons on a transparent desktop window, sorts them into boxes by
category with one click ("My Computer", recycle bin, applications, folders,
files, pictures and videos, archives), and remembers icon positions, boxes
and settings in `~/.config/kylin-desktop-organizer/config.json`.

## Layout

- `src/` — the library, verified with Verus:
  - `text.rs`, `paths.rs`: string and path helpers with their specifications
    (containment, suffixes, trimming, `u32` parsing, `Path::join`, last
    path component).
  - `domain/categorize.rs`: the classification rules of desktop entries.
  - `domain/layout.rs`: grid geometry (cells, rows, snapping, box sizes).
  - `domain/organize.rs`: grouping by category and the one-click box
    layout, with the laws that organizing keeps every icon, groups each
    entry exactly once and never overlaps two boxes.
  - `domain/desktop.rs`: the window's decisions (placing new icons, box
    reflow, drop targets, double clicks, dragging, box ids).
  - `domain/config.rs`, `domain/config_store.rs`: icon and box state,
    theme and box style, where the configuration lives.
  - `infra/`: single-instance PID file content, autostart entry, launcher
    and executable detection.
  - `ui/`: icon labels, icon-theme names for an entry, settings selectors.
- `tests/` — tests of the library.
- `app/` — the GTK program around the library: the window, widgets,
  menus, settings dialog, icon drawing, configuration file I/O and the
  processes it starts.
