# wired

A notification daemon for X11: each notification gets a window of its own, drawn from a
configurable tree of layout blocks (text, scrolling text, images, buttons, progress bars),
and answers the mouse and a small command-line tool.

The crate has two parts.

- `src/` is the library, written in Verus and verified. It holds the daemon's logic with
  contracts: notifications as they arrive over D-Bus (escaping for Pango markup, action
  lists, urgency, raw image data), format strings, URL finding, the layout tree and its
  render criteria, the window manager's bookkeeping (windows per layout, countdowns,
  pausing, mouse shortcuts, replacement, history, creation order, socket commands), the
  command line (read with `getopts`) and the protocol between the `wired` tool and the
  daemon, colours written in hexadecimal, icon search paths, and the text and block
  settings.
- `app/` is the program around it: the help text, the socket, the configuration
  file (`ron`, `serde`, `notify`, `xdg`), the D-Bus server (`dbus`, `dbus-crossroads`),
  the X11 windows (`winit`, `x11`), and drawing with `cairo` and `pango`.

`tests/` exercises the library on concrete values.
