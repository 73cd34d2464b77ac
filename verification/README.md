# gpur

A terminal GPU monitor whose rules are verified. The library under `src/` holds
the logic (what a driver's files mean, how readings merge, what a key does, what
the screen shows, and when a signal may be sent) and states it in contracts that
Verus proves. The program under `app/` does what a proof cannot reach: files,
processes, terminals, and floating-point arithmetic.

## Layout

- `src/app/`: the session: devices and their histories, polls, the process
  table, the kill dialog, and the actions of the keys.
- `src/backend/`: one module per vendor or source, in the integers that drivers
  publish; `linux/` holds what the Linux drivers share, and `composite` merges
  several backends into one.
- `src/ui/`: lines, cards, graphs, layouts and popups, as values to draw.
- `src/events.rs`, `src/keys.rs`, `src/cli.rs`, `src/config.rs`, `src/theme.rs`,
  `src/splash.rs`: input, options and looks.
- `src/text.rs`, `src/order.rs`, `src/keyed.rs`: text, orders and small maps
  under all of it.
- `tests/`: scenarios on concrete values.
- `app/`: the program.

Readings that are real numbers pass through the library as IEEE 754 bit
patterns (`order::Real`), or as the integers that they are computed from
(`backend::raw::Figure`); the program does the arithmetic.

## Trusted ground

A few declarations are believed rather than proved. Each names the function of
an outside crate or of the standard library that it stands for, and says what is
claimed of it: the key tables of `hjkl_keymap`, the key events of `crossterm`,
the layout solver, the rectangles and the borders of `ratatui`, the banner
animation of `hjkl_splash`, the built-in theme of `hjkl_theme`, the throttle bits
of `nvml_wrapper`, the sampling interval of `sysinfo`, and some text functions of
the standard library.
