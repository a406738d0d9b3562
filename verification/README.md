# HomePod Cast

Stream all Windows PC audio to a HomePod, or any AirPlay 2 speaker, from a small system-tray
application.

The project has two parts.

- `src/` is a library, verified with [Verus](https://github.com/verus-lang/verus). It holds the
  decisions: which devices are offered, the order in which a stream comes up and goes down, what
  clicks and the hotkey do, when keepalives are due, how captured audio becomes 16-bit frames, how
  slider positions, volumes and hotkeys are kept as text. Every function carries a contract, and the
  functions named `law_...` state properties of several functions together: exactly one menu entry
  is ticked, at most one session runs, what the tray was told last is true, a slider setting or a
  hotkey survives a restart.
- `app/` is the Windows application around it: WASAPI loopback capture, the AirPlay 2 stack, the
  tray icon, the settings window and the files under `%APPDATA%\HomePodCast`.

The library does no floating-point arithmetic. Volumes and captured samples are single-precision
numbers; it works on their bit patterns with integers, and `src/single.rs` says what a pattern
stands for.

What is believed without proof: that `tray_icon::Icon::from_rgba` makes an icon of the pixels it is
given and blames the system only for pixels that fill their rectangle (`src/icon.rs`), and what
Verus's own library states of Rust's.

`tests/` runs the library and compares it with hardware floating point where both compute the same.
