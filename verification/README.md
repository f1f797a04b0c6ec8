# ulatencyd

A daemon that keeps a Linux desktop responsive. It watches processes come and
go, classifies each by rules, and moves it to a cgroup tier (`rt`,
`interactive`, `system`, `background`, `idle`, `swapstorm`) with a nice level,
a scheduling policy and an OOM score. It also follows the foreground window,
memory pressure, the power source and fork bombs.

## Layout

- `src/` is the library, verified with Verus: what is decided and computed, from
  the bytes of `/proc` and of the kernel's process connector to the writes that
  follow. `daemon.rs` takes one event at a time and says what to do next.
- `app/` is the program around it: arguments, files, sockets, threads, system
  calls, and the pressure readings, which are floating point.
- `tests/` runs the library.

## What is trusted

Verus proves the contracts of `src/` but for a few outside functions, whose
contracts are believed: writing a number with `itoa`, matching a glob with
`wildmatch`, and from std `String::push`, the two decoders of UTF-8 (with the
words of their error) and the debug form of a text. Each has a doc comment that says what is claimed of it.
