# rustfetch

A system information display: a distribution logo in its colours on the left, and
lines about the system (OS, uptime, packages, desktop, theme, terminal, CPU, GPU, memory,
disk, battery, network, updates) on the right, aligned so that the information column
starts at the same terminal column on every row.

## Layout

- `src/` is the library, verified with Verus.
  - `text.rs`: the string operations the rest is written with (trim, split, lines,
    replace, decimal numerals, `u64` parsing), each against a specification of the
    operation over `Seq<char>`.
  - `config.rs`: the configuration, its built-in default, and the configuration path.
  - `logo.rs`: fastfetch colour tokens, the logo colour table read from fastfetch's logo
    source, the visible width of logo lines, and the side-by-side rows.
  - `drawn.rs`: why the information column does not drift: on logo lines made of plain
    characters (a `$` among them where it starts no placeholder or reset), colour escapes,
    colour placeholders and resets, the cells the coloured logo part takes on the terminal
    equal the width the layout counts for it.
  - `info.rs`: the `user@host` header, the module lines, `/etc/os-release`, logo choice.
  - `hardware.rs`, `software.rs`, `features.rs`: the module values from the text of the
    kernel's files, directory counts and environment values.
- `app/` is the program: command line, file, directory, socket and environment reads,
  the JSON configuration file, floating-point formatting (uptime, temperature, GiB), and
  printing.
- `tests/` runs the library on concrete inputs, including against `std` for the string
  operations.

The logo art (`ascii/<distro>.txt`) and fastfetch's logo table (`builtin.c`) are read by
the program from the configuration directory (`~/.config/rustfetch`); a missing file
counts as empty.
