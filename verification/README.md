# bluetooth_wrapper

A command-line wrapper around `bluetoothctl` (the `bt` program), written so
that its decisions are proved with Verus.

- `src/` is the verified library:
  - `text`: character sequences as the views of strings; lines, trimming,
    prefixes, substrings, splitting at spaces, and unsigned decimal numbers,
    each with a specification that follows the standard library.
  - `devices`: the devices that `bluetoothctl devices` lists, which of them
    are connected, whether the adapter is powered, which devices a scan found.
  - `command`: what a finished run amounts to (trimmed output or an error).
  - `report`: the lines printed about commands and their outcomes.
  - `menu`: the interactive menu's options, what a key asks for, and which
    device a choice selects.
- `app/main.rs` is the program: it parses arguments, runs `bluetoothctl` and
  `rfkill`, reads keys and prints, and asks the library what each output,
  key and outcome means.
- `tests/` checks the library on concrete values, partly against the
  standard library's own string functions.
