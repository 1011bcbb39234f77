# kwintool

A command-line tool for KDE Plasma 6 / Wayland that focuses an application's
window when it is open and starts the application otherwise, driving a resident
KWin script over D-Bus.

The library under `src/` is verified with Verus:

* `geometry` — the geometry mini-language (`w60%x20%v`): writing and reading
  tokens, with the laws that every token list reads back from its own text and
  that reading ignores letter case.
* `model` — search criteria and actions in the wire format of the KWin script.
* `cmd` — a command-line request and its serialisation
  (`search && search && action;action`).
* `config` — window rules: the target list and the merged actions for a window.
* `hocon` — the HOCON reader: a grammar given position by position
  (`grammar`), the reader proved against it (`parser`), number literals
  (`number`), values and errors.
* `session` — the decisions of a focus-or-start round trip and of the D-Bus
  services: the answer to the script's reply (launch, or warn with exit code
  127 when the program already runs without a window), bus-name retries,
  waits.
* `matching` — regular expressions through the `regex` crate.
* `text` — character-level helpers.

`app/` holds the program around the library: command-line options (`clap`),
D-Bus clients and services (`dbus`, `dbus-crossroads`), starting programs
(`which`), reading the configuration file and `serde` deserialisation of HOCON.
