# ESCOM

A viewer for serial ports. Received bytes are kept in a bounded buffer and shown as text, as HEX
or as a terminal screen; they can be searched, highlighted and exported. Text and HEX can be sent
once or again and again, and the terminal sends what is typed.

The library in `src/` is the core of the program, written in Verus: its functions have contracts
that Verus proves, but for the few that call other crates, whose contracts it believes. The
program in `app/` draws the windows with `egui`, owns the threads and the files and talks to the
ports.

## Layout

| Module | What it holds |
| --- | --- |
| `store` | the receive buffer, its snapshots and the deltas that readers follow |
| `formatting` | rows of text and HEX, whole or step by step, the export, and input to send |
| `terminal` | the screen, its control functions and how it turns into rows |
| `search`, `pattern` | matches in rows, and how they follow the display |
| `highlight` | rules that give whole rows a style |
| `pane` | the display: when rows are made, what is visible, what is selected |
| `task_state` | work that runs beside the window and may be out of date when it is done |
| `session`, `history` | the connection, what is sent, and what the user is told |
| `serial_worker`, `ports` | how the thread that owns a port follows commands |
| `keyboard` | what keys send in the terminal |
| `settings`, `storage` | preferences, and how files are loaded, migrated and saved |
| `logging` | lines of the log and the rotation of its files |
| `background`, `theme`, `fonts`, `icon`, `window_chrome` | the look of the window |
| `timestamp`, `encoding`, `chars`, `lists`, `model`, `status` | what the others are made of |

Laws that relate several functions are public proof functions, such as
`formatting::runs::following_matches_rebuilding`, `search::search_follows_the_display`,
`terminal::laws::updates_show_the_screen` and `store::received_bytes_are_kept_or_counted`.

What the library takes on trust of other crates stands in small functions with a doc comment each:
decoders of `encoding_rs` (`encoding`), expressions of `regex` (`pattern`), formats of `chrono`
(`timestamp`), the parser of `vte` (`terminal::actions`) and widths of `unicode-width`
(`terminal::screen`).

`tests/` runs the library on examples.
