# plcmon

A monitor for HomePlug AV powerline networks: it speaks the protocol directly, shows
link speeds, finds degraded links and restarts the adapters behind them.

The library under `src/` holds everything that is computed or decided, with contracts
that Verus proves. It does no input or output: where work alternates between sending,
listening and deciding, the library is a state machine that is told what was received
and answers what to do next.

| Module | What it holds |
|--------|---------------|
| `protocol` | addresses, frame builders, header parsers; `standard`, `broadcom` and `qualcomm` messages |
| `scanner` | the course of a scan: discover stations, query link rates, build the result |
| `types` | the result of a scan, speed lookups, model names |
| `check` | health check: `degraded` links, restart `candidates`, remembered `state`, `report`, `laws` |
| `probe` | deep diagnostics for one adapter |
| `restart` | the restart request and its acknowledgement |
| `report` | the printed report on a scan |
| `tui` | the live monitor: `history`, `layout`, `panels` |
| `net`, `args`, `setup` | interface choice and addresses, arguments, setup plans |
| `clock`, `text` | local time, and the rendering and scanning of text |

Public proof functions whose names begin with `law_` state what holds across several
functions. Calls into other crates stand behind functions marked
`#[verifier::external_body]`: chrono in `clock`, ratatui in `tui::layout`.

`app/` is the program around the library: arguments, packet capture, files, threads and
the terminal. `tests/` runs the library on concrete values.
