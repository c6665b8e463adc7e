# Signal Desk

A desktop monitor for trading signals: a main window, a tray icon and a
floating widget that share one runtime. The runtime polls a watch-list
service, keeps which signals are unread, marks signals read optimistically
(rolling back when the service refuses), and raises throttled alerts.

## Layout

- `src/` is the verified library. The program's decisions on signals,
  state, polling, alerts, lists and windows live here with contracts proved
  by Verus:
  - `domain`, `text`: signal keys, period notation (`15`, `4D`, `W`) and
    its ordering, and the character-level helpers they rest on;
  - `collections`: the key-indexed map and set that hold signals and
    pending mark-reads;
  - `app_core`: the command/event contract, the application state and its
    transitions (optimistic mark-read, read floors across polls, rollback),
    the runtime core that turns each command and poller event into the
    actions to carry out, the close policy, the unread queries and the
    watch-list query builder;
  - `poller`, `alerts`, `unread_panel`, `app`: the poller's decisions, alert
    throttling and content, the hover list of unread signals, and what the
    main window shows (bars, labels, counts, status line);
  - `adapters`, `shell`: the widget, the tray and the native-window shell,
    as far as they decide anything;
  - the laws of the library are the public `law_*` proof functions.
- `app/` is the program around it: the egui windows, the tray icon, the
  HTTP client, the poller and runtime threads, configuration files, and the
  Win32 calls. What it decides itself is what rests on floating point (the
  widget's position and round hit area, the popover's layout, the edge
  width) or on an atomic flag read across threads; the rest it asks of the
  library.
- `tests/` runs the library on concrete inputs.
