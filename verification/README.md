# axon

A terminal client for the synapse torrent daemon, with its interface logic verified by Verus.

- `src/` is the library: the text input and password widgets, the filter language and the
  subscriptions it asks for, the main panel's key handling and its updates from the server,
  the login form, the rate limit panel, text placement and wrapping, tab headers, overlay
  frames, the decisions of the websocket connection and of the event loop (`tui::session`),
  and the rendering of elapsed times. Every function there carries
  a contract that Verus proves; the properties that relate several calls (what one key undoes
  of another, what removing resources leaves) are stated as proof functions beside them.
- `app/` is the program around it: configuration, the terminal, the websocket and the event
  loop, and what needs floating point (sizes, ratios, split proportions).
- `tests/` runs the library on concrete values.

The keys that the panels take are documented on `Main::input`, `Login::input` and
`Filter::input`; the filter specifiers on `role` and `compute_terms`. The configuration is read
from `$XDG_CONFIG_HOME/axon/conf.toml` or `~/.config/axon/conf.toml`.
