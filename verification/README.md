# NodeDesk core

NodeDesk turns Sunshine and Moonlight into a one-click remote-computing app:
a host agent that answers signed requests on the LAN or tailnet (metrics,
power, file transfer, terminal), discovery of computers, and the tools that
install and drive the upstream streaming stack.

## Layout

- `src/` — the verified library (Verus). Every function carries a contract:
  - `auth`, `agent`: request signing, replay protection, lockout, and the
    agent's verdict on each request;
  - `client`: request targets, percent-encoding and signed requests;
  - `safepath`, `files`: path confinement (POSIX and Windows drive paths),
    listing order, transfer planning;
  - `install`: the order of steps that installs Sunshine, the virtual
    display driver and Moonlight, with the origin check before any download;
  - `terminal`, `discovery`, `monitor`, `headless`, `sunshine`, `moonlight`,
    `update`, `release`, `wol`, `state`: the parsers, planners and decisions
    behind each feature;
  - `text`, `numbers`, `table`, `places`: shared helpers.
- `tests/` — tests of the library on concrete values.
- `app/` — the program around the library: the HTTP service, sockets,
  processes, files and JSON.
