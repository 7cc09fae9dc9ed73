# WSL Memory Agent

A small pair of agents that gives back the memory WSL2 keeps inside the Windows
process `vmmem`. The guest agent, inside WSL, reports memory, cache, CPU and disk
traffic; the host agent, on Windows, scores the pressure and sends conservative
reclaim requests. While the host is silent the guest falls back to a reclaimer of
its own.

## Layout

- `src/` is the library, verified with Verus. It decides and computes; it reads no
  file, no clock and no socket.
  - `elastic_reclaim`, `guest_local`: the decision engines of host and guest
  - `protocol`, `server`, `json`: messages, tokens and the guests of a host
  - `commands`, `cgroup`: how a guest carries a command out, and through what
  - `procfs`, `guest`: what a guest reads about itself, and where it finds the host
  - `host_config`, `logging`, `windows`, `network`: the rest of the host, and ports
  - `binary`, `rounding`, `text`, `time`, `ordering`: arithmetic and text
  - `laws`: what holds of the engines over several calls and for all samples
- `app/` is ordinary Rust around it: files, sockets, clocks, services.
- `tests/` runs the library.

Ratios and thresholds are IEEE 754 numbers. The library computes them on integers,
with the rounding of the standard written down in `rounding` and proved of the code
in `binary`.
