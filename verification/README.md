# wavelog-relay

A relay between rigctld, WSJT-X and Wavelog:

- it polls the rig and pushes its state to Wavelog (`POST /api/radio`), deduped,
  with a heartbeat;
- it broadcasts every snapshot to Wavelog's frontend over a WebSocket;
- it serves click-to-tune requests of the frontend;
- it forwards QSOs that WSJT-X logs over UDP to `POST /api/qso`, through a queue
  on disk that survives outages and restarts.

## Layout

`src/` is the library: what the relay decides and computes, written and proved in
Verus. It holds no sockets, files or clocks. Where the program alternates between
outside work and decisions, the library has a state machine that takes an event
and returns the next action.

| Module | What it holds |
|---|---|
| `rigctld` | endpoints, the line protocol, health and reconnects |
| `poller` | dedupe, heartbeat, the radio worker |
| `listener`, `modes` | click-to-tune |
| `ws` | `radio_status` frames, handshakes, one client's connection |
| `wsjtx` | datagrams, ADIF fields, the UDP listener and the POST worker |
| `qso_queue`, `opening`, `rewriting`, `queue_laws` | the spool of pending QSOs, how it is opened and written anew, what it restores |
| `wavelog` | requests, answers, retries, station profiles |
| `config`, `daemon`, `stations` | settings, what is started and in what order, the stations table |
| `addr`, `addr_laws`, `binary32`, `duration`, `path`, `text`, `util` | values and notations |

`tests/` runs the library. `app/` is the program around it: arguments, files, HTTP,
sockets and tasks.

## Outside crates

The library calls `reqwest::Url`, `axum::http::HeaderValue` and `humantime`, and of
std `String::from_utf8_lossy`. Each
call stands in a small function whose contract says what is taken on trust.
