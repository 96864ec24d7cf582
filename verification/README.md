# openclaw_agent

A lightweight remote command agent. It connects to its server over a
WebSocket, authenticates with its id and token (`auth`), sends heartbeats
(`heartbeat`), and runs the commands the server asks for (`command`, a
command line), streaming their output as it comes (`output`) and answering
each with a `response` that carries `success`, `output` and `error`.
Only whitelisted commands run, and path arguments must lie under allowed roots.

## Layout

- `src/` — the library, verified with Verus:
  - `text.rs`: characters of strings, Unicode trimming, comma lists, substring
    search, decimal numbers.
  - `security.rs`: static checks on a command line (dangerous patterns, length).
  - `config.rs`: configuration layers (defaults, file, remote, environment),
    their merge, home-directory expansion, the configuration path, and the
    resolution of the merged layer into running settings.
  - `protocol.rs`: the messages between server and agent.
  - `paths.rs`: Unix paths read as their components (file names, prefixes).
  - `executor.rs`: whether a command may run, and the replies about it.
  - `client.rs`: reconnection back-off, the response to session events, and
    the messages the agent sends on its own.
- `app/` — the program around it: file, environment and network I/O, process
  handling, and the JSON encoding of the protocol.
- `tests/` — tests of the library on concrete values.

## Configuration

On first run `~/.openclaw-agent/config.json` is created with the defaults:
`server_addr` `127.0.0.1`, `server_port` 4433, `agent_id` `mac-agent-001`,
`auth_token` `default-token`, `reconnect_interval_secs` 5,
`heartbeat_interval_secs` 30, and the commands ls, pwd, echo, date and whoami.
Layers apply in this order, each overriding the one before: built-in defaults,
the file, a remote layer fetched from `OC_CONFIG_URL` (or `config_url`), and
the `OC_*` environment variables.
