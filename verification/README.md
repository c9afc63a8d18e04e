# direlera-rs

A Kaillera 0.83 server: it lets emulators meet in a lobby, open rooms and play
retro games together in lockstep. What the server decides is a Verus library,
proved against its contracts; sockets, tasks, logging and metrics are ordinary
Rust around it.

## Layout

- `src/simplest_game_sync/`: lockstep synchronisation. Frames of all players are
  combined into rounds, known byte strings travel as cache positions, and slow
  connections can be given a startup delay.
- `src/kaillera/`, `src/packet_util.rs`, `src/wire.rs`: datagrams, message bodies
  and their fields.
- `src/state.rs`, `src/handlers/`: clients and rooms, and what each request does
  to them. A handler changes the state and lists the actions that follow.
- `src/session_manager.rs`, `src/outbox.rs`: sequence numbers, timeouts, stalls,
  and the datagrams that actions turn into.
- `src/master_list.rs`, `src/config.rs`, `src/config_text.rs`, `src/control.rs`,
  `src/logger.rs`: announcements, settings, probes and log options.
- `*_laws.rs`, `handlers/laws.rs`: what holds of several operations together.
- `app/`: the server process.
- `tests/`: the library on concrete values.

Addresses are numbers: the IPv4 address times 65536, plus the port. Times are
nanoseconds since the server started, except for a client's last activity, which
is counted in seconds.

## Configuration

The server reads `config.toml` from its working directory; `${NAME}` stands for
the environment variable of that name. Only clients with connection type 1 (LAN)
are let in.

| Key | Default | Meaning |
| --- | --- | --- |
| `main_port` | `8080` | UDP port of lobby and games |
| `control_port` | `27888` | UDP port for discovery and pings |
| `welcome_message` | `Welcome to the Kaillera server!` | shown at login, line by line |
| `disable_output_cache` | `false` | always send full game data |
| `metrics_enabled`, `metrics_port` | `false`, `9091` | Prometheus metrics |
| `tracing.format`, `tracing.level` | `compact`, `info` | console log |
| `master_list.enabled` | `false` | announce the server to master lists |
| `master_list.servers` | the two official lists | where the server is announced |
| `master_list.server_location` | `US` | location shown on master lists |
| `logs_push_url`, `server_id` | empty | push logs to Loki when both are set |
