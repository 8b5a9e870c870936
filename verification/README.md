# jcode

The decision-making core of a coding agent, verified with Verus.

- `src/watch` keeps durable watches over orchestrated jobs: registration, check
  leases, reconciliation with what was observed, retries, and the outbox of
  terminal notifications. `src/background` brings the watches in line with
  background tasks and swarm plans; `src/swarm` reads plans and drives runs.
- `src/context` compiles a code graph's answer into a bounded context package
  and keeps oversized tool output by its content.
- `src/agent` merges memory into prompts and reads external sources of context.
- `src/team_memory` guards the team's session log, `src/mcp` searches tool
  catalogs, and `src/telemetry`, `src/settings` and `src/translate` hold the
  smaller rules.
- `src/text`, `src/number`, `src/paths`, `src/clock`, `src/digest` and
  `src/json` are what the rest is written with. They hold the calls into
  `chrono`, `sha2`, `hex`, `uuid` and `serde_json`.

Every function states what it answers for each input. What relates several of
them stands in functions whose names begin with `law_`.

The library reads no files and starts no processes. `app` does: it loads and
saves the records, runs the commands, sends the requests, and hands the library
plain values.
