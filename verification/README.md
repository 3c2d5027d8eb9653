# codex_status

A verified library behind a terminal status line and hook processes.

- `src/fleet_segment.rs`: the canonical fleet-status segment (`fleet N ⚠A ✉U ⇄R`) and its
  reading, proved to accept exactly the canonical renderings of valid counts.
- `src/status_format.rs`, `src/status_line.rs`, `src/styled.rs`: the two-sided status line as
  styled spans, its splitting at marker spans, and the formatting of token counts, resets and
  titles.
- `src/fleet_status.rs`: when fleet status is queried and which answers are taken, and the
  reading of the status command's output.
- `src/hooks.rs`, `src/ids.rs`: hook results and the reserved identity environment variables.
- `app/`: rendering with ratatui, running the status command with tokio, hook functions and
  payload serialization with serde and chrono.
