# vibe_kanban

The decision logic of the VK workspace and scheduling services, written in
Verus and proved against its contracts.

- `src/` is the verified library. Each module states its behaviour over plain
  mathematical values (`Seq`, `Map`, integers) and proves it: bounded
  execution permissions and the durable capacity controller (`lease`,
  `controller`, `controller_laws`, `capacity`, `scheduling`, `policy`,
  `guard`), native goal progress and the agent client's decisions (`goals`,
  `goal_session`, `approvals`, `agent_events`, `subagents`, `turns`), log
  replay, storage and streaming (`logs`, `log_storage`, `log_stream`), the
  compatibility board and project routes (`compat`, `board`, `projects`,
  `workspaces`, `queue`, `preferences`, `saved_messages`, `write_buffer`),
  and small helpers (`text`, `order`, `ids`, `json`, `notify`, `systemd`,
  `frontend`).
- `tests/` runs the library on concrete values.
- `app/` is the capacity guard program: it reads the permission file,
  supervises the child process and signals it, asking the library at each
  step what to do.
