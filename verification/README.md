# silences

The verified core of Silences, an agentic coding assistant built on DeepSeek: the agent
loop's decisions, the conversation model, the tools' logic and reports, and the reading of
the model's event stream, each with a Verus contract.

## Layout

- `src/` — the library, verified by Verus.
  - `message`, `llm`, `surgery` — messages, what is sent to the model (orphan calls and
    results left out), the front-end view, and the clean-up of an edited context.
  - `run`, `agent`, `events`, `sse` — an agent run step by step (history, streamed events,
    stored effects), tool-call assembly, usage, and the server-sent event stream.
  - `checkpoint_stack`, `queue`, `history`, `task_tools` — checkpoints and rollback, the
    task queue, the bounded undo history, and the task/checkpoint tools.
  - `edit`, `splice`, `regex_edit`, `grep`, `listing`, `walk`, `feedback`, `console`,
    `similarity`, `tokens`, `decode`, `text` — the file tools: normalisation, single and
    block edits, replacements, search, listings, failure reports, output cutting, decoding.
  - `context`, `session`, `settings` — session paths and context messages, run flags and
    requests, stored settings.
- `tests/` — tests of the library.
- `app/` — the server around the library: HTTP (axum), SQLite (rusqlite), the DeepSeek
  client (reqwest), the file system, processes, and the wire forms (serde) of the types.
