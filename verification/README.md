# orion-core

An agent harness for local LLM inference: conversation state, context-window
budgeting, chat templates for the common model families, tool-call parsing, and
the prompt → model → tool → model loop, with the model runtime left to the host.

The library under `src/` is written in Verus and proved against its contracts:

- `context` — turns, pruning to a token budget (pinned turns always survive,
  turns are kept or dropped whole, the newest turn always stays) and prompt
  preparation.
- `plan_laws` — the laws every plan and prepared context obey: their shape,
  their budget, when planning fails, and, for a counter that always answers
  the same, that planning is determined, that preparation follows the plan,
  and that the prepared prompt fits the window.
- `template` — the ten chat templates, template detection and lookup by name.
- `tools` — tool schemas and the parsing of tool calls out of a reply.
- `agent` — the conversation and the decisions of the prompt loop, as a state
  machine over `Agent` (generic over its `ChatTemplate`: a built-in one or
  the host's own) and a per-prompt `Run`: each transition takes the outcome
  of the last piece of outside work and names the next `Step`. Summarize-and-
  compress planning and folding live here too.
- `events` — the events the loop publishes.
- `backends` — the OpenAI-compatible backend's configuration, routes, message
  list and reading of the server-sent event stream.
- `messages`, `error`, `backend` — conversation data, the error type, and the
  token estimate.
- `text`, `json` — string helpers proved in Verus, and the JSON reading the
  library asks of `serde_json`, as text-to-text functions.

`app/` is ordinary Rust around the library: the backend, tool and approval-hook
traits a host implements, serializable copies of the library's data, the async
loop that performs each `Step`, and the HTTP transport. `tests/` exercises both
the library's functions and whole prompts driven through the state machine.
