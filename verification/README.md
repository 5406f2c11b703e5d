# Agent

A lightweight ReAct (Reasoning + Acting) agent loop supporting Anthropic and
OpenAI-compatible APIs, with its behaviour stated in contracts and proved by Verus.

- `src/` is the library: everything the agent decides, computes and remembers.
  - `text`, `json`: strings and JSON values, with their models.
  - `written`, `parts`: JSON text as it stands, with repeated members, and the parts of
    records.
  - `job`, `policy`: work, results, and the injected control of the loop.
  - `provider`: requests, responses and histories of the two APIs.
  - `llm`: retry and trim decisions around one call to the model.
  - `tools`: tool definitions and what tools make of the outside world's answers.
  - `thread`, `registry`: what is kept on disk, and how it reads back.
  - `agent_loop`, `run`: the loop, from one outside step to the next.
  - `spawn`, `resume`: delegation, and picking up delegated work after a restart.
  - `prompt`, `cli`: the system prompt and the command line.
- `app/` is the program around it: network, files, shell.
- `tests/` runs the library on concrete values, with a scripted model and files in
  memory.

The program takes its default model and the name of the guide that its built-in
system prompt points to from `AGENT_DEFAULT_MODEL` and `AGENT_GUIDE` at build time.
