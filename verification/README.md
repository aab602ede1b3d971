# ryu-rlm

Questions about a corpus larger than any context window, answered without putting
the corpus in a prompt. Documents are held as a variable; a planner works over an
outline of them; a cheap model reads chunks in parallel; and what it finds is
folded back up, with `path:line` citations and a trace of every step.

## Layout

- `src/` is the library, written in Verus: chunking, contexts, the operators, the
  planning loop, quotas, the boundary of what may be read from disk, the store, and
  the replies of the HTTP and MCP surfaces. Every function has a contract, and the
  properties that span functions are stated as proof functions whose names begin
  with `law_`.
- `app/` is the program around it: the HTTP server, the MCP server on stdio, files,
  and calls to the host's models. It performs what the library decides, and hands
  back what came of it.
- `tests/` runs the library on concrete values.

## What is trusted

A few functions of other crates are called through wrappers whose contracts are
taken on trust: compiling and matching regular expressions (`regex`), reading and
writing JSON (`serde_json`), fresh ids (`uuid`) and the present time (`chrono`),
besides `String::push`, the debug form of a string, and `Arc::clone` of the
standard library. Each wrapper says what is claimed of the function it calls.
