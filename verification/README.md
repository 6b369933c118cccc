# omni-mcp

A gateway for the Model Context Protocol: native tools, supervised child
processes and remote HTTP servers behind one JSON-RPC endpoint, over stdio or
HTTP. The library decides and computes, and is verified with Verus; the program
around it reads, sends, waits and spawns.

## Layout

| Path              | What is there                                                     |
| ----------------- | ----------------------------------------------------------------- |
| `src/protocol/`   | JSON-RPC and MCP messages, version negotiation, error codes       |
| `src/config/`     | the configuration: decoding, `${VAR}` interpolation, validation   |
| `src/router/`     | routing tables, dispatch of requests, the status report           |
| `src/backend/`    | native tools, remote servers, and child processes as backends     |
| `src/server/`     | framing of lines, authorization and bodies of HTTP requests       |
| `src/tools/`      | the native tools: text, search, bytes, scripts, SSH               |
| `src/modules/`    | the module suite, with `src/registry.rs` in front of it           |
| `src/cli.rs`      | what the command line asks for                                    |
| `src/json.rs`, `src/text.rs`, `src/bytes.rs`, `src/pattern.rs`, `src/diff.rs`, `src/xml.rs` | the values that the rest works on |
| `tests/`          | what the library does on concrete values                          |
| `app/`            | the program: sockets, files, processes, sessions and the clock    |

## How to read it

Every executable function states what it returns over the views of its
arguments. What the library promises as a whole stands beside the functions it
is about, as public proof functions named `lemma_...`.

A few functions hand work to other crates: regular expressions, line diffs,
hexadecimal, substring search, XML, JSON and TOML texts, URL encoding and HTTP
headers. Each is marked `external_body`, names the function it calls, and says
what is relied on.

Functions that work with something outside the process come in two halves: one
plans what is to be done, the other takes what came of it. The program calls the
first, does it, and calls the second.
