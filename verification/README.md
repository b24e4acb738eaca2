# r2_core

The core of R2, a small agent: the rules by which it talks to models, runs
tools, keeps conversations, sessions, memories and skills, holds meetings of
several agents and answers private messages. The library is written in Rust and
verified with Verus; what each function returns or changes is stated in its
contract.

- `src/` — the library. Every module opens with a line on what it is about.
  Properties that relate several functions are stated as `law_*` proof
  functions beside them.
- `tests/` — tests on concrete values.
- `app/` — the `r2` program: files, processes, the network, the database and
  floating point around the library.

Calls into `serde_json`, `uuid` and the standard library stand behind small
functions marked `external_body` (or `assume_specification`); the comment above
each says what is taken for granted.
