# gateway

A gateway between chat clients and language models, written in Verus. It offers an
OpenAI-compatible chat endpoint, tries a chain of providers until one answers, runs
the tools that a model calls, and keeps its memory in Markdown files.

- `src/` is the verified library. It holds the rules: what is asked of which provider,
  what is made of a reply, what is shown to the client, what a tool answers, which
  paths are allowed. The files and connections that these speak of are left to `app/`.
  Two things it takes from its surroundings itself: today's date, for which `chrono`
  looks at the clock, at `TZ` and at the machine's time zone file, and random keys for
  identifiers. The public proof functions whose names begin with `law_` state what holds
  of it as a whole.
- `app/` is the program around it: HTTP, files, processes and the timing of requests.
- `tests/` runs the library on concrete values.

The functions marked `external_body`, and the one `assume_specification`, are what the
proofs take on trust. Each says in its comment which function it stands for.
