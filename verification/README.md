# jarvish

The parts of the jarvish shell that decide and compute, written in Rust and
verified with Verus.

- `src/` is the library. It leaves files, processes and the terminal alone; it
  reads the clock and the time zone for the right prompt, and draws a random
  number for the name of a script.
  - `escape`, `capture`, `framing`: words on their way to a completion shell, and
    its replies on their way back
  - `daemon`, `spawn`, `stale`: the completion shell that is kept running, how it
    is started, and what it leaves behind
  - `bridge`, `settings`, `provider`, `lifecycle`: whether and how a request is
    answered, and how the shell of a session comes to be and ends
  - `highlighter`: the colours of the command line
  - `git`, `prompt`: the prompt
  - `jarvis`: what the assistant says
  - `text`, `style`, `budget`: characters, colours and spans of time
- `tests/` runs the library.
- `app/` is ordinary Rust around it: processes, files, the terminal and the line
  editor.

Work that only the operating system can do is described by phases. A phase names
the work that is due; its `advance` takes what came of it and returns the next
phase. Theorems about several functions together stand beside them as proof
functions whose names begin with `law_`.
