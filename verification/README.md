# span

`span` maps `FILE:LINE`, `--contains PATTERN` or `--symbol NAME` to the
bounded block of code that contains it: a function, Rust item, class, impl,
Markdown fence, or a window of lines around the target.

The logic is a Verus library whose functions carry `requires` / `ensures`
contracts over mathematical models (`Seq<char>` for text, one-based inclusive
line ranges for spans); the command-line program around it does the I/O.

## Layout

- `src/text.rs`: character-level helpers (whitespace, trimming, splitting into
  lines, decimal numbers) with their specifications.
- `src/symbol.rs`: recognising a line that opens an item and naming the item.
- `src/span.rs`: finding the span of a line (Markdown fences, brace and
  indentation blocks, the context window) and capping it to `--max-lines`.
- `src/cli.rs`: command-line parsing as a function from arguments to a request.
- `src/search.rs`: `--contains` and `--symbol` matches and their ordering.
- `src/backend.rs`: choosing between the built-in extractor and the external
  `ast-outline` / `ast-bro` programs, one step at a time: each step either
  asks for a program to be started or gives the choice, from the outcomes of
  the programs started so far.
- `src/render.rs`: the human and JSON reports, and `backend doctor`.
- `src/run.rs`: what becomes of one candidate line, the step from one
  candidate to the next, and what is printed.
- `src/laws.rs`: properties that relate several functions, proved as lemmas.
- `app/main.rs`: `main`, reading files, walking directories, starting the
  programs that the backend steps ask for, printing.
- `tests/`: the command-line scenarios at library level, and unit tests.
