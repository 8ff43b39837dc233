# tailspin

A log highlighter written in Verus. Every line goes through the same steps:
finders locate byte spans of interest (numbers, dates, URLs, JSON, keywords,
…), a merge step resolves overlapping spans by priority (the finder added
first wins), and a render pass wraps each resolved fragment in its ANSI
style.

## Layout

- `src/` — the verified library.
  - `span`, `merge`, `render`, `palette`, `style`, `pipeline`: the span
    pipeline and its specifications.
  - `finders/`: one module per kind of highlight, each proved to emit the
    spans its specification describes.
  - `highlighter`: the public `Highlighter` and its builder.
  - `cli`, `cli_highlighter`, `io_config`, `controller`: command-line
    decisions (which groups are on, keyword precedence, input and output
    routing) as functions from plain values to plain values.
  - `colors`, `config`, `config_parser`, `config_util`, `consolidator`:
    configuration types and their transformations.
  - `matching`, `automaton`: the trusted boundary to the `regex`, `memchr`
    and `aho-corasick` crates.
  - `laws`: properties of the library as a whole (the first finder wins,
    uncovered bytes stay plain, the last keyword definition wins).
- `tests/` — executable tests.
- `app/` — the `tspin` program: argument parsing, reading files, commands
  and stdin, and writing to a pager or stdout.
