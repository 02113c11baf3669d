# yamark

yamark is a YAML formatter. This crate is the part of it verified with
Verus: the line-level YAML rewrites (header lines, flow values, flow
tables, block scalars), the quoting, decoding and typing of scalars, the
document tree and the check that a rewrite kept every value, the
rendering of parsed JSON, JSON Lines, JSONC and JSON5 as YAML, the
registry of embedded-code formatters, diffs and diagnostics. It does not
hold a parser that builds the YAML document tree from text, nor the
emitter that prints a whole tree, so it does not format whole YAML files
by itself. Every public function states what it returns in its
`ensures`, over spec functions on sequences of characters.

## Layout

- `src/` — the verified library.
  - `text`, `source`: characters, UTF-8 lengths, trimming, line tables.
  - `yaml_scan`, `yaml_lines`, `yaml_line_format`, `yaml_block_text`,
    `yaml_blocks`: line-level YAML scanning and the rewrites of simple
    header lines and flow tables, with the laws that reformatting formatted
    text changes nothing.
  - `yaml_scalar`, `yaml_quote`, `yaml_flow_quote`, `yaml_semantic`:
    quoting, decoding and typing of scalars, with round-trip laws.
  - `yaml_model`, `yaml_validate`, `yaml_equivalence`: the document tree
    and the check that a rewrite kept every value.
  - `json_to_yaml`, `jsonc`, `json5`: rendering parsed JSON-family values
    as YAML, comment placement, and JSON5 error positions.
  - `plugins`: the registry of embedded formatters, run planning and the
    handling of their results.
  - `workspace`, `diagnostic`, `diagnostic_order`: diffs, write decisions
    and diagnostics with their report order.
- `tests/` — tests on concrete values.
- `app/` — the unverified edge: the JSON-family parser crates, processes,
  directory walks and file writes, calling the library.
