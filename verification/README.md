# csp_editor

An interactive terminal editor for Content Security Policy (CSP) strings,
with its core written in Verus and proved against its specification.

## Layout

- `src/text.rs` — Unicode whitespace, splitting at a separator, whitespace
  words, trimming, and UTF-8 byte offsets, each with a specification and the
  lemmas that relate them.
- `src/pattern.rs` — the accepted source-value patterns and `is_valid_value`;
  matching itself is done by the `regex` crate.
- `src/csp.rs` — the policy (`CspPolicy`, `ValueSet`): its abstract model,
  adding and removing values, parsing a CSP string, printing it, and the laws
  that tie these together (for instance, reading back the printed string of a
  parsed policy, or of any policy made of plain words, gives the same policy).
- `src/app.rs` — the editor state (`App`) with an abstract model of it and
  one specification function per operation.
- `src/keys.rs` — key handling for each focus area, specified over the same
  model.
- `app/` — the terminal front end (crossterm events, ratatui drawing, the
  system clipboard through copypasta).
- `tests/` — tests of the library on concrete inputs.
