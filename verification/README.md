# RustSynth core

A verified library for RustSynth, an EisenScript (Structure Synth) tool. The
functions under `src/` carry contracts that Verus proves, except three small
trusted wrappers around `regex` and `str::to_lowercase`, whose contracts are
assumed; `app/` is a small command-line front end around it.

## Layout

- `src/` — the library:
  - `text`, `editor`, `annotation`, `highlight`, `payload`, `session`: line
    splitting and joining, `#define` rewriting, camera annotations, syntax
    highlighting (through the `regex` crate), autocomplete, the seed field,
    bracketed number lists, and the editor window's run report and viewport
    decisions.
  - `lexer`, `parser`, `ast`, `primitive`, `rule_graph`, `resolution`,
    `validation`, `pipeline`, `preprocessor`, `diagnostics`: the front end
    (tokens and the EisenScript grammar, each stated as spec functions over
    the source text) and the semantic passes.
  - `eval`, `expansion`, `schedule`, `counters`, `rng`: `set` commands,
    recursion budgets, the branches a rule application queues, the
    breadth-first and depth-first visiting order with its generation and
    object limits, loop counters and the seeded generator.
  - `obj`, `obj_format`, `mesh`, `color`, `scene`: OBJ grouping and text,
    mesh topology of the viewport primitives, hex colours.
- `tests/` — tests of the library on concrete values.
- `app/` — the binary: reads a script, reports its diagnostics, settings and
  embedded camera, and counts the objects its expansion emits;
  floating-point colours, weighted variant picks and the orbit camera live
  here.
