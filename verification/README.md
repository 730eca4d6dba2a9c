# react_docgen_core

Extracts documentation for React components written in TypeScript: for
every component, its props with their resolved types, defaults, JSDoc
descriptions and tags, the HTML attributes it inherits, and the exported
enums of the project.

The library in `src/` is verified with Verus. It holds the data model and
the decisions of the extractor:

- `types`, `render` — the collected and resolved data, and how types are
  written back as TypeScript text.
- `react_types`, `known` — what is known of React and DOM types, and the
  generic patterns (`VariantProps`, `ComponentProps`, ...) resolved by rule.
- `jsdoc`, `collect` — JSDoc descriptions and tags, which comment documents
  which declaration, the bracket-nesting bound checked before parsing, how
  `extends` clauses are classified and how a file's components are settled.
- `syntax` — the TypeScript type syntax the collector reads, as plain
  values, and what it makes of it: collected types, the props type named by
  a component's annotation, interface members, type aliases and parameter
  defaults.
- `import_map`, `resolver` — where imported names come from, and the
  resolution of a component's props type into a `ComponentEntry`.
- `pipeline` — merging and removing files, the reverse dependency graph of
  watch mode, component keys and exported enums.

Laws that span several operations are public proof functions named `law_*`.

`app/` holds what is not verified: parsing with oxc and reading its tree
into the library's syntax, file discovery, the
`.d.ts` cache, parallel resolution with rayon, watch sessions, plugins,
panic containment and JSON output. `tests/` exercises the library.
