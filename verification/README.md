# css_module_lexer

Lexes CSS modules and reports their dependencies: `url()` and `image-set()`
requests, `@import` rules, ICSS `:import`/`:export` blocks, and the names that
CSS Modules scope locally (classes, ids, custom properties, keyframes, counter
styles, font palettes, `composes`). Bad syntax never stops lexing; it is
reported as warnings.

The library is verified with Verus:

- `src/lexer.rs`: the tokenizer and the `Visitor` it reports tokens to; a
  lexer decodes its text once into a shared vector of characters, which it
  walks by index;
- `src/lex_dependencies.rs`: the visitor that turns tokens into dependencies,
  with `lex_dependencies` and `collect_dependencies`;
- `src/dependencies.rs`: dependencies, warnings, modes and the balanced stack;
- `src/postcss_modules.rs`: the local-by-default rewrite of a style sheet;
- `src/chars.rs`, `src/text.rs`, `src/scan.rs`: character classes and byte-level
  helpers; `src/lists.rs`: the small inline lists, kept in `smallvec`.

`app/` holds a small command-line front end that prints the dependencies of a
file.
