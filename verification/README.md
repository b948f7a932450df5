# courvux-precompiler

Build-time compiler from Courvux template expressions (`{{ count + 1 }}`,
`:class="{ active: isOn }"`, `@click="save(id)"`, ...) to JavaScript arrow
functions, so the runtime never needs `new Function()`. The library is
written and proved in Verus.

Layout:

- `src/lexer.rs`: the tokenizer, with a byte-level model of the token grammar
  (`lex`) that `tokenize` is proved to follow, and the law that token spans
  are ordered, inside the source, separated only by ASCII white space, that
  identifiers hold their own source text, and that `await` and `yield` are
  rejected.
- `src/parser.rs`: the recursive-descent parser, with the grammar as spec
  functions over the token sequence (`assignment_at`, ..., `full_at`) and
  `parse` proved to return exactly what `parse_source` says.
- `src/parse_laws.rs`: what every parse result satisfies (assignable targets,
  strict equality, non-empty error messages at offsets within the source).
- `src/expr_clone.rs`: `Clone` for expression trees, proved to copy the model.
- `src/codegen.rs`: the code generator, with `emit_of` / `compile_of` as its
  model; an optional call is emitted as `?.()`, evaluating its callee once.
- `src/emit_laws.rs`: what the emitted source means (string literals read
  back as their value, keys, scoping of arrow parameters, `==` as `===`).
- `src/text.rs`: string helpers and the rendering of number literals.
- `src/lib.rs`: `compile_expression`, the error record handed to WebAssembly
  hosts, and the laws that span the whole pipeline.
- `app/lib.rs`: the `wasm_bindgen` entry points `compile` and `version`.
