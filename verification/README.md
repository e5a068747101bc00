# corn_cob

The front end of the Corn language, verified with Verus: a reader from text
to S-expressions, a macro expander driven by pattern matching, and a code
generator from S-expressions to a list of IR instructions.

Layout of `src/`:

- `context.rs`: atoms, S-expressions and their models; macro, type and
  function definitions; the compile-time and run-time contexts.
- `table.rs`: name-keyed tables, modelled as finite maps.
- `text.rs`: small string operations.
- `parser.rs`: the grammar, as specification functions over characters, and
  the reader proved to follow it.
- `printer.rs`: the text of an expression.
- `matching.rs`, `records.rs`: pattern matching and the bindings it produces.
- `preprocessor.rs`, `base_macro.rs`: macro expansion and the `macro` form.
- `gen2lyzh4ir.rs`: code generation; it returns a new run-time context beside
  the code and leaves the one it is given as it was.
- `utils.rs`: fresh names, decimal numerals and helpers.
- `laws.rs`: properties that hold across these operations.
- `ast.rs`: the abstract syntax of the kernel language.

Each operation that can meet an input outside its domain comes in two forms:
a `_checked` one that returns `None` there, and one that requires the input to
be in the domain. `app/` holds the interactive loop.
