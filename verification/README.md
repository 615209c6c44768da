# ncl_runtime

The verified core of the NCL Common Lisp runtime, written in Verus. Every
function under `src/` carries a `requires`/`ensures` contract that Verus
proves; the contracts speak of mathematical models (`Seq`, spec functions
over values, forms and package views).

What the library covers:

- symbol and form syntax: tokens, names, escaped and qualified symbols,
  literals and quoted values (`syntax`, `names`, `literals`, `printer`);
- the package system: designators, the package registry, `DEFPACKAGE`
  parsing, checking and application, `IN-PACKAGE`, shadowing, interning and
  importing (`package`, `packages`, `defpackage`, `package_updates`);
- variables: lexical scopes, dynamic bindings, specials and constants,
  variables named exactly by escaped symbols, restarts (`environment`,
  `dynamic`, `exact_variables`, `runtime`, `conditions`);
- `SETF` places and the place-modifying macros: how a place is updated
  (symbol macro, variable, expander, accessor, setf function or built-in
  place, with the arity of each), the store-back of list, sequence,
  string, property-list and array places, the expansion of places defined
  by a long `DEFSETF`, and the slot values of BOA structure constructors
  (`place_dispatch`, `setf`, `place_macros`, `defsetf_expansion`,
  `structure_boa`);
- sequence functions: keyword options, removal and substitution, searching,
  mismatch, sorting and merging, reduction, mapping and quantifiers
  (`sequence_options`, `sequence_edits`, `sequence_search`,
  `sequence_order`, `sequence_mapping`, `sequence_quantifiers`), and the
  forms of them that call the user's test, key and predicate in the order
  the runtime does (`sequence_calls`);
- lambda-list argument handling for structure constructors and long
  `DEFSETF` forms, `PROG` bindings, `CASE`/`TYPECASE` clause choice,
  `EVAL-WHEN` situations and the binding lists of the string stream forms
  (`lambda_arguments`, `defsetf_arguments`, `prog_bindings`,
  `case_dispatch`, `helpers`, `stream_forms`).

Where the runtime evaluates user code (a test function, a key, a form),
the library takes the evaluation as a closure and states its results in
terms of what the closure answered.

Verus checks the library with `verus --crate-type lib src/lib.rs`; the
tests under `tests/` exercise it on concrete values.
