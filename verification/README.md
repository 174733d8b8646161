# puf_builder

Builds text output from templates and delimited input, verified with Verus.

- `build`: each row of a delimited input expands a template; the token
  `<token><n>` stands for column `n` of the row (the whole number: `@1`
  leaves `@10` alone), optionally qualified as `<token><n><<regex:EXPR>>`
  to take capture group `a` of `EXPR`. A column that an omission pattern
  matches keeps its number and is substituted as empty text.
- `buildre`: a second input is cut into "big rows" (struct definitions) whose
  field names and types are filled into the template of each csv row.
- `blist`: lists the functions declared in a source file.
- `append`: appends a file's contents to another file.

Layout:

- `src/` is the verified library. `text` holds the string operations and
  their specifications; `pattern`, `buffer` and `encoding` are the trusted
  boundary to the `regex`, `string-builder`, `encoding_rs` and
  `encoding_rs_io` crates; `template`, `records`, `buildre` and `functions`
  hold the build logic; `laws` and `fill_laws` state and prove properties
  across them.
- `app/` is the command-line front end: argument handling and file I/O.
- `tests/` exercises the library on concrete inputs.
