# python_parser

A verified parser for a fragment of Python's grammar: parameter lists
(`typedargslist` and `varargslist`) and statements (`del`, and `if` / `elif` /
`else` with indented blocks).

Each rule of the grammar is a spec function over the input's characters and a
position (`paramlist`, `statement_rule`, `block_rule`, ...); each parser is an
executable function proved to return exactly what its rule gives, and to fail
exactly when the rule does.

- `src/source.rs`: the text being parsed, as a string slice and as characters.
- `src/helpers.rs`: names, whitespace, indentation, newlines and semicolons.
- `src/expressions.rs`: the expressions that stand in annotations and defaults.
- `src/functions.rs`: parameter lists (`TypedArgsList::parse`, `UntypedArgsList::parse`).
- `src/statements.rs`: statements (`statement`, `block`, `compound_stmt`).
