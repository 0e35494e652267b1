# djs

The core of DJS, a declarative, pure-functional subset of JavaScript, with its
behaviour stated in contracts and proved with Verus.

- `src/` is the verified library: the lexer (`lexer`), the grammar as functions on
  token sequences (`grammar`) and the parser that follows it (`parser`), the
  syntax trees (`ast`), the bytecode and its chunks (`opcode`), code generation as
  functions on values (`codegen`) and the compiler that follows it (`compiler`),
  the purity check (`lint`), the module system's text work (`module`), JSON text
  scanning and reading, a response body read with serde_json included (`json`,
  `json_tree`), the HTTP messages of the fetch API
  and the server (`builtins`), the layout of a function's frame (`frame`), and
  properties that relate several operations (`laws`, `wellformed`).
- `app/` is the command-line tool around it: files, the network, and the virtual
  machine, whose numbers are floating point.
- `tests/` runs the library on concrete programs and texts.
