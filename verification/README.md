# brink

A compiler for binary images, written in Verus: a source file describes
sections of bytes, labels, alignment, regions, constants and calls to
extensions, and the compiler lays them out and writes the image.

The library in `src/` holds the logic, each function with a contract that
Verus proves:

- `lexer`, `token`, `ast`, `tree`: the lexer and the parser, building a syntax
  tree in an `indextree` arena.
- `astdb`, `const_eval`, `constdb`: the index of sections, regions and
  constants, evaluation of constant expressions and regions, and lowering of
  constant statements.
- `linearizer`, `layoutdb`, `lineardb`: lowering of the layout into linear
  instructions and operands.
- `ir`, `irdb`: typed values and instructions, and the operand checks.
- `layout_phase`, `layout_pass`, `engine`, `locationdb`, `ranges`: address
  assignment, iterated until sizes settle.
- `exec_phase`, `extension`: writing the image, running extensions over it,
  and the checks that follow.
- `diags`, `fmt`, `text`, `depth_guard`: diagnostics, formatting and helpers.

`app/` is the command-line program around the library (file reading, logging
and diagnostic rendering); `tests/` holds the tests.
