# l9_vm

The parser and the virtual machine of the toy language l9, verified with Verus.

- `src/parser.rs`: a recursive descent parser for statements and a Pratt
  parser for expressions. Every parsing function is proved equal to a spec
  function from the tokens left to the result and the tokens left afterwards.
- `src/vm/`: the stack machine. `Vm::step` executes one instruction and is
  proved equal to `spec_step`; what an instruction needs from outside
  (printing, binary64 arithmetic) it hands to the caller as a `Step`.
- `src/laws.rs`: properties of both, such as operator precedence and
  associativity, parenthesized expressions reading back as themselves, and
  read-after-write of variables.
- `app/`: printing, tracing through `log`, the arithmetic on binary64
  numbers, and the error types with their `thiserror` messages.

Numbers are held as the bit patterns of IEEE-754 binary64 values.
