# jsruntime

The verified core of a small JavaScript runtime.

- `src/nan.rs`: NaN-boxed values. A value is 64 bits; its upper 16 bits say
  whether it is a float or a boxed object, string, null, undefined, boolean,
  local or reference, and its lower 32 bits hold the payload. `get_type` is
  proved to read exactly that table.
- `src/pointers.rs`: 32-bit handles into the realm's object and string pools.
- `src/string_pool.rs`: the realm's string pool, which interns strings (one
  entry per distinct string) and the realm that holds it.
- `src/program.rs`: compiled functions and classes as the compiler hands them
  over (generic over the instruction, local and local-initialiser types), and
  the strings that loading interns from them.
- `src/class.rs`: the decisions of setting up a class: which constructor it
  gets, and what its instances' prototype inherits from.
- `src/function.rs`: loading a compiled function (interning its strings,
  loading its nested functions and classes, keeping its code), the loaded
  function's accessors, how its locals start out, and calling a built-in with
  its stack discipline.
- `src/parser.rs`: the parser's front door, which hands on the parsed module
  or turns the parser's failure into a syntax error with line and column.
- `app/lib.rs`: what works on floating point or chance (reading a value as a
  float, `Math.random`, `Math.floor`, `Math.ceil`, `Math.round`, `Math.pow`).
