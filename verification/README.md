# snake compiler, verified

A compiler from the snake language (numbers, booleans, `let`, `if`,
mutually recursive functions, lambdas, arrays) to x86-64 assembly text,
written in Verus. Every pass states what it computes over a mathematical
model of the program, and Verus proves each pass against that statement.

Layout of `src/`:

- `syntax` — the surface language and its sequential (A-normal) form.
- `check` — scope and literal checks; `alike` — why every desugaring of a
  program meets the same check outcome; `compile` — the error type and the
  whole compilation (`compile_to_string`).
- `desugar`, `tag`, `uniquify`, `closures`, `tail`, `lift`, `freevars`,
  `recur`, `capture`, `lambda`, `anf` — the passes, in pipeline order;
  `settle` proves that the rounds of variable capture always come to rest.
- `codegen` — instruction selection; `stack` — the proof that generated code
  never stores at or above `rsp`; `x86` — instructions and their text.
- `pretty` — a readable rendering of sequential expressions.
- `runtime` — what the run-time support reads off a value's bits, how it
  renders values, and its error messages.
- `expv`, `seqview`, `shape`, `copy`, `names`, `text`, `checks` — models,
  copies, names, number rendering, and executable tests of the passes'
  preconditions.

`app/` is the run-time program that compiled code links with: it reads the
heap and prints, and asks the library what each value is.
