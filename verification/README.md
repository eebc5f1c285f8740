# libslide

The core of slide, a static expression simplifier, as a verified library.

- `src/grammar*`: expressions, expression patterns, statements, and the orders used to
  normalize them.
- `src/evaluator_rules*`: pattern matching of patterns against expressions; string rules
  (pattern maps, their validation and bootstrapping) and function rules on constants
  (`fn_rules.rs`, including the folding of constants in sums and products); rule application
  on expressions, bottom-up and on commuted sums and products (`apply.rs`); rule sets and
  their building (`registry.rs`); and evaluation of statements to a fixed point of the rules.
- `src/math*`: integer gcd (Euclidean and binary), dense integer polynomials (with division
  that succeeds exactly when no step leaves `isize`), the heuristic polynomial gcd, and exact
  rational arithmetic on 64-bit numerators and denominators.
- `src/bignum*`: decimal big numbers (addition, subtraction, multiplication, remainder).
- `src/linter*`: lints on statements and expression patterns, producing diagnostics.
- `src/emit.rs`: pretty, S-expression and LaTeX emission.
- `app/`: the floating-point parts (complex numbers, FFT, decimal-to-fraction conversion).

Not part of this library: the scanner and parser that turn source text into statements and
patterns. The library works on trees that are built by calls; the default rule set holds
the trees that the rules' text forms describe. Evaluation takes a bound on its rounds.
