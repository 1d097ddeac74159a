# raqeval

Exact evaluation of arithmetic expressions over rational numbers, verified with Verus.

- `src/rational`: rationals kept in lowest terms (`i128` numerator, `u128` denominator), the
  binary gcd, arithmetic, powers, comparisons with unsigned integers, the constants `e` and
  `pi`, and algebraic laws of the operations.
- `src/parser`: the lexer, the precedence-climbing parser for expressions and function
  definitions (`f(x, y) = ...`), the expression type with substitution, evaluation
  (`Expr::reduce`), text rendering and a pre-order walk, user functions and the builtin `ln`.
- `src/ctx.rs`: the context of functions and global values that evaluation looks names up in.
- `src/text.rs`: small string helpers and the few calls into `std` string functions.
- `app/main.rs`: a small program that defines three functions and evaluates a call.

Each public function states its result in `ensures` over spec functions (`parse_spec`,
`reduce_spec`, `lex`, ...); evaluation is specified with a fuel bound and `reduction` names its
result wherever evaluation finishes; `Expr::reduce_fuel` is the total form, which takes the
bound at run time and returns `None` where evaluation would panic or needs more depth.
