# stockrs

Daily and intraday bars, quotes and valuations of mainland and Hong Kong securities:
fetching and storing them, indicators over them, backtests of strategies on one security or
on several, and a book of positions with its gains.

- `src/` is the library. Every function in it is verified with Verus against the contract
  above its body; the public proof functions state what holds between functions, such as
  that a strategy never sees a later bar or that a sale neither makes nor loses shares.
- `app/` is the program around it: arguments, the network, the database and the script
  engine.
- `tests/` runs the library on concrete values.

Numbers are of any type that implements `num::Scalar`: the contracts say which operations
are applied to which operands, in which order. `fixed::Fixed`, a decimal with six places, is
such a type in the library; the program computes in double precision, by a type of its own.
