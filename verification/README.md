# trellis

Calculated fields over database tables, defined in a small language and
evaluated in Rust, with Verus contracts on every function of the library.

A definition such as

    TRANSFORM totals FROM app.orders GROUP BY customer
    SELECT customer AS customer, SUM(price) AS spent

is read (`defs::parser`), checked against the columns of its source table
(`defs::validate`, `defs::typing`), and evaluated over rows or groups of rows
(`defs::eval`). `defs::oracle` writes the same definition as a query, and
`defs::recompute` works out a whole target table. `defs::lifecycle` decides
what may be paused or dropped.

Below these stand the values: `numeric` (decimal numbers), `float` with
`float_text` and `shortest` (binary floating point in integer arithmetic),
`integer`, `temporal` (the order of dates and times) and `interval` (spans of
time), `netaddr` and `jsonb` (canonical spellings of literals), `pattern` (regular expressions), `sql` (quoting) and `error_code`.

- `src/` is the library. What a function returns is stated over the views of
  its arguments; what holds across functions is stated by the public proof
  functions, most of them in the modules whose names end in `_laws` and in
  `defs::soundness` and `defs::substitute_values`.
- `tests/` runs it.
- `app/` is what talks to the database: async queries around the library's
  decisions, and the `f64` face of `float`.

Floats are carried as their bits (`float::Float`), so that their rounding,
spelling and order are computed, and proved, in integers.
