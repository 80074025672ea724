# dota_coach

The verified core of a Dota 2 coaching backend: what a match record,
a rank reading or a payment notification means, and how the coach's
evidence, analyses and progress reports are built from them.

- `src/` is the library, written in Verus. Every function carries a
  contract over a mathematical model (`Seq`, `Map`, `int`) and is proved
  against it; the laws the library keeps stand there as proof functions.
  Calls into `sha2`, `hmac`, `hex`, `serde_json`, `uuid`, `chrono`, `url`
  and a few `std` string functions go through small trusted wrappers whose
  contracts say what those crates do.
- `app/` is the runtime around it: error types with their messages, the
  floating-point measurements (rates, percentiles, the modeled rank path,
  the size of a movement between sessions), the wire formats read with
  serde, and the provider boundaries that do network I/O.
- `tests/` exercises the library from outside, with the real crates
  linked.
