# shuttlings_cch24

A small web service of seasonal puzzles, with its logic verified by Verus.

- `src/` is the verified library:
  - `day12`: a four-by-four cookie-and-milk game with gravity, win
    detection, rendering, and random boards drawn from a seeded generator;
  - `address`: dotted-quad addresses read and written, destination and key
    arithmetic (wrapping per byte), and IPv6 segment exclusive-or;
  - `manifest`, `entry`: the content types a manifest may come in and the
    answer built from its package (magic keyword, order lines);
  - `day9`: the milk bucket, a `leaky_bucket` rate limiter;
  - `day16`: gift tokens (claims and HS256 signing) and the answer to
    decoding a signed token;
  - `reply`, `text`: answers, and text helpers with their specifications.
- `app/` is the HTTP service around the library: routes, request parsing,
  serde, the clock and the file holding the public key.
- `tests/` runs the library on concrete values.
