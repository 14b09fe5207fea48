# cql

A command line client for Cassandra that prints the rows of a query as JSON, one object a line.

`src/` is the library: it decodes the responses of a server into values and is verified with Verus.

- `meta`: the types that columns are declared with.
- `types`: decoded values, and the texts that stand for them as keys of a map.
- `decode`: decoding of cells; `rows`: decoding of rows; `response`: decoding of whole responses.
- `layout`: how a response is laid out, and which ones the driver can read; `columns`: the driver's
  descriptions of columns.
- `calendar`, `floating`: dates and times of day, with the calls into `chrono`; single-precision
  numbers as doubles.
- `driver`, `text`: the calls into the `cdrs` driver, and the writing of numbers and bytes. What an
  outside crate does is stated there and in `calendar`, and not proved.
- `bytes`, `model`: what bytes and values stand for, which the contracts speak of.
- `laws`, `collections`, `keys`, `sent`: what holds of decoding as a whole.

Some bytes make a reader of the driver panic. `ColValue::is_decodable` tells them from the rest, and
`ColValue::try_decode` and the functions of `rows` answer `None` to them. `layout::is_readable` does the
same for the bodies of responses, and the functions of `response` answer `None` there.

`app/` connects to a host, runs the query and prints. `tests/` runs the library.
