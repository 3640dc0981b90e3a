# kparse

Add-ons for parsers, verified with Verus: error codes, a rich error type
(`ParserError`) and a thin one (`TokenizerError`), tracking of the parser
execution, postfix combinators, and line/column information for spans.

## Layout

- `src/` — the verified library.
  - `spans.rs`: `Span`, a fragment of a byte text with its offset and line.
  - `parser_error.rs`, `token_error.rs`, `conversion.rs`: the error types,
    their combination and conversion.
  - `provider.rs`: the tracker (`StdTracker`), a call stack of parser
    functions and the list of recorded events.
  - `lib.rs`: the `Code` and `KParseError` traits, `Track`, `TrackedSpan`,
    `TrackResult`.
  - `parser_ext.rs`, `combinators.rs`: the `Parser` trait, the postfix
    combinators, `track`, the character parsers and the separated lists.
  - `source.rs`, `source/raw.rs`, `fragments.rs`, `data_frame.rs`: line and
    column information, lines around a fragment, iteration over lines.
  - `scan.rs`: byte search and character counting, through `memchr` and
    `bytecount`.
  - `test.rs`, `examples.rs`, `no_context.rs`: the test checks, example
    codes, and span constructors.
- `tests/` — tests of the library.
- `app/` — the parts that print or talk to nom: text output of errors and
  tracks, the timed test runner with its reports, and conversions between
  the library's spans and errors and those of nom and nom_locate.

Tracking takes the tracker as an explicit `&mut StdTracker` argument.
