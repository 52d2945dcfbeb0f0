# bip321

Parsing, building and resolving `bitcoin:` payment URIs (BIP-321), with
proof-of-payment callbacks, silent-payment address checks and payjoin
endpoint checks. The library under `src/` is written in Verus: every
function carries a contract, and Verus proves the code against it.

## Layout

- `src/text.rs`, `src/percent.rs`: splitting, joining and percent-coding of
  text, each with a mathematical definition.
- `src/address.rs`: on-chain addresses, read and classified by the `bitcoin`
  crate.
- `src/parser.rs`: the parser, stated as `parse_spec` over the input, the
  amounts of its `amount` parameters and the handler's answers.
- `src/builder.rs`: writing a URI back as text (`build_spec`).
- `src/pop.rs`: proof-of-payment scheme checks and callback assembly.
- `src/types.rs`: the URI, its instructions and the resolvers.
- `src/silent_payment.rs`, `src/payjoin.rs`: adapters for silent-payment
  addresses (`bech32`) and payjoin URLs (`url`).
- `src/laws.rs`, `src/round_trip.rs`: properties that span several
  functions. Among them, `law_build_then_parse`: parsing what `build` writes
  gives the URI back, all but its unknown parameters (which `build` does not
  write), for a URI that `round_trips` describes: its address (if any) is its
  first instruction and reads back as itself; its other instructions are
  Lightning invoices, BOLT12 offers and silent-payment addresses, possibly
  followed by one list of `bc`/`tb` segwit addresses; label and message hold
  no upper-case ASCII letter (any other text, non-ASCII included, is
  percent-encoded and read back); amount text, pop callback, instruction
  texts and addresses are ASCII without upper-case letters or `&`; a
  required callback has an allowed scheme. Where `build` writes no query
  (an address-only URI), the parser reads one empty pair and hands it to the
  handler: `read_back` states what comes back for each answer.
- `app/`: the command-line program; amounts in BTC are decimal numbers and
  are converted there.
- `tests/`: tests of the library.
