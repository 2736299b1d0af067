# stratify

Layered configuration and structured logging for Rust services, with the rules
of both verified by Verus.

- `src/` is the verified library. `config` stacks sources, merges them by
  declared precedence (the lower number wins) and reads the result. `logging`
  holds what a logging stack consists of: sinks, filters, sampling, rate
  limiting, masking, rolling by size, retention, syslog framing. `bootstrap`
  puts both together for a service that starts. What follows from the contracts
  for every input stands in public proof functions named `law_..`.
- `app/` is the half that runs: it reads files and the environment, talks to
  Azure, opens files and sockets, and composes the `tracing` layers as the
  library plans them.
- `tests/` runs the library.

Every result of another crate that the library relies on comes through a small
function marked `#[verifier::external_body]`, whose comment says what is
believed of it: see `text`, `config::source::document`, `logging::filter`,
`logging::size_rolling` and `logging::timestamp`.
