# neopilot_models

A database of AI model providers and their models, with search, statistics
and validation of the provider and model description files, written in Verus.

Layout:

- `src/models.rs`: the data types (providers, models, prices, limits),
  keyed storage of items under their ids, and `ModelMap`, a provider's
  models with no id twice (a type invariant).
- `src/database.rs`: the database of providers, whose type invariant keeps
  provider ids and each provider's model ids distinct, and its laws.
- `src/parser.rs`: the rules a `provider.toml` and a model file must follow,
  and the assembly of files read into models, providers and a database.
- `src/engine.rs`, `src/stats.rs`: searches and statistics over a database.
- `src/text.rs`, `src/ranking.rs`, `src/paging.rs`: text matching, ordering
  of counted rows, and paging.
- `src/web.rs`, `src/cli.rs`: the decisions of the web server and the
  command-line tool.
- `app/`: the command-line tool and the web server themselves: reading files,
  TOML and JSON, HTTP, terminal output.

Prices are kept as the bit patterns of binary64 numbers, so the library can
decide the validation rules on integers without losing precision.

A model's id is the path of its file relative to the provider's `models`
directory, without the `.toml` extension: `models/gpt-4o.toml` gives
`gpt-4o`, `models/openai/gpt-4.toml` gives `openai/gpt-4`.
