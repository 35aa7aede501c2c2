# overdrive

The OverDrive-DB SDKs with their logic verified by Verus.

- `src/` is the verified library:
  - `lexer`, `query_engine`: the embedded SQL dialect: tokenizing, parsing every
    statement, WHERE clauses, OFFSET/LIMIT windows, projections, aggregate rows;
  - `safe_query`: binding parameters into `?` placeholders, refusing injection attempts;
  - `model`, `result`: the embedded SDK's results, statistics, transactions, integrity
    reports, secret keys and errors;
  - `native`: the native-library SDK's options, status codes and C-string checks;
  - `client`: the client SDK's types, error classification and library locations;
  - `dynamic`: where the embedded SDK finds or downloads its native library;
  - `json`, `text`: the JSON and text models the contracts are stated over.
- `app/` holds what the library leaves to its callers: loading the native library and
  calling into it, JSON text, files, the environment, threads, and the comparisons of
  floating-point numbers in WHERE, ORDER BY and aggregates.
- `tests/` runs the library on concrete values.
