# pretty-ens

Checks which words of a word list are still free as `.eth`, `.box` and `.id` names.

- `src/` is the library: reading and identifying word lists, the state of a run and
  what is left to check, how answers are understood, when a check is made again, and
  what is shown and exported. It is verified with Verus.
- `tests/` holds tests of the library.
- `app/` is the program around it: arguments, files, requests, rate limiting and
  progress. Asking the `.eth` registrar (`app/ethereum.rs`) needs the features
  `contract` and `provider-http` of `alloy`; the library itself needs neither.

## What is trusted

Verus believes, without proof, what the library says of these functions:

| where | outside function |
| --- | --- |
| `src/text.rs` | `str::to_lowercase`, `String::push` |
| `src/timestamp.rs` | `chrono::Utc::now`, `DateTime::checked_add_signed`, `DateTime::format` |
| `src/wordlist.rs` | `sha2::Sha256::digest` |
| `src/checker.rs` | `governor::Quota::per_second`, `rand::Rng::gen_range`, `Duration::from_millis`, `alloy::primitives::Address::from_str`, `reqwest::Url::parse` |
