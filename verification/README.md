# prefixe

Prepends validated prefixes to shell commands, and learns which prefix a command needs from its
failures. The library is written in Verus: what each function does is stated in its contract and
proved.

## What it does

- Splits a command on `&&`, `||`, `;` and `|`, and puts the confirmed prefix of its leading words
  before each segment.
- Applies rules with conditions and priorities in place of the mappings.
- Starts a probe of the first candidate prefix when a command fails, recognises the retry, and
  confirms the mapping or goes on to the next candidate by its result.
- Counts what was tried, confirmed and failed.

## Layout

- `src/`: the library. `segment` and `rewrite` hold the rewriting by mappings, `rules` that by
  rules, `pre_hook` and `post_hook` the learning, `learning` what holds of it from one step to the
  next. `ports` names what the library asks of its stores and what they grant, `ledger` holds which
  changes were asked of them, `records` what a store keeps, and `preview` answers as the hooks do
  without a store.
- `src/outside.rs`: everything that is taken from other crates without proof.
- `tests/`: tests of the library.
- `app/`: the `prefixe` program: files, environment and the TOML form of what is stored.

## Config

`prefixe/config.toml` in `$XDG_CONFIG_HOME` (or in `~/.config`), or the file given with `--config`:

```toml
[mappings]
gh = ["op", "plugin", "run", "--"]
"cargo test" = ["dotenvx", "run", "--"]

[[candidate_prefixes]]
prefix = ["op", "run", "--"]
```

A candidate without `success_when` counts as successful on exit code 0. An entry among the mappings
that is no list of words, and a candidate without `prefix`, are passed over.
