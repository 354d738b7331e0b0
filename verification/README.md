# vk_dev

The logic of `vk dev`: what a project's `.virtkit/config.toml` says, the plan it resolves to on a
host, and the decisions taken around the environment that plan boots. Every function of the library
has a contract that Verus proves, but for the few wrappers around outside crates, whose doc comments
say what is believed of them.

- `src/` works on plain values. What has to be read from the host (files, the process environment,
  locks, running machines) is handed in as facts, and what has to be done is handed back as the next
  step. `config`, `validate`, `layers`, `loaded`, `envfile`, `discover` and `shape` are the
  configuration; `plan`, `vars`, `resolve`, `planning`, `names`, `redact`, `render` and `planjson`
  the plan; `boot`, `runargs`, `hooks`, `identity`, `editor`, `endpoints`, `list`, `prune` and `cli`
  the decisions; `init`, `draft`, `jsonc`, `devcontainer`, `translate`, `carried` and `stages` a
  first config from what a project has. `text`, `path`, `entries`, `value`, `digest`, `shell` and
  `units` are what the rest is stated in.
- The proof functions whose names begin with `law_` say what holds across functions: what a layer
  over another keeps, that nothing running is stopped unasked, that no secret is left in a printed
  plan. The last is of secrets that share no edge with the text that stands in for them (`apart` in
  `redact`): one that does could come about again where the two meet.
- `app/` is the host's side: arguments, files, locks, processes and the serde forms of the files.
- `tests/` runs the library on concrete values.
