# drasi_server

The configuration, persistence and plugin-management logic of a Drasi
server, written in Verus with its behaviour stated as contracts and proved.

## Layout

- `src/` — the verified library.
  - `models`, `config_value`, `config`, `reaction`, `state_store`: the
    configuration types and their abstract views.
  - `json`, `yaml`, `loader`, `writer`, `roundtrip`: reading a configuration
    document into those types, writing it back, and the proof that what is
    written reads back as the same configuration: proved for the JSON document
    that the writer builds, for configurations with plain (non-reference)
    ids, hosts, log levels and state-store paths and a named plugin registry;
    the step through YAML text rests on `serde_yaml` and is not proved.
  - `resolve`, `settings`, `validation`: resolving environment references,
    checking server settings and reaction templates.
  - `keyed`, `instance_registry`, `persistence`, `server`, `builder`,
    `factories`: the stores of instances and components and the decisions
    made when a server is assembled or saved.
  - `plugin_registry`, `plugin_cli`, `wildcard`, `version`: plugin kinds,
    reference patterns, and the decisions of the `plugin` commands.
  - `prompts`, `responses`, `text`: interactive set-up, API envelopes and
    text helpers.
- `tests/` — tests of the library on concrete values.
- `app/` — the command-line program: file and terminal I/O, the interactive
  prompts and starting the server, around the library.
