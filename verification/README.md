# clawpanel

The logic of ClawPanel, a desktop companion that installs, configures and
watches an OpenClaw gateway, written in Verus with its behaviour stated in
contracts and proved.

## Layout

- `src/` — the verified library.
  - `text`, `num`, `json`: string helpers, decimal numbers and a JSON value
    model (`Json`, with its mathematical view `JsonV`) that the rest works on.
  - `uifields`, `sync`, `vision`: rewriting of `openclaw.json` — the fields
    the panel keeps for itself, the copy of provider models into each agent's
    `models.json`, and the image input of known vision models.
  - `version`: version strings, the recommended version of each package,
    the order in which versions are listed.
  - `install`: npm arguments and registries, the upgrade and removal state
    machines (the application runs the processes and reports each outcome),
    git rewrite rules and the plan for installing git.
  - `providers`: base URLs and API types of model providers, the requests of
    a model test and of a model listing, and how their answers are read.
  - `messaging`, `pairing`: messaging channels in the configuration and the
    checks of their credentials; allowed origins and paired devices.
  - `memory`, `backups`, `skills`: the memory files of an agent, the backup
    files of the configuration, and the output of the skills CLI.
  - `panel`: the panel's own settings, the release check, node and git
    discovery, the default configuration.
- `app/` — ordinary Rust around the library: files, processes, HTTP, and
  serde conversions of the library's values.
- `tests/` — tests of the library on concrete values.

Each `law_*` proof function states a property that holds across calls.
