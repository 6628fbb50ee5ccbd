# super_scanner

A network scanning library: the rules of a scanning server (task
workflows, the run loop of a task, template selection and matching, the
readers of external tool output, service recognition from banners, the
configuration) and of its desktop client (how server messages are shown,
the list of remembered servers), each with its contract proved by Verus.

- `src/` is the verified library. `text.rs` holds the string model the
  contracts are written in; `json.rs` and `config_file.rs` hold the JSON
  and TOML trees and the trusted calls into `serde_json` and `toml`.
- `app/` is the command-line program around it: it reads the environment,
  the configuration file, the network and the tools' raw output, creates
  and runs tasks through the library's run loop, and hands plain values to
  the library.
- `tests/` runs the library on concrete values.
