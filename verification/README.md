# Cistella

Driver for agent dev containers on rootless Podman and Quadlet, with its
rules stated as contracts and proved by Verus.

- `src/` is the verified library: profiles and templates, mounts, session
  identity and labels, unit files and their registry, mountpoint
  preparation, policy, the guest protocol, the isolator's tables, and the
  conduct lifecycle.
- `tests/` runs the library on concrete values.
- `app/` is ordinary Rust around it: command line, processes, sockets,
  files, signals, and the decoding of TOML and JSON. It starts as the
  driver, as the guest `cistella-isolator-podman`, or as `terminal-spike`,
  by the name it is run under.

The library never performs input or output. Functions that decide on what
the host answers take the answer as an argument; longer interactions (a
conduct, a preparation, a preflight, a guest's operation, the dispatcher)
are state machines that name the next step and take its result.

Calls into other crates (`serde_json`, `sha2`, `hex`, `regex`) stand behind
small functions whose contracts say what is relied on.
