# prox

A tiny TCP forwarder: pick a host and some ports, and local ports on
`127.0.0.1` are forwarded to it. Environments (a saved host and port list)
can be kept and picked by name.

The logic is a Verus library whose behaviour is stated in contracts and proved:

- `src/cli.rs`: the command line, environment names, hosts and `LOCAL[:REMOTE]`
  port lists.
- `src/environments.rs`, `src/environments/interactive.rs`: the saved
  environments, the `prox env` commands, how a run finds its host and ports,
  and the prompts of the interactive picker.
- `src/state.rs`, `src/daemon.rs`: where state and configuration live, what a
  running proxy reports, the arguments a daemon is started with, and the
  token-checked control protocol of `prox status` and `prox stop`.
- `src/install/`: the installer's directories and the PATH changes it makes on
  Unix shells and in the Windows user environment.
- `src/random.rs`: staging-file names and control tokens from the system's
  random source.
- `src/text.rs`: character classes, trimming, number parsing and formatting.

`app/` is the program around it: files, locks, processes, sockets and the
Windows registry. `tests/` runs the library on concrete values.
