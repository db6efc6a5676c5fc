# lr_cli

The logic of the librouting command-line tools and daemons, verified with
Verus: converting BIRD and FRR configurations, compiling route policies,
planning what the OSPFv2 and OSPFv3 daemons originate and when, the RPKI
cache client's decisions, metrics exposition, capture replay and dump
comparison, YANG rendering, and the command lines themselves.

- `src/` is the library. Every function states in its contract what it returns
  or changes; laws that span functions are public proof functions beside the
  definitions they speak of. The larger ones have files of their own:
  `bird_laws.rs`, `bird_notes.rs`, `babel_laws.rs`, `frr_laws.rs`,
  `frr_compile.rs`, `render_laws.rs` and `ospf_laws.rs`.
- `tests/` runs the library on concrete values.
- `app/` is the program around it: arguments, files, sockets, threads, signals,
  and the calls into the librouting crates.
