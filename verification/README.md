# ruproxy

A proxy server that speaks Hysteria2, VLESS and VMess. The protocol logic is a
library verified with Verus; the sockets around it are ordinary Rust.

- `src/` is the verified library: the wire formats, the checks of who may
  connect, the reassembly of fragmented UDP packets, and the decisions of each
  server. Every function states in its contract what it returns; functions
  named `law_..` state what holds of several of them together.
- `app/` is the program: the configuration file, TLS, QUIC, HTTP and the
  listeners. It hands the library bytes and text, and does what the library
  decides.
- `tests/` run the library on concrete values.

Run the program with the path of a TOML configuration, alone or after `-c`; the
default path is `config.yaml`.
