# enclave_tools

Tooling for confidential-computing enclaves, with its decisions proved
correct by Verus.

- `src/` is the verified library. It holds the enclave init system's
  service ordering, supervision and request handling (`deps`, `supervisor`,
  `control`, `replies`, `service_log`, `procfs`, `clock`, `ctl_format`),
  the host-enclave pipeline's framing, arguments, configuration and
  directory transfer (`wire`, `cli_args`, `pipe_config`, `pipe_error`,
  `dir_transfer`), the file monitor's record of files and digests
  (`fs_watch`, `fs_tracker`), the enclave engine's configuration, registry
  and commands (`engine`, `engine_cmds`), the port-forwarding proxies'
  addresses (`proxy`), fingerprinting requests (`fingerprint`) and the key
  derivation of the key-agreement demonstration (`key_exchange`). Calls into
  outside crates (byteorder, glob, sha3, dashmap, hkdf, rand_core, uuid)
  stand behind small trusted wrappers whose contracts say what those crates
  document.
- `app/` holds the programs around the library: sockets, files, processes,
  HTTP, NATS, signals and command-line parsing. It hands plain values to the
  library and acts on what the library decides.
- `tests/` exercises the library through its public interface.

