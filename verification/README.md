# greentic_pack

Verified rules of Greentic pack tooling, written in Verus:

- `src/pack_lock.rs`: validation of `pack.lock.json` (v1) and the order in which its
  components are written;
- `src/flow_resolve.rs`: where a flow's resolve sidecar and summary live, how reading a
  sidecar is interpreted, when a summary is generated, and which flow nodes lack a
  resolve entry;
- `src/runtime.rs`: network policy, command-line overrides of the runtime settings and
  the reading of configuration override files as JSON or TOML;
- `src/telemetry.rs`: which exporter a telemetry configuration selects;
- `src/text.rs`: white space, trimming, hex digits and string order.

Paths are handled as strings with `/` as separator.

`app/` holds the unverified plumbing: file and JSON/TOML I/O, configuration loading,
the telemetry installation and the command-line copies of the library types.
