# zinko_agent_core

Core of the Zinko transparency agent, verified with Verus.

- `src/app.rs`: the dashboard state (`ZinkoApp`), its bounded telemetry
  history and the one-time caching of hardware identifiers, with the laws
  that the history keeps exactly the most recent samples.
- `src/telemetry.rs`: interpretation of `wmic.exe` outputs: the value of a
  query, the hardware identifiers of the audit view, the device serial number
  with its fallback chain, and the placeholder checks.
- `src/text.rs`: line splitting, trimming and substring search on text.
- `app/`: the executable: hardware sampling (sysinfo), running `wmic.exe`,
  the failure simulator, the JSON models and the egui desktop interface.
