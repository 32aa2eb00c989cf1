# poliwave

The scanning and diagnostics core of Poliwave, a desktop WiFi analyser, as a
Verus-verified library.

- `src/` is the verified library. It reads what the native utilities print
  (`netsh`, `airport`, `system_profiler`, `networksetup`, `ping`, `route`),
  builds the network list, marks the current connection, orders the list,
  counts access points per channel, decides between the platform scanners and
  their fallbacks, and turns the connection probes into checks and a verdict.
  Every public function states its result exactly over the spec functions of
  its module; the `law_*` proof functions state what holds across them.
- `tests/` runs the library on concrete inputs.
- `app/` runs the utilities, probes and system WiFi interfaces, hands their
  results to the library, and serialises its answers for the front end.
