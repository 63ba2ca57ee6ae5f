# agent_riff

Competitive riffing for agents, with its session logic verified by Verus.

- `src/quality.rs`: riff quality (Weak / Okay / Strong) and its signed score.
- `src/mode.rs`: response modes, their direction offsets, and the choice of
  the next mode from the surprise band and the productive streak.
- `src/round.rs`: riffs, rounds, the quality gap and the best riff.
- `src/session.rs`: the session state machine (rounds, streak, stale
  detection, landing, bounded quality history) and its counts.
- `app/lib.rs`: the real-valued surprise measurements around the library
  (sums, averages, and the comparisons that become `SurpriseReading`s).
