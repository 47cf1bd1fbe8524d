# multi_contas

A manager of isolated Chromium profiles: each profile has its own data directory, proxy,
credentials, fingerprint settings, extensions and group, and a local control API opens, closes
and drives the browsers over the Chrome DevTools Protocol, within a limit on how many run at
once.

The library under `src/` is verified with Verus. Public functions state in `ensures` what they
return or change, and on which inputs they succeed. Where a result rests on the clock, on chance
or on an outside check (token expiry, a one-time code), the contract states what holds of every
outcome and what is handed to the check, and a companion function that takes the time or the
outside result (`..._at`, `check_decoded`, `totp_verdict`) states the outcome for each value of
it; fresh random values (salts, secrets, recovery codes, token ids) stay free in every contract.
The laws of the library stand as public proof functions.

## Layout

- `src/text.rs`, `src/csv.rs`, `src/table.rs`: character-level helpers, the `;`-separated CSV
  format, and a keyed table with read-after-write lemmas.
- `src/profile.rs`: profiles and groups, the Chrome launch arguments, the choice of the Chrome
  binary.
- `src/registry.rs`, `src/orchestrator_config.rs`, `src/resource.rs`, `src/orchestrator.rs`:
  the running browsers, the limits, the resource verdict, the priority queue and the circuit
  breakers that decide whether a profile may open.
- `src/hermes.rs`: authorization and routing of the control API, and the replies to refusals.
- `src/proxy.rs`, `src/folder.rs`, `src/bookmark.rs`, `src/extension.rs`: workspace stores.
- `src/auth.rs`, `src/session.rs`: master password, TOTP, recovery codes, lockout, and signed
  session tokens with single-use refresh, reuse detection and revocation.
- `src/transfer.rs`: export and import of profiles as CSV.
- `src/cdp.rs`: the scripts and commands sent over CDP and the reading of its replies.
- `src/clock.rs`: the clock and random identifiers.
- `app/`: the program around the library: files, processes, HTTP and WebSocket I/O, and the
  serde models.
- `tests/`: tests of the library on concrete values.
