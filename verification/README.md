# sea-forge-server

The governance server of a SEA-Forge cell: it admits work, decides what an
agent or sandbox episode may do, settles what came back, and answers an
NDJSON socket protocol (SFWP) with views of cases, runs, assets, approvals
and delegations.

## Layout

- `src/` — the verified library (Verus). The server's decisions are
  functions here with their contracts: request admission, deduplication
  and separation of duty (`request`), identity resolution (`identity`),
  the envelope gates at the work-ingress, execution and settlement-return
  boundaries (`governed_*`), what any sequence of ledger calls leaves in
  the invocation ledger (`invocation_history`), case dispatch (`case_dispatch`), delegation
  and probe admission, authority actions and settlement (`delegation`,
  `agent_probe`), crash recovery (`recovery`), configuration (`config`),
  and the SFWP views and their request correlation (`sfwp`). Public proof
  functions named `law_*` state what holds across calls.
- `tests/` — tests of the library on concrete values.
- `app/` — the process around it: the socket, the files, the clock, the
  provider calls and the authority engine, handing the library plain
  records and acting on what it decides.

Outside crates are reached from `src/` only through a few trusted wrappers
(SHA-256, random bytes, the clock and its UTC text, the integer reading of
a JSON number, `Debug` quoting of a string), each stating what it claims of
the call it makes. A failing random source or clock is
an error the library reports, never a panic.
