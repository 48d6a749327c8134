# lan_speedtest

The server side of a LAN speed test, and the tool that provisions its guest
on a Proxmox node. The service answers the request contract of the
browser-side `@cloudflare/speedtest` engine (`/__down`, `/__up`), keeps a
history of completed runs, names clients, and exports the latest run per
client for Prometheus.

## Layout

- `src/` — the library, verified with Verus: the service's and the
  provisioning tool's logic, each function with its contract. What stays
  outside is I/O, async sequencing and floating point. Its modules:
  - `text`, `ip` — characters, numbers and addresses, parsed and written the
    way the standard library does.
  - `netid` — CIDR blocks, address kinds, whom a request is attributed to
    (`X-Forwarded-For` only from trusted proxies), reverse names and the DNS
    wire format.
  - `config` — defaults, environment overrides and startup validation.
  - `routes` — what the HTTP handlers decide: the `bytes` parameter and the
    transfer cap, the same-origin guard, bounds on submitted text, the
    engine configuration served for a profile (relative endpoints, no
    reporting URLs), when a reverse lookup is due.
  - `payload` — the download pattern and how a response is cut into frames.
  - `metrics` — the Prometheus exposition body.
  - `history` — the rules the run history follows.
  - `timestamp` — RFC 3339 instants, through the `time` crate.
  - `provision` — guest configuration, the `pct`/`pvesh` commands, shell
    quoting, a scripted runner for tests, what each answer means, and the
    order of a run (`flow`: one step from stage and answer to the next
    action, with the ownership guard before anything that changes the node).
- `tests/` — tests of the library's behaviour on concrete values.
- `app/` — the binary: configuration files (serde/TOML), the SQLite history
  (rusqlite), the axum router, TLS, the DNS socket, and the provisioning
  command line (`provision` as the first argument), which runs commands over
  SSH.

Laws the library promises are stated as public proof functions beside the
code they are about (names beginning with `lemma_`).
