# cert-monitor

A monitor for TLS certificates: it scans domains, tells how long their certificates
last, sends alerts by mail, to Slack and to DingTalk, renews certificates over ACME, and
runs deployment hooks.

- `src/` is the library, verified with Verus. It decides, reads and writes; it does no
  I/O. Each function states in its contract what it returns; the public proof functions
  state what holds of several functions together.
- `app/` is the command line around it: sockets, files, HTTP, mail and processes.
- `tests/` runs the library on concrete values, and its readers of DER next to bcder.

## Modules

| Module | What it is about |
| --- | --- |
| `text`, `order`, `clock` | texts, orders, instants of time |
| `types`, `config`, `state` | certificates and scans, settings, what is remembered of domains |
| `der`, `certificate`, `ocsp` | DER values, X.509 certificates and chains, revocation |
| `network`, `scanner` | ranges of addresses, and the scan of a domain port by port |
| `terminal`, `report` | painted text and tables, the report on a scan |
| `signing`, `notify` | signatures and encodings of requests, alerts |
| `acme`, `challenge` | renewals, the requests for DNS records, the steps to a validated order |
| `deploy`, `commands` | deployment hooks, and what each command decides and shows |

What is taken on trust are the functions marked `external_body`: each calls one function
of another crate, and its comment says what is claimed of it.
