# WireMesh

WireMesh lets people reach the networks behind WireGuard gateways. A controller keeps users, groups,
devices, sites and their rules; agents bring gateways, on Linux or on MikroTik routers, to the states
that the controller computes.

- `src/` is the library: every rule, plan, parser and data structure of the controller and its agents,
  verified by Verus. A function states in `ensures` what it returns for every input; the functions named
  `law_…` state what holds of several of them together.
- `tests/` exercises the library from outside, with the real crates behind its trusted items.
- `app/` is the program: command line, HTTP and gRPC endpoints, the database, mail, directories, OpenID
  Connect, and the tools and routers that gateways are driven by. It reads plain values, hands them to
  the library, and carries out what the library says.
- `extras/migrations/` holds the database tables. The program applies them when it opens the database:
  `wiremesh --migrations extras/migrations serve`.

What the library asks of outside crates (hashing, encryption, key derivation, UUIDs, JSON, CSV, URLs,
times, networks, mail addresses) goes through small functions marked `external_body`. Their doc comments
say what is taken for granted of each.
