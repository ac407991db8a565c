# flb

A reverse proxy and load balancer with an admin API: virtual hosts with
prefix and regex routes, weighted upstream groups, header rewrites with
variables, certificates (uploaded or issued over ACME with HTTP-01 or
DNS-01 challenges at several DNS services), and TCP/UDP streams.

- `src/` is the library, verified with Verus: the configuration model and
  store, host and route selection, template expansion, backend choice,
  request planning for the proxy, certificate choice for TLS handshakes,
  the ACME and DNS decisions (including request signing), the admin
  API's record building and checks, sessions, the operation log's records
  and the log file rules.
- `app/` is the program around it: command line, HTTP servers, TLS,
  outgoing HTTP calls, files and threads.
- `tests/` exercises the library with the outside crates linked.
