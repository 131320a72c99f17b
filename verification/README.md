# heimdall

A reverse proxy, service registry and authentication layer for container clusters.

- `src/` is the verified library: request routing (`router`), the service registry
  (`cache`), the dashboard's pages and forms (`dash`), the proxy's admission steps
  (`proxy`), sessions (`session`), salts (`security`), and the parsing of cookies,
  form bodies, static paths and body lengths (`utils`).
- `app/` is the server around it: the HTTP listener, the store connection and its
  watchers, templates, password hashing, the clock and logging.
- `tests/` runs the library on concrete requests.
