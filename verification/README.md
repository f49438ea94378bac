# healthcheck-service

A monitor that checks services over HTTP, over TCP or by running a command, or
waits for their heartbeats. From the results it derives a status for each
service, keeps the last changes of it, works out which of the services in
trouble are the cause of the trouble of others, and sends alerts to webhooks.

- `src/` is the library. It is written in Verus: each function states in its
  contract what it does, and the proofs are checked. `registry.rs` and `walk.rs`
  hold the mathematics of services and of the dependency graph; the modules
  under `laws/` state what holds whatever happens.
- `app/` is the program: it watches and reads the configuration file, probes the
  services, logs or sends the alerts and answers HTTP requests, as the library
  tells it to.
- `tests/` runs the library.

Start the program with the path of a configuration file:

```toml
[[service]]
name = "api"
url = "http://localhost:8081"
check_type = "http"
dependencies = ["database"]

[[service]]
name = "database"
url = "localhost:5432"
check_type = "tcp"

[alert]
webhooks = [{ url = "http://localhost:9000/alerts", level = "critical" }]

[server]
port = 8080
```
