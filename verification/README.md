# metric_calculator

An agent that balances the load of a Kubernetes cluster: every round it
scores the replicas of each deployment from their cpu, memory and network
metrics, writes an nginx configuration that routes each application to its
best replica (or to an nginx upstream block), and asks nginx to reload.

- `src/` is the verified library: text splitting and joining, the JSON
  documents the agent reads, the matching of containers to pods, what is
  measured for each replica, the settings and their defaults, the Redis keys
  and records, the addresses of the services, and the nginx configuration.
- `app/` is the program around it: Redis, HTTP, the configuration file, the
  TCP reload request, the reload server, and the floating-point scoring.
- `tests/` exercises the library on concrete values.
