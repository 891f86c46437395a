# sx

Conditioned secret access for sandboxed agents: programs that an agent runs can
*use* secrets which the agent itself cannot *read*, with a human in the loop.

- **`sxd`**, the daemon, runs outside the sandbox. It reads `.env` files or mints
  temporary AWS credentials, asks the human before it grants a source and before
  each command uses it, and releases the values. It executes nothing.
- **`sx`**, the client, runs inside the sandbox. It receives the released values,
  runs the command as its own child, and redacts the values from its output.

## Layout

- `src/` is the library. All of it is verified with Verus.
  - `daemon` is the handling of one request, as steps: what has become known
    leads to a reply, a lookup, a question to the human, or obtaining values.
    `guarantees` states what holds of every such conversation, first of all that
    no secret is released without consent.
  - `state` holds the grants and their leases, `clock` the time they go by.
  - `source`, `env_file`, `aws` and `vars` are the sources and their values.
  - `client` and `redaction` are the client's side: what it asks, what it shows,
    and how it keeps values out of that.
  - `proto`, `duration`, `config`, `args`, `gate`, `peer`, `skill` and `service`
    are the messages, the leases, the config file, the command line of `sxd`,
    the approval gates, the caller, the usage skill and the auto-start service.
  - `text` and `paths` are strings and paths with their models.
- `app/` is the ordinary Rust around it: sockets, files, processes, JSON and the
  command line.
- `tests/` runs the library.

What is taken on trust is marked `external_body` or `assume_specification`: the
`.env` parser of `dotenvy`, a few conversions of the standard library, and the
clock.
