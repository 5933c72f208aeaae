# axis

The policy core of AXIS, a sandbox for coding agents. A policy says what a
sandboxed agent may read, write, reach and run. This library decides what a valid
policy is, which backend runs it, which paths and variables the sandbox is given,
and how its life proceeds. Every function of it has a contract, but for the two
that read the clock (`trace`), of which nothing is claimed. Verus proves the
contracts, save a few that stand on code outside, which it believes: parsing a
URL (`endpoint`), reading and writing JSON (`json`), bringing text into small
letters (`standalone`) and appending to a string (`text`). The doc comment of
each of these says what is claimed.

- `policy`, `validation`, `credentials`, `endpoint`, `credential_path`, `host`,
  `ipv6`: the policy document and its rules.
- `backend`, `config`, `sandbox`, `sandbox_error`, `trace`: creating and running a
  sandbox.
- `paths`, `grants`, `workspace`, `managed_home`, `sandbox_env`: what a sandbox
  sees of the host.
- `vxn`, `base64`: the backend that runs a sandbox as a virtual machine.
- `agents`, `ipc`, `json`, `report`, `standalone`, `socket_address`: the decisions
  behind the command line.
- `text`, `verdict`: what the others share.

Functions whose name starts with `law_` state properties of the library as a
whole. `app/` is the program around the library: it reads documents, touches the
disk and starts processes, and asks the library what to do.
