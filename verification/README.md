# deploy_agent

The decision logic of a software deployment agent and its Wake-on-LAN relay, verified
with Verus.

- `src/` — the verified library:
  - `text`, `number`: string building, searching, trimming and splitting; decimal and
    hexadecimal number parsing as std reads numbers.
  - `ipv4`: IPv4 addresses as `u32`, their octets, text and broadcast addresses.
  - `adapters`: virtual-adapter detection and collection of usable local subnets.
  - `wake`: MAC address parsing, magic packets, send targets and the outcome of a
    broadcast round.
  - `mac_laws`: which MAC texts read alike, and that written MACs read back.
  - `checksum`: SHA-256 (through the `sha2` crate) in lower-case hexadecimal.
  - `agent`: server URL, endpoints and report forms.
  - `prerequisites`: the registry prerequisite check, given what was read.
  - `job_run`: the machine that runs one deployment job, step by step.
- `app/` — the outside work around it: HTTP (reqwest), files and processes (tokio),
  the Windows registry (winreg), network interfaces (default-net) and UDP sockets.
- `tests/` — tests of the library on concrete values.
