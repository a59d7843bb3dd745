# agent_device

Device handling for an agent that runs inside a virtual machine, verified with
Verus.

A container that runs in the machine is described in terms of the host. The
agent waits until the guest kernel has announced the container's devices, finds
out what they are in the guest, and corrects the container's specification and
environment.

- `src/` is the library. It decides and computes, on plain values. Where files,
  links or kernel events are needed, a function says what to look up next, and
  is called again with what was found. Contracts are stated over sequences of
  characters and views of the data; what holds across functions is stated in
  public proof functions beside them.
- `app/` looks things up and carries decisions out: files and links, waiting for
  events, the OCI specification, messages.
- `tests/` runs the library.

The library trusts a few functions outside of it, each with a contract where it
is declared: `major` and `minor` of nix (`src/info.rs`), the device types of
oci-spec (`src/oci.rs`), the regular expressions of regex (`src/wait.rs`), and
`String::push` of std (`src/text.rs`).
