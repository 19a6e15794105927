# nexuskvm

A software KVM: one machine's keyboard and mouse drive the screens of its peers.
This crate is its core logic, written in Verus with contracts that are proved.

## Layout

- `src/` — the verified library.
  - `router.rs`, `router_laws.rs`, `held.rs`, `input.rs`, `chord.rs`: where input goes,
    which keys are held on which machine, the switch shortcut, switching between
    targets, and the laws they keep.
  - `control.rs`, `edge.rs`, `layout.rs`, `model.rs`: the controller's states, edge
    crossings and their cooldown, the screen layout and its validation.
  - `auth.rs`, `hexcodec.rs`: the shared secret, sealed envelopes and clipboard chunks,
    replay protection, MACs and token checks.
  - `peer.rs`, `framing.rs`, `names.rs`: the peer control protocol, frame layouts and
    the checks on received file names.
  - `clip.rs`: clipboard snapshots, fingerprints, `text/uri-list` handling, images.
  - `service.rs`, `agent.rs`, `text.rs`: the paths, arguments, logs and retry policy
    of the background services, and the agent's decisions.
- `tests/` — tests of the library on concrete values.
- `app/` — the program around it: command line, sockets, files, clipboard access and
  the event loops that hand events to the library and carry out what it decides.
