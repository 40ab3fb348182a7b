# Deskflow-Plus core, verified

The core logic of Deskflow-Plus, a desktop sharing tool for the local
network (one keyboard and mouse across machines, clipboard sharing, file
transfer, device discovery and pairing, a 3 x 3 screen layout), written in
Verus with its behaviour stated as contracts and proved.

- `src/` is the verified library. Each module states its model in spec
  functions and proves its operations against it: protocol frames and their
  priorities (`protocol`), clipboard synchronisation (`clipboard`), file
  transfer planning, chunking and reassembly (`transfer`, `reassembly`,
  `stream`), the screen layout and its placement rules (`topology`,
  `placement`), device trust, certificates and sessions (`trust`,
  `certificate`, `pem`, `session`), discovery and pairing decisions
  (`discovery`, `connection`, `settings`, `desktop`), the local control
  channel (`ipc`), input routing (`input`) and the data directory layout
  (`foundation`). Calls into std and outside crates sit behind small trusted
  wrappers in `primitives`, `pem` and `certificate`, each with the contract
  it is trusted to meet.
- `tests/` runs the library on concrete values.
- `app/` is the core service around the library: files, sockets, TLS, the
  JSON wire format, the desktop shell's requests, and the input tuning that
  works on floating-point values.
