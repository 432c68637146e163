# simadmin_ims

A daemon that registers a modem with an IMS core. It finds the P-CSCF and the
local address, reads the card and the kernel's security association, sends a
REGISTER request, answers the network's AKA challenge with a protected one, and
shows its state on a small HTTP page.

- `src/` is the library, verified with Verus: what is read out of the tools and
  the answers, the messages, the state, and what is done next.
  `src/registration.rs` turns each event into the next action, and
  `src/laws.rs` states what holds of every registration.
- `app/` is the daemon around it: sockets, processes and the clock. It also
  parses the P-CSCF's address, writes the state in JSON, and acts on what a
  request was found to ask for. The card's answer to a challenge and the start
  of the bearer are stood in for there, in `app/modem.rs`.
- `tests/` runs the library on concrete values.
