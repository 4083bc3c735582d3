# zestors clustering, verified

The clustering layer of the `zestors` actor framework: how nodes name and
recognise each other, how their messages are laid out on the wire, how a
node's view of the cluster changes as members come, go and become
unreachable, which connection to a peer is kept, when a peer is backed off
from and reported, and the rules of the simulated network that whole
clusters are tested on.

- `src/` is the library, written in Verus: every function carries a contract
  over a mathematical model of its data, and the properties that span
  several functions are proof functions named `lemma_*`. Calls into the
  `bytes`, `rustls-pki-types` and `rustls-webpki` crates, into `foca`'s
  postcard codec, and into the system clock, go through a few small
  functions whose contracts state what those crates document.
- `app/` is ordinary Rust around it: the tasks, channels, timers and files,
  the membership protocol (`foca`), the link layer over a pluggable network
  backend, and the simulated network, each calling the library for its
  decisions.
- `tests/` exercises the library on concrete values.
