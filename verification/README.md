# neutrino_ble

The federation medium of an embedded Matrix homeserver that reaches its peers
over a mesh of iroh connections, on a LAN or over Bluetooth. The library in
`src/` is verified with Verus: it holds every decision that the medium takes,
with contracts that say exactly what is decided. The application in `app/`
moves the bytes: it owns the sockets, the connections and the timers.

| module | what it decides |
|--------|-----------------|
| `node_id` | how a node key is rendered as a server name and a link address, and read back |
| `relay_transport` | which connection carries a datagram to a peer; when one is dialled, taken over or dropped; which accepted connections are media legs |
| `peer_map` | a table keyed by node key |
| `discovery` | what goes into the directory of peers, and when a peer is news |
| `call_member` | what a call membership says: who joined, who left, who can be dialled |
| `call_wire` | how a call membership is written as JSON and read from it |
| `call_laws` | what holds of call memberships as a whole |
| `json`, `json_laws` | JSON trees, their text, and that the text identifies the tree |
| `sim_link` | the framing of the fault-injection link |
| `lan` | the command line of the desktop node, its configuration and its start-up |
| `text` | decimal numbers and text comparison |

What is believed rather than proved: that `serde_json` quotes a string as JSON
prescribes, that `iroh` takes a public key for an endpoint id as the bytes it
is, and that the public key of a secret depends on the secret alone. Each of
these stands in one function, with its claim in the function's contract.

Laws are public proof functions whose names start with `law_`.
