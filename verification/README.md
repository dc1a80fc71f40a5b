# bobry_w_locie

A drone for a source-routed network. The drone forwards packets along
their routes, answers routing errors with negative acknowledgements, drops
message fragments at a configured rate, takes part in flooding, and obeys
the commands of a simulation controller.

Layout:

- `src/packet.rs`: packets, routes, flood requests and responses, with their
  mathematical views and the route operations.
- `src/drone.rs`: the drone's state and decisions. Each packet or command
  the drone receives yields the new state and the list of actions to carry
  out (packets to send, events to report); every function is proved to
  compute the `spec_*` function that describes it.
- `src/laws.rs`: what holds of every packet and command the drone handles.
- `src/config.rs`: the `FromFile` trait for configurations.
- `app/`: the drone as a node of the network: channels, the receive loop,
  floating-point drop rates, and the conversions to the network's packet
  types.
