# dsh-mobile-gateway

A gateway between phones or browsers and the machines behind SSH reverse
tunnels that they are paired with. Its library is written in Verus: what each
request leads to is stated in contracts and proved.

- `src/` is the library: pairing, device tokens, tenants and hosts, the relay's
  decisions, the web face, and the register that keeps it all. `protocol.rs` and
  `consistency.rs` hold what is proved across requests.
- `tests/` run the library on concrete requests.
- `app/` is the server around it: the listeners, the streams to the upstream and
  the SQLite file. The library hands it each change of the register to write.

## How a phone is paired

1. The phone makes a code and a secret, registers them and shows the code.
2. The Mac answers the code with a host code of its own and a tunnel port.
3. The person compares the host code on both screens and picks the Mac.
4. The phone gets a token that is bound to that tunnel.

## Settings

All come from the environment; `DSH_GATEWAY_JWT_SECRET` is required, and
`src/config.rs` lists the rest. `dsh-gateway --hash-password` prints the hash of
the password in `PASSWORD`.
