# cjk_proxy

The building blocks of a SOCKS5/HTTP proxy client and server, with their
behaviour stated as Verus contracts and proved.

## Layout

- `src/` — the verified library.
  - `buf`, `box_buf`, `counter`: the read/write byte buffer, the pool of spare
    buffers, counters.
  - `bytes`, `text`, `ip`: big-endian fields, decimal and text helpers, IP
    addresses as std reads and writes them.
  - `socks5` (with `req`, `udp`): SOCKS5 addresses, requests, replies and UDP
    packets.
  - `url`, `http` (with `head`): URLs, request targets, HTTP heads, chunked
    bodies.
  - `handshake`: telling SOCKS5 from HTTP clients and answering them.
  - `dns` (with `labeled`, `question`, `answer`, `message`, `req`, `direct`,
    `cache`): DNS names and messages.
  - `cipher` (with `suite`, `noop`, `partial`, `strategy`, `stream`,
    `params`, `client`, `server`): ChaCha20, the enciphered stream, and the
    handshake that carries key, nonce, strategies and cipher type in the
    request path (URL-safe base64 written and proved here, read by the
    `base64` crate).
  - `geoip`, `config`, `client`: country lookup, upstream rules and ranking,
    client statistics and the decisions taken for each client.
  - `relay`, `proxy`: the address bookkeeping of UDP relays, proxy requests
    and answers.
  - `abp`, `fetch`: block lists in Adblock Plus syntax and their engine, the
    request that fetches a URL through an HTTP proxy.
  - `controller`, `rsocks`, `utils`: the control API's routing and updates,
    commands, length-prefixed frames.
- `tests/` — tests of the library on concrete values.
- `app/` — the I/O around the library: block-list engines kept in files
  and updated over HTTP, handshakes and HTTP over async streams, the
  enciphered stream as an async stream and both ends of its handshake, JSON
  frames, country tables read
  from files, and the serde forms of the configuration.

## Checking

`verus` verifies `src/lib.rs`; the tests run with the outside crates named in
`Cargo.toml`.

`rmp` is named in `Cargo.toml` only to hold it at 0.8.10: the `rmp-serde`
release that `adblock` 0.8.12 depends on calls functions that later `rmp`
releases removed, so `adblock` does not build without that pin. Nothing here
calls `rmp`.
