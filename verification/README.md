# usque

A client for the MASQUE tunnels of Cloudflare WARP. It carries IP packets over
HTTP/3 or HTTP/2, for a SOCKS5 proxy, an HTTP proxy, forwarded ports or a native
TUN device.

The library under `src/` is verified with Verus. It holds the formats, the state
machines and the rules:

- `capsule`, `datagram`, `session`: what goes over the wire, and what is read
  back from it;
- `handshake`, `crypto`, `codec`: how a tunnel is asked for, and the keys and
  certificates it takes;
- `supervisor`, `hooks`: when to connect, what to pass on, which scripts to run;
- `phy`, `stack`, `tun`: the packet devices;
- `dns`, `socks`, `http_proxy`, `portfw`: the services on top of a tunnel;
- `api`, `enroll`, `config`, `cli`: accounts, configuration and commands;
- `ip`, `octets`, `text`, `buffer`: addresses, numbers in bytes, texts and byte
  buffers.

Functions whose names begin with `law_` state what holds of several functions
together.

What is computed by other crates (base64, hex, P-256 keys, X.509, PEM, IP and
TCP headers, URIs) stands behind functions marked `external_body`. The comment
above each says what is claimed of it.

The program under `app/` does the input and output, and asks the library what to
do. Tests are under `tests/`.
