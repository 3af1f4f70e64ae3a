# vs-vpn

A SOCKS5 proxy whose connections travel through a tunnel to a server. The tunnel
runs over TCP, with or without encryption, or over QUIC.

The library under `src/` holds the protocol: it turns bytes into decisions and
decisions into bytes, and Verus proves that it does what its contracts say. It
does no I/O. The program under `app/` owns the sockets and does what the library
decides.

| Module | What it holds |
| --- | --- |
| `protocol` | SOCKS5 codes, addresses, the header that opens a tunnel |
| `client`, `server` | the conversation with an application, the opening of a tunnel on either side |
| `frame`, `stream`, `plain` | frames with a length prefix, streams of frames, the tunnel without encryption |
| `crypto`, `encrypted` | the handshake, sealed frames, the encrypted tunnel |
| `quic`, `cert` | the tunnel over QUIC, server addresses, certificates |
| `direct` | the variant whose frames carry their nonce |
| `secret`, `cli` | keys as text, the plan for a command line |
| `proxy`, `log`, `process` | control of an embedded proxy, its log, the process behind a connection |
| `text`, `ip`, `bytes` | text, Internet addresses and integers |

The cipher, key derivation, digests, hexadecimal text, PEM and certificates come
from outside crates. What the proofs take from them is stated on the functions
that call them: `crypto`, `secret`, `cert` and `text` have them.
