# rdpio

A verified protocol library for a Remote Desktop (RDP) client, written in
Verus. Every function in `src/` carries a `requires`/`ensures` contract over
mathematical models (byte sequences, maps, natural numbers) and is proved by
Verus; the laws that relate several functions are public proof functions.

Layout:

- `src/bytes.rs`, `src/text.rs` — little/big-endian byte models and UTF-16.
- `src/asn1/` — the DER subset used by CredSSP, with round-trip laws.
- `src/crypto/` — arbitrary-precision integers, RC4 and textbook RSA.
- `src/pdu/` — wire PDUs: X.224 negotiation, finalization, input, logon
  notifications, multitransport and RDSTLS.
- `src/connector.rs` — the sans-I/O connection state machine.
- `src/nla/` — CredSSP `TSRequest` and certificate public-key extraction.
- `src/channels/` — channel names and the clipboard channel state machine.
- `src/graphics/` — bitmap updates and RLE decompression, AVC framing,
  surfaces and the buffer pool.
- `src/gpu/` — renderer selection and framebuffer pixel geometry.
- `src/metrics.rs` — telemetry windows and percentiles.
- `tests/` — executable tests of the library.
- `app/` — platform glue (OS clipboard, allocator accounting, console and
  network-change handling, error types with `std::error::Error`).
