# smb

Verified pieces of an SMB2 client:

- `src/ndr.rs`: NDR 2.0 marshalling primitives (little-endian integers,
  alignment, bounds checks, conformant wide strings, RPC_SIDs).
- `src/lsarpc.rs`, `src/lookup_reply.rs`: the LSAR calls LsarOpenPolicy2,
  LsarLookupSids and LsarClose, their replies, and the client's decisions
  (`Lsar`), with the reply parser specified field by field.
- `src/query.rs`: the SMB2 QUERY_INFO request and response bodies and their
  flag sets.
- `src/sid.rs`: security identifiers and their binary form.
- `src/rpc.rs`: DCE/RPC syntax identifiers.
- `src/tcp.rs`: how the TCP transport classifies socket failures.
- `src/utf16.rs`: UTF-16 encoding and decoding as spec functions, and the
  conversions of std behind contracts stated over them.

`app/` holds the I/O: binrw adapters for the LSAR calls, a client that
drives the exchange over a bound RPC pipe, and a blocking TCP transport.
