//! SMB protocol pieces: NDR 2.0 marshalling for the LSAR RPC interface,
//! the SMB2 QUERY_INFO request and response bodies, and the decisions the
//! TCP transport makes about socket errors.

pub mod ndr;
pub mod sid;
pub mod utf16;
pub mod lsarpc;
pub mod lookup_reply;
pub mod query;
pub mod tcp;
pub mod rpc;
