//! DCE/RPC syntax identifiers: the transfer syntaxes and the LSAR interface.

use vstd::prelude::*;

verus! {

/// A GUID in its textual field order: `data1-data2-data3-data4[0..2]-data4[2..8]`.
#[derive(Debug, Clone, Copy, PartialEq, Eq)]
pub struct Guid {
    pub data1: u32,
    pub data2: u16,
    pub data3: u16,
    pub data4: [u8; 8],
}

/// An interface or transfer syntax: its UUID and version.
#[derive(Debug, Clone, Copy, PartialEq, Eq)]
pub struct DceRpcSyntaxId {
    pub uuid: Guid,
    pub version: u32,
}

/// The NDR64 transfer syntax, 71710533-beba-4937-8319-b5dbef9ccc36 version 1.
pub fn ndr64_syntax_id() -> (s: DceRpcSyntaxId)
    ensures
        s.uuid.data1 == 0x7171_0533,
        s.uuid.data2 == 0xbeba,
        s.uuid.data3 == 0x4937,
        s.uuid.data4@ == seq![0x83u8, 0x19, 0xb5, 0xdb, 0xef, 0x9c, 0xcc, 0x36],
        s.version == 1,
{
    let s = DceRpcSyntaxId {
        uuid: Guid {
            data1: 0x7171_0533,
            data2: 0xbeba,
            data3: 0x4937,
            data4: [0x83, 0x19, 0xb5, 0xdb, 0xef, 0x9c, 0xcc, 0x36],
        },
        version: 1,
    };
    assert(s.uuid.data4@ =~= seq![0x83u8, 0x19, 0xb5, 0xdb, 0xef, 0x9c, 0xcc, 0x36]);
    s
}

/// The NDR 2.0 (32-bit) transfer syntax, 8a885d04-1ceb-11c9-9fe8-08002b104860
/// version 2, used by interfaces that do not support NDR64 (LSAR on Samba).
pub fn ndr20_syntax_id() -> (s: DceRpcSyntaxId)
    ensures
        s.uuid.data1 == 0x8a88_5d04,
        s.uuid.data2 == 0x1ceb,
        s.uuid.data3 == 0x11c9,
        s.uuid.data4@ == seq![0x9fu8, 0xe8, 0x08, 0x00, 0x2b, 0x10, 0x48, 0x60],
        s.version == 2,
{
    let s = DceRpcSyntaxId {
        uuid: Guid {
            data1: 0x8a88_5d04,
            data2: 0x1ceb,
            data3: 0x11c9,
            data4: [0x9f, 0xe8, 0x08, 0x00, 0x2b, 0x10, 0x48, 0x60],
        },
        version: 2,
    };
    assert(s.uuid.data4@ =~= seq![0x9fu8, 0xe8, 0x08, 0x00, 0x2b, 0x10, 0x48, 0x60]);
    s
}

/// The LSAR interface (MS-LSAD 1.9), 12345778-1234-abcd-ef00-0123456789ab
/// version 0.
pub fn lsar_syntax_id() -> (s: DceRpcSyntaxId)
    ensures
        s.uuid.data1 == 0x1234_5778,
        s.uuid.data2 == 0x1234,
        s.uuid.data3 == 0xabcd,
        s.uuid.data4@ == seq![0xefu8, 0x00, 0x01, 0x23, 0x45, 0x67, 0x89, 0xab],
        s.version == 0,
{
    let s = DceRpcSyntaxId {
        uuid: Guid {
            data1: 0x1234_5778,
            data2: 0x1234,
            data3: 0xabcd,
            data4: [0xef, 0x00, 0x01, 0x23, 0x45, 0x67, 0x89, 0xab],
        },
        version: 0,
    };
    assert(s.uuid.data4@ =~= seq![0xefu8, 0x00, 0x01, 0x23, 0x45, 0x67, 0x89, 0xab]);
    s
}

} // verus!
