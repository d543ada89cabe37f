//! The bodies of the SMB2 QUERY_INFO request and response (MS-SMB2 2.2.37,
//! 2.2.38), and the flag sets they carry.

use vstd::prelude::*;

use crate::ndr::{
    le16_bytes, le32_bytes, le_u16, le_u32, lemma_read_back_u16, lemma_read_back_u32, push_bytes,
    push_u16_le, push_u32_le,
};
use crate::sid::{
    lemma_sid_roundtrip, read_sid, sid_bytes, spec_read_sid, write_sid, Sid, SidError, SidView,
};

verus! {

/// The size of the SMB2 header that precedes every message body; buffer
/// offsets in bodies count from the start of the header.
pub const SMB2_HEADER_SIZE: u16 = 64;

/// The structure size of a QUERY_INFO request.
pub const QUERY_INFO_REQUEST_SIZE: u16 = 41;

/// The structure size of a QUERY_INFO response.
pub const QUERY_INFO_RESPONSE_SIZE: u16 = 9;

/// The length of the fixed part of a QUERY_INFO request.
pub const QUERY_INFO_REQUEST_FIXED_LEN: usize = 40;

/// The offset of the input buffer of a request: right after the header and
/// the fixed part.
pub const QUERY_INFO_INPUT_OFFSET: u16 = 0x68;

/// The offset of the output buffer of a response: right after the header
/// and the fixed part.
pub const QUERY_INFO_OUTPUT_OFFSET: u16 = 0x48;

/// The file information class FileFullEaInformation.
pub const FULL_EA_INFORMATION: u8 = 15;

/// Why a QUERY_INFO structure could not be read or written.
#[derive(Debug, Clone, Copy, PartialEq, Eq, Structural)]
pub enum QueryError {
    /// The buffer ends inside the structure.
    UnexpectedEof,
    /// The structure size field is not the one of this structure.
    InvalidStructureSize,
    /// The information type is none of file, file system, security, quota.
    InvalidInfoType,
    /// The information class byte of a security or quota query is not zero.
    NonZeroNullByte,
    /// The SID of a quota query is malformed.
    InvalidSid(SidError),
    /// A quota query holds both or neither of a SID list and a start SID.
    QuotaSelection,
    /// The information class does not belong to the information type.
    ClassMismatch,
    /// The input data does not belong to the information type and class.
    DataMismatch,
}

/// The type of information queried.
#[derive(Debug, Clone, Copy, PartialEq, Eq, Structural)]
pub enum InfoType {
    File,
    FileSystem,
    Security,
    Quota,
}

/// The wire value of an information type.
pub open spec fn info_type_code(t: InfoType) -> u8 {
    match t {
        InfoType::File => 1,
        InfoType::FileSystem => 2,
        InfoType::Security => 3,
        InfoType::Quota => 4,
    }
}

/// The information type with wire value `v`, if any.
pub open spec fn info_type_of(v: u8) -> Option<InfoType> {
    if v == 1 {
        Some(InfoType::File)
    } else if v == 2 {
        Some(InfoType::FileSystem)
    } else if v == 3 {
        Some(InfoType::Security)
    } else if v == 4 {
        Some(InfoType::Quota)
    } else {
        None
    }
}

impl InfoType {
    /// The wire value.
    pub fn code(&self) -> (v: u8)
        ensures
            v == info_type_code(*self),
    {
        match self {
            InfoType::File => 1,
            InfoType::FileSystem => 2,
            InfoType::Security => 3,
            InfoType::Quota => 4,
        }
    }

    /// The information type with wire value `v`, if any.
    pub fn from_code(v: u8) -> (t: Option<InfoType>)
        ensures
            t == info_type_of(v),
    {
        if v == 1 {
            Some(InfoType::File)
        } else if v == 2 {
            Some(InfoType::FileSystem)
        } else if v == 3 {
            Some(InfoType::Security)
        } else if v == 4 {
            Some(InfoType::Quota)
        } else {
            None
        }
    }
}

/// A single byte that must be zero.
#[derive(Debug, Clone, Copy, PartialEq, Eq, Structural, Default)]
pub struct NullByte {}

impl NullByte {
    /// Reads the byte: only zero is accepted.
    pub fn read(b: u8) -> (r: Result<NullByte, QueryError>)
        ensures
            r is Ok <==> b == 0,
            r is Err ==> r == Err::<NullByte, QueryError>(QueryError::NonZeroNullByte),
    {
        if b == 0 {
            Ok(NullByte {})
        } else {
            Err(QueryError::NonZeroNullByte)
        }
    }

    /// The byte written: always zero.
    pub fn write(&self) -> (b: u8)
        ensures
            b == 0,
    {
        0
    }
}

/// The information class of a query: a file information class, a file
/// system information class, or an empty (zero) byte for the other types.
#[derive(Debug, Clone, Copy, PartialEq, Eq, Structural)]
pub enum QueryInfoClass {
    File(u8),
    FileSystem(u8),
    Empty(NullByte),
}

impl Default for QueryInfoClass {
    fn default() -> (c: QueryInfoClass)
        ensures
            c == QueryInfoClass::Empty(NullByte {}),
    {
        QueryInfoClass::Empty(NullByte {})
    }
}

/// The byte written for an information class.
pub open spec fn class_byte(c: QueryInfoClass) -> u8 {
    match c {
        QueryInfoClass::File(x) => x,
        QueryInfoClass::FileSystem(x) => x,
        QueryInfoClass::Empty(_) => 0,
    }
}

/// Whether an information class may go with an information type: a file
/// class only with the file type, a file system class only with the file
/// system type, the empty class with any.
pub open spec fn class_fits(t: InfoType, c: QueryInfoClass) -> bool {
    match c {
        QueryInfoClass::File(_) => t == InfoType::File,
        QueryInfoClass::FileSystem(_) => t == InfoType::FileSystem,
        QueryInfoClass::Empty(_) => true,
    }
}

/// Whether a query asks for the full extended attributes of a file.
pub open spec fn is_full_ea(t: InfoType, c: QueryInfoClass) -> bool {
    t == InfoType::File && c == QueryInfoClass::File(FULL_EA_INFORMATION)
}

// ---------------------------------------------------------------------------
// Flag sets
// ---------------------------------------------------------------------------

/// Mask of the owner security information flag.
pub const OWNER_SECURITY_INFORMATION: u32 = 0x0000_0001;
/// Mask of the group security information flag.
pub const GROUP_SECURITY_INFORMATION: u32 = 0x0000_0002;
/// Mask of the DACL security information flag.
pub const DACL_SECURITY_INFORMATION: u32 = 0x0000_0004;
/// Mask of the SACL security information flag.
pub const SACL_SECURITY_INFORMATION: u32 = 0x0000_0008;
/// Mask of the label security information flag.
pub const LABEL_SECURITY_INFORMATION: u32 = 0x0000_0010;
/// Mask of the attribute security information flag.
pub const ATTRIBUTE_SECURITY_INFORMATION: u32 = 0x0000_0020;
/// Mask of the scope security information flag.
pub const SCOPE_SECURITY_INFORMATION: u32 = 0x0000_0040;
/// Mask of the backup security information flag.
pub const BACKUP_SECURITY_INFORMATION: u32 = 0x0001_0000;

/// Whether any bit of `mask` is set in `bits`.
pub open spec fn has_flag(bits: u32, mask: u32) -> bool {
    bits & mask != 0
}

/// `bits` with the bits of `mask` set or cleared.
pub open spec fn with_flag(bits: u32, mask: u32, on: bool) -> u32 {
    if on {
        bits | mask
    } else {
        bits & !mask
    }
}

fn set_flag(bits: u32, mask: u32, on: bool) -> (r: u32)
    ensures
        r == with_flag(bits, mask, on),
        on ==> r & mask == mask,
        !on ==> r & mask == 0,
        r & !mask == bits & !mask,
{
    proof {
        lemma_with_flag(bits, mask, on);
    }
    if on {
        bits | mask
    } else {
        bits & !mask
    }
}

/// Law: setting a flag turns all its bits on, clearing it turns them all
/// off (whether or not they were on), and no other bit changes; a
/// non-empty flag then reads back as set exactly when it was set.
pub proof fn lemma_with_flag(bits: u32, mask: u32, on: bool)
    ensures
        on ==> with_flag(bits, mask, on) & mask == mask,
        !on ==> with_flag(bits, mask, on) & mask == 0,
        with_flag(bits, mask, on) & !mask == bits & !mask,
        mask != 0 ==> has_flag(with_flag(bits, mask, on), mask) == on,
{
    let r = with_flag(bits, mask, on);
    if on {
        assert(r & mask == mask && r & !mask == bits & !mask) by (bit_vector)
            requires
                r == bits | mask,
        ;
    } else {
        assert(r & mask == 0 && r & !mask == bits & !mask) by (bit_vector)
            requires
                r == bits & !mask,
        ;
    }
}

/// The additional information of a query: for security queries, which
/// parts of the security descriptor are wanted.
#[derive(Debug, Clone, Copy, PartialEq, Eq, Structural)]
pub struct AdditionalInfo {
    /// The 32 bits as they go on the wire.
    pub bits: u32,
}

/// Whether the bits ask for any part of a security descriptor.
pub open spec fn asks_security(bits: u32) -> bool {
    has_flag(bits, OWNER_SECURITY_INFORMATION) || has_flag(bits, GROUP_SECURITY_INFORMATION)
        || has_flag(bits, DACL_SECURITY_INFORMATION) || has_flag(bits, SACL_SECURITY_INFORMATION)
        || has_flag(bits, LABEL_SECURITY_INFORMATION) || has_flag(
        bits,
        ATTRIBUTE_SECURITY_INFORMATION,
    ) || has_flag(bits, SCOPE_SECURITY_INFORMATION) || has_flag(
        bits,
        BACKUP_SECURITY_INFORMATION,
    )
}

impl AdditionalInfo {
    /// No flag set.
    pub fn new() -> (a: AdditionalInfo)
        ensures
            a.bits == 0,
    {
        AdditionalInfo { bits: 0 }
    }

    /// The flags of the wire value `bits`.
    pub fn from_bits(bits: u32) -> (a: AdditionalInfo)
        ensures
            a.bits == bits,
    {
        AdditionalInfo { bits }
    }

    /// Whether any security information flag is set: owner, group, DACL,
    /// SACL, label, attribute, scope or backup.
    pub fn is_security(&self) -> (r: bool)
        ensures
            r == asks_security(self.bits),
    {
        self.bits & OWNER_SECURITY_INFORMATION != 0 || self.bits & GROUP_SECURITY_INFORMATION != 0
            || self.bits & DACL_SECURITY_INFORMATION != 0 || self.bits & SACL_SECURITY_INFORMATION
            != 0 || self.bits & LABEL_SECURITY_INFORMATION != 0 || self.bits
            & ATTRIBUTE_SECURITY_INFORMATION != 0 || self.bits & SCOPE_SECURITY_INFORMATION != 0
            || self.bits & BACKUP_SECURITY_INFORMATION != 0
    }

    /// Sets or clears the owner flag.
    pub fn with_owner_security_information(self, on: bool) -> (a: AdditionalInfo)
        ensures
            a.bits == with_flag(self.bits, OWNER_SECURITY_INFORMATION, on),
    {
        AdditionalInfo { bits: set_flag(self.bits, OWNER_SECURITY_INFORMATION, on) }
    }

    /// Sets or clears the group flag.
    pub fn with_group_security_information(self, on: bool) -> (a: AdditionalInfo)
        ensures
            a.bits == with_flag(self.bits, GROUP_SECURITY_INFORMATION, on),
    {
        AdditionalInfo { bits: set_flag(self.bits, GROUP_SECURITY_INFORMATION, on) }
    }

    /// Sets or clears the DACL flag.
    pub fn with_dacl_security_information(self, on: bool) -> (a: AdditionalInfo)
        ensures
            a.bits == with_flag(self.bits, DACL_SECURITY_INFORMATION, on),
    {
        AdditionalInfo { bits: set_flag(self.bits, DACL_SECURITY_INFORMATION, on) }
    }

    /// Sets or clears the SACL flag.
    pub fn with_sacl_security_information(self, on: bool) -> (a: AdditionalInfo)
        ensures
            a.bits == with_flag(self.bits, SACL_SECURITY_INFORMATION, on),
    {
        AdditionalInfo { bits: set_flag(self.bits, SACL_SECURITY_INFORMATION, on) }
    }

    /// Sets or clears the label flag.
    pub fn with_label_security_information(self, on: bool) -> (a: AdditionalInfo)
        ensures
            a.bits == with_flag(self.bits, LABEL_SECURITY_INFORMATION, on),
    {
        AdditionalInfo { bits: set_flag(self.bits, LABEL_SECURITY_INFORMATION, on) }
    }

    /// Sets or clears the attribute flag.
    pub fn with_attribute_security_information(self, on: bool) -> (a: AdditionalInfo)
        ensures
            a.bits == with_flag(self.bits, ATTRIBUTE_SECURITY_INFORMATION, on),
    {
        AdditionalInfo { bits: set_flag(self.bits, ATTRIBUTE_SECURITY_INFORMATION, on) }
    }

    /// Sets or clears the scope flag.
    pub fn with_scope_security_information(self, on: bool) -> (a: AdditionalInfo)
        ensures
            a.bits == with_flag(self.bits, SCOPE_SECURITY_INFORMATION, on),
    {
        AdditionalInfo { bits: set_flag(self.bits, SCOPE_SECURITY_INFORMATION, on) }
    }

    /// Sets or clears the backup flag.
    pub fn with_backup_security_information(self, on: bool) -> (a: AdditionalInfo)
        ensures
            a.bits == with_flag(self.bits, BACKUP_SECURITY_INFORMATION, on),
    {
        AdditionalInfo { bits: set_flag(self.bits, BACKUP_SECURITY_INFORMATION, on) }
    }
}

/// Law: a query asks for security information exactly when one of the
/// eight security bits (mask 0x1007F) is set.
pub proof fn lemma_is_security_mask(bits: u32)
    ensures
        asks_security(bits) == (bits & 0x0001_007F != 0),
{
    assert(((bits & 1 != 0) || (bits & 2 != 0) || (bits & 4 != 0) || (bits & 8 != 0) || (bits
        & 0x10 != 0) || (bits & 0x20 != 0) || (bits & 0x40 != 0) || (bits & 0x1_0000 != 0)) == (
    bits & 0x0001_007F != 0)) by (bit_vector);
}

/// Mask of the flag that restarts the scan of extended attributes.
pub const RESTART_SCAN: u32 = 0x1;
/// Mask of the flag that asks for a single entry.
pub const RETURN_SINGLE_ENTRY: u32 = 0x2;
/// Mask of the flag that says an index is given.
pub const INDEX_SPECIFIED: u32 = 0x4;

/// The flags of a query of extended attributes.
#[derive(Debug, Clone, Copy, PartialEq, Eq, Structural)]
pub struct QueryInfoFlags {
    /// The 32 bits as they go on the wire.
    pub bits: u32,
}

impl QueryInfoFlags {
    /// No flag set.
    pub fn new() -> (f: QueryInfoFlags)
        ensures
            f.bits == 0,
    {
        QueryInfoFlags { bits: 0 }
    }

    /// The flags of the wire value `bits`.
    pub fn from_bits(bits: u32) -> (f: QueryInfoFlags)
        ensures
            f.bits == bits,
    {
        QueryInfoFlags { bits }
    }

    /// Whether the scan restarts from the first entry.
    pub fn restart_scan(&self) -> (r: bool)
        ensures
            r == has_flag(self.bits, RESTART_SCAN),
    {
        self.bits & RESTART_SCAN != 0
    }

    /// Whether a single entry is asked for.
    pub fn return_single_entry(&self) -> (r: bool)
        ensures
            r == has_flag(self.bits, RETURN_SINGLE_ENTRY),
    {
        self.bits & RETURN_SINGLE_ENTRY != 0
    }

    /// Whether an entry index is given.
    pub fn index_specified(&self) -> (r: bool)
        ensures
            r == has_flag(self.bits, INDEX_SPECIFIED),
    {
        self.bits & INDEX_SPECIFIED != 0
    }

    /// Sets or clears the restart-scan flag.
    pub fn with_restart_scan(self, on: bool) -> (f: QueryInfoFlags)
        ensures
            f.bits == with_flag(self.bits, RESTART_SCAN, on),
    {
        QueryInfoFlags { bits: set_flag(self.bits, RESTART_SCAN, on) }
    }

    /// Sets or clears the single-entry flag.
    pub fn with_return_single_entry(self, on: bool) -> (f: QueryInfoFlags)
        ensures
            f.bits == with_flag(self.bits, RETURN_SINGLE_ENTRY, on),
    {
        QueryInfoFlags { bits: set_flag(self.bits, RETURN_SINGLE_ENTRY, on) }
    }

    /// Sets or clears the index-specified flag.
    pub fn with_index_specified(self, on: bool) -> (f: QueryInfoFlags)
        ensures
            f.bits == with_flag(self.bits, INDEX_SPECIFIED, on),
    {
        QueryInfoFlags { bits: set_flag(self.bits, INDEX_SPECIFIED, on) }
    }
}

// ---------------------------------------------------------------------------
// Quota query (MS-SMB2 2.2.37.1)
// ---------------------------------------------------------------------------

/// What a quota query asks for: either a list of quota entries
/// (FILE_GET_QUOTA_INFORMATION, held in their binary form) or a single SID.
pub struct QueryQuotaInfo {
    /// Return a single entry rather than as many as fit.
    pub return_single: bool,
    /// Start the enumeration from the beginning.
    pub restart_scan: bool,
    /// The chained FILE_GET_QUOTA_INFORMATION entries, encoded.
    pub get_quota_info_content: Option<Vec<u8>>,
    /// The SID to start from.
    pub sid: Option<Sid>,
}

/// A quota query as a value.
pub struct QueryQuotaInfoView {
    pub return_single: bool,
    pub restart_scan: bool,
    pub content: Option<Seq<u8>>,
    pub sid: Option<SidView>,
}

impl View for QueryQuotaInfo {
    type V = QueryQuotaInfoView;

    open spec fn view(&self) -> QueryQuotaInfoView {
        QueryQuotaInfoView {
            return_single: self.return_single,
            restart_scan: self.restart_scan,
            content: match self.get_quota_info_content {
                Some(c) => Some(c@),
                None => None,
            },
            sid: match self.sid {
                Some(s) => Some(s@),
                None => None,
            },
        }
    }
}

/// The byte of a boolean: 1 or 0.
pub open spec fn bool_byte(b: bool) -> u8 {
    if b {
        1
    } else {
        0
    }
}

/// The length of the entry list of a quota query (zero when absent).
pub open spec fn quota_content_len(q: QueryQuotaInfoView) -> int {
    match q.content {
        Some(c) => c.len() as int,
        None => 0,
    }
}

/// The length of the SID of a quota query (zero when absent).
pub open spec fn quota_sid_len(q: QueryQuotaInfoView) -> int {
    match q.sid {
        Some(s) => (8 + 4 * s.subs.len()) as int,
        None => 0,
    }
}

/// Whether the sizes of a quota query fit their 32-bit length fields.
pub open spec fn quota_sizes_fit(q: QueryQuotaInfoView) -> bool {
    quota_content_len(q) <= u32::MAX && quota_sid_len(q) <= u32::MAX
}

/// The length of a written quota query.
pub proof fn lemma_encode_quota_len(q: QueryQuotaInfoView)
    requires
        spec_encode_quota(q) is Ok,
    ensures
        spec_encode_quota(q)->Ok_0.len() == 16 + quota_content_len(q) + quota_sid_len(q),
{
    crate::ndr::lemma_sub_authority_bytes_len(
        match q.sid {
            Some(s) => s.subs,
            None => Seq::empty(),
        },
    );
}

/// Writing a quota query: it must hold exactly one of the entry list and
/// the SID. Then the two booleans, a zero reserved field, the length of the
/// entry list, the length of the SID, a zero SID offset, the entry list and
/// the SID.
pub open spec fn spec_encode_quota(q: QueryQuotaInfoView) -> Result<Seq<u8>, QueryError> {
    if q.content is None == q.sid is None {
        Err(QueryError::QuotaSelection)
    } else {
        let content = match q.content {
            Some(c) => c,
            None => Seq::empty(),
        };
        let sid = match q.sid {
            Some(s) => sid_bytes(s.authority, s.subs),
            None => Seq::empty(),
        };
        Ok(
            seq![bool_byte(q.return_single), bool_byte(q.restart_scan), 0u8, 0u8] + le32_bytes(
                content.len() as u32,
            ) + le32_bytes(sid.len() as u32) + le32_bytes(0) + content + sid,
        )
    }
}

/// Reading a quota query from its input buffer `q`: a 16-byte header, the
/// entry list of the stated length when that length is non-zero, and when
/// the SID length is non-zero a SID at the stated offset after that;
/// exactly one of the two must be present.
pub open spec fn spec_parse_quota(q: Seq<u8>) -> Result<QueryQuotaInfoView, QueryError> {
    if q.len() < 16 {
        Err(QueryError::UnexpectedEof)
    } else {
        let list_len = le_u32(q, 4);
        let sid_len = le_u32(q, 8);
        let sid_off = le_u32(q, 12);
        if list_len > 0 && 16 + list_len > q.len() {
            Err(QueryError::UnexpectedEof)
        } else {
            let content = if list_len > 0 {
                Some(q.subrange(16, 16 + list_len))
            } else {
                None
            };
            let pos = 16 + list_len;
            let sid = if sid_len > 0 {
                match spec_read_sid(q, pos + sid_off) {
                    Ok((s, _)) => Ok(Some(s)),
                    Err(e) => Err(e),
                }
            } else {
                Ok(None)
            };
            match sid {
                Err(e) => Err(QueryError::InvalidSid(e)),
                Ok(sid) => if content is None == sid is None {
                    Err(QueryError::QuotaSelection)
                } else {
                    Ok(
                        QueryQuotaInfoView {
                            return_single: q[0] != 0,
                            restart_scan: q[1] != 0,
                            content,
                            sid,
                        },
                    )
                },
            }
        }
    }
}

impl QueryQuotaInfo {
    /// A quota query for a list of quota entries (given encoded).
    pub fn new(return_single: bool, restart_scan: bool, content: Vec<u8>) -> (q: QueryQuotaInfo)
        ensures
            q@ == (QueryQuotaInfoView {
                return_single,
                restart_scan,
                content: Some(content@),
                sid: None,
            }),
    {
        QueryQuotaInfo {
            return_single,
            restart_scan,
            get_quota_info_content: Some(content),
            sid: None,
        }
    }

    /// A quota query for a single SID.
    pub fn new_sid(return_single: bool, restart_scan: bool, sid: Sid) -> (q: QueryQuotaInfo)
        ensures
            q@ == (QueryQuotaInfoView {
                return_single,
                restart_scan,
                content: None,
                sid: Some(sid@),
            }),
    {
        QueryQuotaInfo { return_single, restart_scan, get_quota_info_content: None, sid: Some(sid) }
    }

    /// Writes the quota query.
    pub fn encode(&self) -> (r: Result<Vec<u8>, QueryError>)
        requires
            quota_sizes_fit(self@),
        ensures
            match r {
                Ok(b) => spec_encode_quota(self@) == Ok::<Seq<u8>, QueryError>(b@),
                Err(e) => spec_encode_quota(self@) == Err::<Seq<u8>, QueryError>(e),
            },
    {
        if self.get_quota_info_content.is_none() == self.sid.is_none() {
            return Err(QueryError::QuotaSelection);
        }
        let mut content: Vec<u8> = Vec::new();
        match &self.get_quota_info_content {
            Some(c) => push_bytes(&mut content, c.as_slice()),
            None => {},
        }
        let mut sid: Vec<u8> = Vec::new();
        match &self.sid {
            Some(s) => write_sid(&mut sid, s),
            None => {},
        }
        let mut buf: Vec<u8> = Vec::new();
        buf.push(if self.return_single { 1u8 } else { 0u8 });
        buf.push(if self.restart_scan { 1u8 } else { 0u8 });
        buf.push(0u8);
        buf.push(0u8);
        push_u32_le(&mut buf, content.len() as u32);
        push_u32_le(&mut buf, sid.len() as u32);
        push_u32_le(&mut buf, 0);
        push_bytes(&mut buf, content.as_slice());
        push_bytes(&mut buf, sid.as_slice());
        proof {
            crate::ndr::lemma_sub_authority_bytes_len(
                match self@.sid {
                    Some(s) => s.subs,
                    None => Seq::empty(),
                },
            );
        }
        assert(buf@ =~= spec_encode_quota(self@)->Ok_0);
        Ok(buf)
    }

    /// Reads a quota query from its input buffer.
    pub fn decode(q: &[u8]) -> (r: Result<QueryQuotaInfo, QueryError>)
        ensures
            match r {
                Ok(v) => spec_parse_quota(q@) == Ok::<QueryQuotaInfoView, QueryError>(v@),
                Err(e) => spec_parse_quota(q@) == Err::<QueryQuotaInfoView, QueryError>(e),
            },
    {
        if q.len() < 16 {
            return Err(QueryError::UnexpectedEof);
        }
        let list_len = get_u32(q, 4);
        let sid_len = get_u32(q, 8);
        let sid_off = get_u32(q, 12);
        if list_len > 0 && list_len as usize > q.len() - 16 {
            return Err(QueryError::UnexpectedEof);
        }
        let content = if list_len > 0 {
            let mut c: Vec<u8> = Vec::new();
            let mut i: usize = 16;
            let end = 16 + list_len as usize;
            while i < end
                invariant
                    end == 16 + list_len,
                    16 <= i <= end <= q@.len(),
                    c@ == q@.subrange(16, i as int),
                decreases end - i,
            {
                c.push(q[i]);
                i = i + 1;
                assert(c@ =~= q@.subrange(16, i as int));
            }
            Some(c)
        } else {
            None
        };
        let pos: u64 = 16 + list_len as u64;
        let sid = if sid_len > 0 {
            let at = pos + sid_off as u64;
            if at >= q.len() as u64 {
                return Err(QueryError::InvalidSid(SidError::UnexpectedEof));
            }
            match read_sid(q, at as usize) {
                Ok((s, _)) => Some(s),
                Err(e) => {
                    return Err(QueryError::InvalidSid(e));
                },
            }
        } else {
            None
        };
        if content.is_none() == sid.is_none() {
            return Err(QueryError::QuotaSelection);
        }
        Ok(
            QueryQuotaInfo {
                return_single: q[0] != 0,
                restart_scan: q[1] != 0,
                get_quota_info_content: content,
                sid,
            },
        )
    }
}

// ---------------------------------------------------------------------------
// QUERY_INFO request (MS-SMB2 2.2.37)
// ---------------------------------------------------------------------------

/// The extended attributes asked for: chained FILE_GET_EA_INFORMATION
/// entries, held in their binary form.
pub struct GetEaInfoList {
    pub values: Vec<u8>,
}

/// The input data of a query: quota parameters, extended attribute names,
/// or nothing.
pub enum GetInfoRequestData {
    Quota(QueryQuotaInfo),
    EaInfo(GetEaInfoList),
    NoData,
}

/// The input data of a query as a value.
pub enum GetInfoRequestDataView {
    Quota(QueryQuotaInfoView),
    EaInfo(Seq<u8>),
    NoData,
}

impl View for GetInfoRequestData {
    type V = GetInfoRequestDataView;

    open spec fn view(&self) -> GetInfoRequestDataView {
        match self {
            GetInfoRequestData::Quota(q) => GetInfoRequestDataView::Quota(q@),
            GetInfoRequestData::EaInfo(e) => GetInfoRequestDataView::EaInfo(e.values@),
            GetInfoRequestData::NoData => GetInfoRequestDataView::NoData,
        }
    }
}

/// A request to query information on a file, named pipe or volume.
pub struct QueryInfoRequest {
    pub info_type: InfoType,
    pub info_class: QueryInfoClass,
    /// The most bytes the server may send back.
    pub output_buffer_length: u32,
    pub additional_info: AdditionalInfo,
    pub flags: QueryInfoFlags,
    /// The file id, persistent then volatile part.
    pub file_id: [u8; 16],
    pub data: GetInfoRequestData,
}

/// A request as a value.
pub struct QueryInfoRequestView {
    pub info_type: InfoType,
    pub info_class: QueryInfoClass,
    pub output_buffer_length: u32,
    pub additional_info: u32,
    pub flags: u32,
    pub file_id: Seq<u8>,
    pub data: GetInfoRequestDataView,
}

impl View for QueryInfoRequest {
    type V = QueryInfoRequestView;

    open spec fn view(&self) -> QueryInfoRequestView {
        QueryInfoRequestView {
            info_type: self.info_type,
            info_class: self.info_class,
            output_buffer_length: self.output_buffer_length,
            additional_info: self.additional_info.bits,
            flags: self.flags.bits,
            file_id: self.file_id@,
            data: self.data@,
        }
    }
}

/// Whether the input data of a request fits its 32-bit length field.
pub open spec fn request_sizes_fit(r: QueryInfoRequestView) -> bool {
    match r.data {
        GetInfoRequestDataView::Quota(q) => 16 + quota_content_len(q) + quota_sid_len(q)
            <= u32::MAX,
        GetInfoRequestDataView::EaInfo(v) => v.len() <= u32::MAX,
        GetInfoRequestDataView::NoData => true,
    }
}

/// Writing the input data: quota parameters only for a quota query,
/// extended attribute names only for a full-EA file query.
pub open spec fn spec_encode_request_data(r: QueryInfoRequestView) -> Result<Seq<u8>, QueryError> {
    match r.data {
        GetInfoRequestDataView::NoData => Ok(Seq::empty()),
        GetInfoRequestDataView::EaInfo(v) => if is_full_ea(r.info_type, r.info_class) {
            Ok(v)
        } else {
            Err(QueryError::DataMismatch)
        },
        GetInfoRequestDataView::Quota(q) => if r.info_type == InfoType::Quota {
            spec_encode_quota(q)
        } else {
            Err(QueryError::DataMismatch)
        },
    }
}

/// A request body with input data `data`: structure size 41, type, class,
/// output length, input offset 0x68, zero reserved field, input length,
/// additional information, flags, file id, input data.
pub open spec fn request_bytes(r: QueryInfoRequestView, data: Seq<u8>) -> Seq<u8> {
    le16_bytes(QUERY_INFO_REQUEST_SIZE) + seq![info_type_code(r.info_type), class_byte(r.info_class)]
        + le32_bytes(r.output_buffer_length) + le16_bytes(QUERY_INFO_INPUT_OFFSET) + le16_bytes(0)
        + le32_bytes(data.len() as u32) + le32_bytes(r.additional_info) + le32_bytes(r.flags)
        + r.file_id + data
}

/// Writing a request body: the class must fit the type and the data must
/// fit both. Structure size 41, type, class, output length, input offset
/// 0x68, zero reserved field, input length, additional information, flags,
/// file id, input data.
pub open spec fn spec_encode_request(r: QueryInfoRequestView) -> Result<Seq<u8>, QueryError> {
    if !class_fits(r.info_type, r.info_class) {
        Err(QueryError::ClassMismatch)
    } else {
        match spec_encode_request_data(r) {
            Err(e) => Err(e),
            Ok(data) => Ok(request_bytes(r, data)),
        }
    }
}

/// The class read for an information type from the class byte `v`: no
/// information class is numbered zero, so a zero byte is the empty class
/// whatever the type; other bytes are a class of a file or file system
/// query and refused for the other types.
pub open spec fn class_for(t: InfoType, v: u8) -> Result<QueryInfoClass, QueryError> {
    if v == 0 {
        Ok(QueryInfoClass::Empty(NullByte {}))
    } else if t == InfoType::File {
        Ok(QueryInfoClass::File(v))
    } else if t == InfoType::FileSystem {
        Ok(QueryInfoClass::FileSystem(v))
    } else if v != 0 {
        Err(QueryError::NonZeroNullByte)
    } else {
        Ok(QueryInfoClass::Empty(NullByte {}))
    }
}

/// Reading the input data: quota parameters for a quota query, the
/// extended attribute names (all `len` bytes) for a full-EA file query,
/// nothing otherwise. `input` holds what is present of the `len` bytes.
pub open spec fn spec_parse_request_data(
    t: InfoType,
    c: QueryInfoClass,
    input: Seq<u8>,
    len: u32,
) -> Result<GetInfoRequestDataView, QueryError> {
    if t == InfoType::Quota {
        match spec_parse_quota(input) {
            Ok(q) => Ok(GetInfoRequestDataView::Quota(q)),
            Err(e) => Err(e),
        }
    } else if is_full_ea(t, c) {
        if len > input.len() {
            Err(QueryError::UnexpectedEof)
        } else {
            Ok(GetInfoRequestDataView::EaInfo(input))
        }
    } else {
        Ok(GetInfoRequestDataView::NoData)
    }
}

/// Reading a request body field by field: the structure size must be 41,
/// the type known, the class byte fitting the type; the input data is read
/// from right after the fixed part, limited to the stated input length.
pub open spec fn spec_parse_request(b: Seq<u8>) -> Result<QueryInfoRequestView, QueryError> {
    if b.len() < 2 {
        Err(QueryError::UnexpectedEof)
    } else if le_u16(b, 0) != QUERY_INFO_REQUEST_SIZE {
        Err(QueryError::InvalidStructureSize)
    } else if b.len() < 3 {
        Err(QueryError::UnexpectedEof)
    } else {
        match info_type_of(b[2]) {
            None => Err(QueryError::InvalidInfoType),
            Some(t) => if b.len() < 4 {
                Err(QueryError::UnexpectedEof)
            } else {
                match class_for(t, b[3]) {
                    Err(e) => Err(e),
                    Ok(c) => if b.len() < 40 {
                        Err(QueryError::UnexpectedEof)
                    } else {
                        let len = le_u32(b, 12);
                        let end = if 40 + len <= b.len() {
                            40 + len
                        } else {
                            b.len() as int
                        };
                        match spec_parse_request_data(t, c, b.subrange(40, end), len) {
                            Err(e) => Err(e),
                            Ok(data) => Ok(
                                QueryInfoRequestView {
                                    info_type: t,
                                    info_class: c,
                                    output_buffer_length: le_u32(b, 4),
                                    additional_info: le_u32(b, 16),
                                    flags: le_u32(b, 20),
                                    file_id: b.subrange(24, 40),
                                    data,
                                },
                            ),
                        }
                    },
                }
            },
        }
    }
}

/// The bytes of `b` from `start` to `end`.
fn copy_range(b: &[u8], start: usize, end: usize) -> (v: Vec<u8>)
    requires
        start <= end <= b@.len(),
    ensures
        v@ == b@.subrange(start as int, end as int),
{
    let mut v: Vec<u8> = Vec::new();
    let mut i = start;
    while i < end
        invariant
            start <= i <= end <= b@.len(),
            v@ == b@.subrange(start as int, i as int),
        decreases end - i,
    {
        v.push(b[i]);
        i = i + 1;
        assert(v@ =~= b@.subrange(start as int, i as int));
    }
    v
}

/// The little-endian `u32` at `o`.
fn get_u32(b: &[u8], o: usize) -> (v: u32)
    requires
        o + 4 <= b@.len(),
    ensures
        v == le_u32(b@, o as int),
{
    b[o] as u32 + b[o + 1] as u32 * 0x100 + b[o + 2] as u32 * 0x1_0000 + b[o + 3] as u32 * 0x100_0000
}

impl QueryInfoRequest {
    /// Writes the request body.
    pub fn encode(&self) -> (r: Result<Vec<u8>, QueryError>)
        requires
            request_sizes_fit(self@),
        ensures
            match r {
                Ok(b) => spec_encode_request(self@) == Ok::<Seq<u8>, QueryError>(b@),
                Err(e) => spec_encode_request(self@) == Err::<Seq<u8>, QueryError>(e),
            },
    {
        let fits = match self.info_class {
            QueryInfoClass::File(_) => self.info_type == InfoType::File,
            QueryInfoClass::FileSystem(_) => self.info_type == InfoType::FileSystem,
            QueryInfoClass::Empty(_) => true,
        };
        if !fits {
            return Err(QueryError::ClassMismatch);
        }
        let full_ea = self.info_type == InfoType::File && match self.info_class {
            QueryInfoClass::File(c) => c == FULL_EA_INFORMATION,
            _ => false,
        };
        let data: Vec<u8> = match &self.data {
            GetInfoRequestData::NoData => Vec::new(),
            GetInfoRequestData::EaInfo(e) => {
                if !full_ea {
                    return Err(QueryError::DataMismatch);
                }
                copy_range(e.values.as_slice(), 0, e.values.len())
            },
            GetInfoRequestData::Quota(q) => {
                if self.info_type != InfoType::Quota {
                    return Err(QueryError::DataMismatch);
                }
                q.encode()?
            },
        };
        proof {
            if let GetInfoRequestDataView::Quota(q) = self@.data {
                lemma_encode_quota_len(q);
            }
        }
        let class = match self.info_class {
            QueryInfoClass::File(c) => c,
            QueryInfoClass::FileSystem(c) => c,
            QueryInfoClass::Empty(n) => n.write(),
        };
        let mut buf: Vec<u8> = Vec::new();
        push_u16_le(&mut buf, QUERY_INFO_REQUEST_SIZE);
        buf.push(self.info_type.code());
        buf.push(class);
        push_u32_le(&mut buf, self.output_buffer_length);
        push_u16_le(&mut buf, QUERY_INFO_INPUT_OFFSET);
        push_u16_le(&mut buf, 0);
        push_u32_le(&mut buf, data.len() as u32);
        push_u32_le(&mut buf, self.additional_info.bits);
        push_u32_le(&mut buf, self.flags.bits);
        push_bytes(&mut buf, &self.file_id);
        push_bytes(&mut buf, data.as_slice());
        assert(buf@ =~= spec_encode_request(self@)->Ok_0);
        Ok(buf)
    }

    /// Reads a request body.
    pub fn decode(b: &[u8]) -> (r: Result<QueryInfoRequest, QueryError>)
        ensures
            match r {
                Ok(v) => spec_parse_request(b@) == Ok::<QueryInfoRequestView, QueryError>(v@),
                Err(e) => spec_parse_request(b@) == Err::<QueryInfoRequestView, QueryError>(e),
            },
    {
        if b.len() < 2 {
            return Err(QueryError::UnexpectedEof);
        }
        let size: u16 = b[0] as u16 + b[1] as u16 * 256;
        if size != QUERY_INFO_REQUEST_SIZE {
            return Err(QueryError::InvalidStructureSize);
        }
        if b.len() < 3 {
            return Err(QueryError::UnexpectedEof);
        }
        let info_type = match InfoType::from_code(b[2]) {
            None => {
                return Err(QueryError::InvalidInfoType);
            },
            Some(t) => t,
        };
        if b.len() < 4 {
            return Err(QueryError::UnexpectedEof);
        }
        let info_class = if b[3] == 0 {
            QueryInfoClass::Empty(NullByte {})
        } else {
            match info_type {
                InfoType::File => QueryInfoClass::File(b[3]),
                InfoType::FileSystem => QueryInfoClass::FileSystem(b[3]),
                _ => QueryInfoClass::Empty(NullByte::read(b[3])?),
            }
        };
        if b.len() < 40 {
            return Err(QueryError::UnexpectedEof);
        }
        let output_buffer_length = get_u32(b, 4);
        let len = get_u32(b, 12);
        let additional_info = get_u32(b, 16);
        let flags = get_u32(b, 20);
        let file_id: [u8; 16] = [
            b[24],
            b[25],
            b[26],
            b[27],
            b[28],
            b[29],
            b[30],
            b[31],
            b[32],
            b[33],
            b[34],
            b[35],
            b[36],
            b[37],
            b[38],
            b[39],
        ];
        assert(file_id@ =~= b@.subrange(24, 40));
        let end: usize = if len as usize <= b.len() - 40 {
            40 + len as usize
        } else {
            b.len()
        };
        let input = copy_range(b, 40, end);
        let full_ea = info_type == InfoType::File && match info_class {
            QueryInfoClass::File(c) => c == FULL_EA_INFORMATION,
            _ => false,
        };
        let data = if info_type == InfoType::Quota {
            GetInfoRequestData::Quota(QueryQuotaInfo::decode(input.as_slice())?)
        } else if full_ea {
            if len as usize > input.len() {
                return Err(QueryError::UnexpectedEof);
            }
            GetInfoRequestData::EaInfo(GetEaInfoList { values: input })
        } else {
            GetInfoRequestData::NoData
        };
        Ok(
            QueryInfoRequest {
                info_type,
                info_class,
                output_buffer_length,
                additional_info: AdditionalInfo { bits: additional_info },
                flags: QueryInfoFlags { bits: flags },
                file_id,
                data,
            },
        )
    }
}

// ---------------------------------------------------------------------------
// QUERY_INFO response (MS-SMB2 2.2.38)
// ---------------------------------------------------------------------------

/// The raw information a server returned, to be interpreted according to
/// the type and class of the query.
pub struct QueryInfoResponseData {
    pub data: Vec<u8>,
}

impl QueryInfoResponseData {
    /// The raw bytes.
    pub fn data(&self) -> (d: &[u8])
        ensures
            d@ == self.data@,
    {
        self.data.as_slice()
    }
}

impl From<Vec<u8>> for QueryInfoResponseData {
    fn from(data: Vec<u8>) -> (r: QueryInfoResponseData) {
        QueryInfoResponseData { data }
    }
}

impl vstd::std_specs::convert::FromSpecImpl<Vec<u8>> for QueryInfoResponseData {
    open spec fn obeys_from_spec() -> bool {
        true
    }

    open spec fn from_spec(data: Vec<u8>) -> QueryInfoResponseData {
        QueryInfoResponseData { data }
    }
}

/// The response to a QUERY_INFO request.
pub struct QueryInfoResponse {
    pub data: QueryInfoResponseData,
}

/// Writing a response body: structure size 9, output offset 0x48, output
/// length, the data.
pub open spec fn spec_encode_response(data: Seq<u8>) -> Seq<u8> {
    le16_bytes(QUERY_INFO_RESPONSE_SIZE) + le16_bytes(QUERY_INFO_OUTPUT_OFFSET) + le32_bytes(
        data.len() as u32,
    ) + data
}

/// Reading a response whose body starts at `body` in the message `m`
/// (offsets count from the start of `m`): the structure size must be 9;
/// the data are the bytes at the stated offset, as many as the stated
/// length asks for and the message holds.
pub open spec fn spec_parse_response(m: Seq<u8>, body: int) -> Result<Seq<u8>, QueryError> {
    if body + 2 > m.len() {
        Err(QueryError::UnexpectedEof)
    } else if le_u16(m, body) != QUERY_INFO_RESPONSE_SIZE {
        Err(QueryError::InvalidStructureSize)
    } else if body + 8 > m.len() {
        Err(QueryError::UnexpectedEof)
    } else {
        let start = le_u16(m, body + 2) as int;
        let len = le_u32(m, body + 4) as int;
        if start >= m.len() {
            Ok(Seq::empty())
        } else if start + len <= m.len() {
            Ok(m.subrange(start, start + len))
        } else {
            Ok(m.subrange(start, m.len() as int))
        }
    }
}

impl QueryInfoResponse {
    /// The raw bytes returned.
    pub fn data(&self) -> (d: &[u8])
        ensures
            d@ == self.data.data@,
    {
        self.data.data()
    }

    /// Writes the response body, to follow a 64-byte header.
    pub fn encode(&self) -> (b: Vec<u8>)
        requires
            self.data.data@.len() <= u32::MAX,
        ensures
            b@ == spec_encode_response(self.data.data@),
    {
        let mut buf: Vec<u8> = Vec::new();
        push_u16_le(&mut buf, QUERY_INFO_RESPONSE_SIZE);
        push_u16_le(&mut buf, QUERY_INFO_OUTPUT_OFFSET);
        push_u32_le(&mut buf, self.data.data.len() as u32);
        push_bytes(&mut buf, self.data.data.as_slice());
        assert(buf@ =~= spec_encode_response(self.data.data@));
        buf
    }

    /// Reads a response whose body starts at `body` in the message `m`.
    pub fn decode(m: &[u8], body: usize) -> (r: Result<QueryInfoResponse, QueryError>)
        ensures
            match r {
                Ok(v) => spec_parse_response(m@, body as int) == Ok::<Seq<u8>, QueryError>(
                    v.data.data@,
                ),
                Err(e) => spec_parse_response(m@, body as int) == Err::<Seq<u8>, QueryError>(e),
            },
    {
        if body > m.len() || m.len() - body < 2 {
            return Err(QueryError::UnexpectedEof);
        }
        let size: u16 = m[body] as u16 + m[body + 1] as u16 * 256;
        if size != QUERY_INFO_RESPONSE_SIZE {
            return Err(QueryError::InvalidStructureSize);
        }
        if m.len() - body < 8 {
            return Err(QueryError::UnexpectedEof);
        }
        let start: u16 = m[body + 2] as u16 + m[body + 3] as u16 * 256;
        let len = get_u32(m, body + 4);
        let start = start as usize;
        let data = if start >= m.len() {
            Vec::new()
        } else if len as usize <= m.len() - start {
            copy_range(m, start, start + len as usize)
        } else {
            copy_range(m, start, m.len())
        };
        Ok(QueryInfoResponse { data: QueryInfoResponseData { data } })
    }
}

// ---------------------------------------------------------------------------
// Laws
// ---------------------------------------------------------------------------

/// Law: a response body written after a 64-byte header reads back, from
/// the body's position, as the same data, whatever follows it.
pub proof fn lemma_response_roundtrip(header: Seq<u8>, data: Seq<u8>, after: Seq<u8>)
    requires
        header.len() == SMB2_HEADER_SIZE,
        data.len() <= u32::MAX,
    ensures
        spec_parse_response(header + spec_encode_response(data) + after, SMB2_HEADER_SIZE as int)
            == Ok::<Seq<u8>, QueryError>(data),
{
    let m = header + spec_encode_response(data) + after;
    assert(m.subrange(64, 66) =~= le16_bytes(QUERY_INFO_RESPONSE_SIZE));
    lemma_read_back_u16(m, 64, QUERY_INFO_RESPONSE_SIZE);
    assert(m.subrange(66, 68) =~= le16_bytes(QUERY_INFO_OUTPUT_OFFSET));
    lemma_read_back_u16(m, 66, QUERY_INFO_OUTPUT_OFFSET);
    assert(m.subrange(68, 72) =~= le32_bytes(data.len() as u32));
    lemma_read_back_u32(m, 68, data.len() as u32);
    assert(m.subrange(72, 72 + data.len() as int) =~= data);
    if 72 >= m.len() {
        assert(data =~= Seq::<u8>::empty());
    }
}

/// The quota queries that survive a write and a read: exactly one of a
/// non-empty entry list and a SID of at most 255 sub-authorities and a
/// 48-bit authority.
pub open spec fn quota_roundtrips(q: QueryQuotaInfoView) -> bool {
    &&& (q.content is Some) != (q.sid is Some)
    &&& q.content matches Some(c) ==> 0 < c.len() <= u32::MAX
    &&& q.sid matches Some(s) ==> s.subs.len() <= 255 && s.authority < 0x1_0000_0000_0000
}

/// Law: a quota query with exactly one of a non-empty entry list and a SID
/// is written without error and reads back as itself. (An empty entry list
/// is not written, so it reads back as absent and the read fails.)
#[verifier::rlimit(40)]
pub proof fn lemma_quota_roundtrip(q: QueryQuotaInfoView)
    requires
        quota_roundtrips(q),
    ensures
        spec_encode_quota(q) is Ok,
        spec_parse_quota(spec_encode_quota(q)->Ok_0) == Ok::<QueryQuotaInfoView, QueryError>(q),
{
    let b = spec_encode_quota(q)->Ok_0;
    let content = match q.content {
        Some(c) => c,
        None => Seq::empty(),
    };
    let sid = match q.sid {
        Some(s) => sid_bytes(s.authority, s.subs),
        None => Seq::empty(),
    };
    crate::ndr::lemma_sub_authority_bytes_len(
        match q.sid {
            Some(s) => s.subs,
            None => Seq::empty(),
        },
    );
    assert(b.subrange(4, 8) =~= le32_bytes(content.len() as u32));
    lemma_read_back_u32(b, 4, content.len() as u32);
    assert(b.subrange(8, 12) =~= le32_bytes(sid.len() as u32));
    lemma_read_back_u32(b, 8, sid.len() as u32);
    assert(b.subrange(12, 16) =~= le32_bytes(0));
    lemma_read_back_u32(b, 12, 0);
    let header = b.subrange(0, 16);
    match q.content {
        Some(c) => {
            assert(b.subrange(16, 16 + c.len() as int) =~= c);
        },
        None => {
            let s = q.sid->Some_0;
            assert(b =~= header + sid_bytes(s.authority, s.subs) + Seq::<u8>::empty());
            lemma_sid_roundtrip(header, s.authority, s.subs, Seq::empty());
        },
    }
    assert(b[0] != 0 == q.return_single);
    assert(b[1] != 0 == q.restart_scan);
}

/// Whether a named class is non-zero: no information class is numbered 0.
pub open spec fn names_nonzero_class(c: QueryInfoClass) -> bool {
    match c {
        QueryInfoClass::File(x) => x != 0,
        QueryInfoClass::FileSystem(x) => x != 0,
        QueryInfoClass::Empty(_) => true,
    }
}

/// The requests that survive a write and a read: the class fits the type
/// and, when it names a class, that class is non-zero; the data is quota
/// parameters exactly for a quota query and extended attribute names
/// exactly for a full-EA file query; quota parameters survive on their own;
/// the sizes fit their fields.
pub open spec fn request_roundtrips(r: QueryInfoRequestView) -> bool {
    &&& class_fits(r.info_type, r.info_class)
    &&& names_nonzero_class(r.info_class)
    &&& (r.info_type == InfoType::Quota) == (r.data is Quota)
    &&& is_full_ea(r.info_type, r.info_class) == (r.data is EaInfo)
    &&& r.data matches GetInfoRequestDataView::Quota(q) ==> quota_roundtrips(q)
    &&& r.file_id.len() == 16
    &&& request_sizes_fit(r)
}

/// The input data of a request reads back as itself.
proof fn lemma_request_data_roundtrip(r: QueryInfoRequestView)
    requires
        request_roundtrips(r),
    ensures
        spec_encode_request_data(r) is Ok,
        spec_parse_request_data(
            r.info_type,
            r.info_class,
            spec_encode_request_data(r)->Ok_0,
            spec_encode_request_data(r)->Ok_0.len() as u32,
        ) == Ok::<GetInfoRequestDataView, QueryError>(r.data),
        spec_encode_request_data(r)->Ok_0.len() <= u32::MAX,
{
    match r.data {
        GetInfoRequestDataView::Quota(q) => {
            lemma_quota_roundtrip(q);
            lemma_encode_quota_len(q);
        },
        _ => {},
    }
}

/// Law: every information type reads back from its wire value, so no two
/// types share one.
pub proof fn lemma_info_type_roundtrip(t: InfoType)
    ensures
        info_type_of(info_type_code(t)) == Some(t),
{
}

/// The fixed part of a request body reads back as its fields.
#[verifier::rlimit(50)]
proof fn lemma_request_bytes_roundtrip(r: QueryInfoRequestView, data: Seq<u8>)
    requires
        class_fits(r.info_type, r.info_class),
        names_nonzero_class(r.info_class),
        r.file_id.len() == 16,
        data.len() <= u32::MAX,
        spec_parse_request_data(r.info_type, r.info_class, data, data.len() as u32) == Ok::<
            GetInfoRequestDataView,
            QueryError,
        >(r.data),
    ensures
        spec_parse_request(request_bytes(r, data)) == Ok::<QueryInfoRequestView, QueryError>(r),
{
    let b = request_bytes(r, data);
    lemma_info_type_roundtrip(r.info_type);
    assert(b.len() == 40 + data.len());
    assert(b.subrange(0, 2) =~= le16_bytes(QUERY_INFO_REQUEST_SIZE));
    lemma_read_back_u16(b, 0, QUERY_INFO_REQUEST_SIZE);
    assert(b[2] == info_type_code(r.info_type));
    assert(b[3] == class_byte(r.info_class));
    assert(b.subrange(4, 8) =~= le32_bytes(r.output_buffer_length));
    lemma_read_back_u32(b, 4, r.output_buffer_length);
    assert(b.subrange(12, 16) =~= le32_bytes(data.len() as u32));
    lemma_read_back_u32(b, 12, data.len() as u32);
    assert(b.subrange(16, 20) =~= le32_bytes(r.additional_info));
    lemma_read_back_u32(b, 16, r.additional_info);
    assert(b.subrange(20, 24) =~= le32_bytes(r.flags));
    lemma_read_back_u32(b, 20, r.flags);
    assert(b.subrange(24, 40) =~= r.file_id);
    assert(b.subrange(40, 40 + data.len() as int) =~= data);
    assert(class_for(r.info_type, class_byte(r.info_class)) == Ok::<QueryInfoClass, QueryError>(
        r.info_class,
    ));
}

/// Law: a request whose class fits its type and whose data fits both is
/// written without error and reads back as itself. (A file query for full
/// extended attributes with no data, for one, does not: it reads back with
/// an empty attribute list.)
pub proof fn lemma_request_roundtrip(r: QueryInfoRequestView)
    requires
        request_roundtrips(r),
    ensures
        spec_encode_request(r) is Ok,
        spec_parse_request(spec_encode_request(r)->Ok_0) == Ok::<QueryInfoRequestView, QueryError>(
            r,
        ),
{
    lemma_request_data_roundtrip(r);
    let data = spec_encode_request_data(r)->Ok_0;
    lemma_request_bytes_roundtrip(r, data);
}

/// Law: a written request body starts with the structure size 41, then
/// the information type, then the class: the class number itself for a file
/// or file system class, zero for the empty class; then the output buffer
/// length, and it ends with the file id and the input data.
pub proof fn lemma_request_header_bytes(r: QueryInfoRequestView)
    requires
        spec_encode_request(r) is Ok,
    ensures
        ({
            let b = spec_encode_request(r)->Ok_0;
            &&& b.len() >= 24
            &&& le_u16(b, 0) == 41
            &&& b[2] == info_type_code(r.info_type)
            &&& (r.info_class matches QueryInfoClass::File(x) ==> b[3] == x)
            &&& (r.info_class matches QueryInfoClass::FileSystem(x) ==> b[3] == x)
            &&& (r.info_class is Empty ==> b[3] == 0)
            &&& le_u32(b, 4) == r.output_buffer_length
            &&& le_u32(b, 16) == r.additional_info
            &&& le_u32(b, 20) == r.flags
        }),
{
    let data = spec_encode_request_data(r)->Ok_0;
    let b = request_bytes(r, data);
    assert(b == spec_encode_request(r)->Ok_0);
    assert(b.len() == 24 + r.file_id.len() + data.len());
    assert(b.subrange(0, 2) =~= le16_bytes(QUERY_INFO_REQUEST_SIZE));
    lemma_read_back_u16(b, 0, QUERY_INFO_REQUEST_SIZE);
    assert(b[2] == info_type_code(r.info_type));
    assert(b[3] == class_byte(r.info_class));
    assert(b.subrange(4, 8) =~= le32_bytes(r.output_buffer_length));
    lemma_read_back_u32(b, 4, r.output_buffer_length);
    assert(b.subrange(16, 20) =~= le32_bytes(r.additional_info));
    lemma_read_back_u32(b, 16, r.additional_info);
    assert(b.subrange(20, 24) =~= le32_bytes(r.flags));
    lemma_read_back_u32(b, 20, r.flags);
}

} // verus!
