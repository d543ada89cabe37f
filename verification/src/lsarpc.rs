//! The LSAR (Local Security Authority Remote) RPC interface, MS-LSAD 3.1.4:
//! SID-to-name resolution over the `\lsarpc` named pipe in NDR 2.0.
//!
//! The calls are marshalled and their replies read here; a client drives
//! the exchange with the steps of [`Lsar`].

use vstd::prelude::*;

use crate::ndr::{
    align_up, check_bounds, eof, le32_bytes, lemma_read_back_u32, ndr20_rpc_sid,
    ndr20_string_units, ndr20_wide_array, pad_to, push_bytes, push_u32_le, read_u32,
    spec_read_u32, write_ndr20_rpc_sid, write_ndr20_string, zeros, NdrError,
};
use crate::lookup_reply::{LookupSidsOutView, LsarLookupSidsOut, NameEntryView};
use crate::sid::Sid;
use vstd::string::StringExecFns;

verus! {

/// ACCESS_MASK asked for by LsarOpenPolicy2: allows SID-to-name lookups
/// (MS-LSAD 2.2.1.1.2).
pub const POLICY_LOOKUP_NAMES: u32 = 0x0000_0800;

/// The referent id of a non-null NDR 2.0 unique pointer.
pub const REF_ID: u32 = 0x0002_0000;

/// Operation number of LsarClose.
pub const LSAR_CLOSE_OPNUM: u16 = 0;

/// Operation number of LsarLookupSids.
pub const LSAR_LOOKUP_SIDS_OPNUM: u16 = 15;

/// Operation number of LsarOpenPolicy2.
pub const LSAR_OPEN_POLICY2_OPNUM: u16 = 44;

/// Status of a lookup where some names were not mapped.
pub const STATUS_SOME_NOT_MAPPED: u32 = 0x0000_0107;

/// Status of a lookup where no name was mapped.
pub const STATUS_NONE_MAPPED: u32 = 0xC000_0073;

/// The most SIDs one LsarLookupSids request can carry: the pointer ids
/// `REF_ID + 4 * i` must stay within 32 bits.
pub const MAX_LOOKUP_SIDS: usize = 0x3FFF_7FFF;

/// SID_NAME_USE: the type of a resolved account (MS-LSAD 2.2.13).
#[derive(Debug, PartialEq, Eq, Structural, Clone, Copy)]
pub enum SidNameUse {
    User,
    Group,
    Domain,
    Alias,
    WellKnownGroup,
    DeletedAccount,
    Invalid,
    Unknown,
    Computer,
    Label,
}

/// The account type that the wire value `v` denotes; values without a
/// type of their own (0, 8 and above 10) are `Unknown`.
pub open spec fn spec_sid_name_use(v: u32) -> SidNameUse {
    match v {
        1 => SidNameUse::User,
        2 => SidNameUse::Group,
        3 => SidNameUse::Domain,
        4 => SidNameUse::Alias,
        5 => SidNameUse::WellKnownGroup,
        6 => SidNameUse::DeletedAccount,
        7 => SidNameUse::Invalid,
        9 => SidNameUse::Computer,
        10 => SidNameUse::Label,
        _ => SidNameUse::Unknown,
    }
}

/// Law: each value from 1 to 10 other than 8 denotes an account type of
/// its own, no two the same; every other value is `Unknown`.
pub proof fn lemma_sid_name_use_codes(v: u32, w: u32)
    ensures
        spec_sid_name_use(v) == SidNameUse::Unknown <==> (v == 0 || v == 8 || v > 10),
        spec_sid_name_use(v) != SidNameUse::Unknown && spec_sid_name_use(v) == spec_sid_name_use(
            w,
        ) ==> v == w,
{
}

/// Maps a wire SID_NAME_USE value to its account type.
pub fn sid_name_use_from_u32(v: u32) -> (r: SidNameUse)
    ensures
        r == spec_sid_name_use(v),
{
    match v {
        1 => SidNameUse::User,
        2 => SidNameUse::Group,
        3 => SidNameUse::Domain,
        4 => SidNameUse::Alias,
        5 => SidNameUse::WellKnownGroup,
        6 => SidNameUse::DeletedAccount,
        7 => SidNameUse::Invalid,
        9 => SidNameUse::Computer,
        10 => SidNameUse::Label,
        _ => SidNameUse::Unknown,
    }
}

/// A resolved SID: account name, its domain, and its type.
#[derive(Debug, Clone, PartialEq, Eq)]
pub struct ResolvedName {
    pub name: String,
    pub domain: String,
    pub sid_type: SidNameUse,
}

// ---------------------------------------------------------------------------
// LsarOpenPolicy2 (opnum 44)
// ---------------------------------------------------------------------------

/// The request of LsarOpenPolicy2.
pub struct LsarOpenPolicy2In {
    /// `\\` followed by the server's name.
    pub server_name: String,
}

/// The reply of LsarOpenPolicy2: the policy handle and the status.
#[derive(Debug, Clone, Copy)]
pub struct LsarOpenPolicy2Out {
    pub handle: [u8; 20],
    pub return_value: u32,
}

/// The marshalled LsarOpenPolicy2 request for the server name `name`: the
/// unique pointer and wide string of SystemName, padding to 4, the
/// all-zero OBJECT_ATTRIBUTES of length 24, and the desired access.
pub open spec fn open_policy2_request_bytes(name: Seq<char>) -> Seq<u8> {
    let head = le32_bytes(REF_ID) + ndr20_wide_array(ndr20_string_units(name));
    head + zeros((align_up(head.len() as int, 4) - head.len()) as nat) + le32_bytes(24)
        + le32_bytes(0) + le32_bytes(0) + le32_bytes(0) + le32_bytes(0) + le32_bytes(0)
        + le32_bytes(POLICY_LOOKUP_NAMES)
}

impl LsarOpenPolicy2In {
    /// Marshals the request.
    pub fn encode(&self) -> (buf: Vec<u8>)
        ensures
            buf@ == open_policy2_request_bytes(self.server_name@),
    {
        let mut buf: Vec<u8> = Vec::new();
        push_u32_le(&mut buf, REF_ID);
        write_ndr20_string(&mut buf, self.server_name.as_str());
        let ghost head = buf@;
        pad_to(&mut buf, 4);
        push_u32_le(&mut buf, 24);
        push_u32_le(&mut buf, 0);
        push_u32_le(&mut buf, 0);
        push_u32_le(&mut buf, 0);
        push_u32_le(&mut buf, 0);
        push_u32_le(&mut buf, 0);
        push_u32_le(&mut buf, POLICY_LOOKUP_NAMES);
        assert(head =~= le32_bytes(REF_ID) + ndr20_wide_array(
            ndr20_string_units(self.server_name@),
        ));
        assert(buf@ =~= open_policy2_request_bytes(self.server_name@));
        buf
    }
}

/// Reading a reply made of a 20-byte handle and a 32-bit status.
pub open spec fn spec_read_handle_reply(d: Seq<u8>) -> Result<(Seq<u8>, u32), NdrError> {
    if 20 > d.len() {
        Err(eof(d.len() as int, 0, 20))
    } else {
        match spec_read_u32(d, 20) {
            Err(e) => Err(e),
            Ok((v, _)) => Ok((d.subrange(0, 20), v)),
        }
    }
}

/// Reads a 20-byte handle and the status after it.
fn read_handle_reply(d: &[u8]) -> (r: Result<([u8; 20], u32), NdrError>)
    ensures
        match r {
            Ok((h, v)) => spec_read_handle_reply(d@) == Ok::<(Seq<u8>, u32), NdrError>((h@, v)),
            Err(e) => spec_read_handle_reply(d@) == Err::<(Seq<u8>, u32), NdrError>(e),
        },
{
    check_bounds(d, 0, 20)?;
    let handle: [u8; 20] = [
        d[0],
        d[1],
        d[2],
        d[3],
        d[4],
        d[5],
        d[6],
        d[7],
        d[8],
        d[9],
        d[10],
        d[11],
        d[12],
        d[13],
        d[14],
        d[15],
        d[16],
        d[17],
        d[18],
        d[19],
    ];
    let (return_value, _) = read_u32(d, 20)?;
    assert(handle@ =~= d@.subrange(0, 20));
    Ok((handle, return_value))
}

impl LsarOpenPolicy2Out {
    /// Reads the reply: the handle in the first 20 bytes, the status in the
    /// next 4. Bytes after those are ignored.
    pub fn decode(d: &[u8]) -> (r: Result<LsarOpenPolicy2Out, NdrError>)
        ensures
            match r {
                Ok(out) => spec_read_handle_reply(d@) == Ok::<(Seq<u8>, u32), NdrError>(
                    (out.handle@, out.return_value),
                ),
                Err(e) => spec_read_handle_reply(d@) == Err::<(Seq<u8>, u32), NdrError>(e),
            },
    {
        let (handle, return_value) = read_handle_reply(d)?;
        Ok(LsarOpenPolicy2Out { handle, return_value })
    }
}

/// Law: a reply made of a 20-byte handle and a little-endian status reads
/// back as that handle and that status, whatever follows.
pub proof fn lemma_handle_reply_roundtrip(handle: Seq<u8>, status: u32, after: Seq<u8>)
    requires
        handle.len() == 20,
    ensures
        spec_read_handle_reply(handle + le32_bytes(status) + after) == Ok::<
            (Seq<u8>, u32),
            NdrError,
        >((handle, status)),
{
    let b = handle + le32_bytes(status) + after;
    assert(b.subrange(20, 24) =~= le32_bytes(status));
    lemma_read_back_u32(b, 20, status);
    assert(b.subrange(0, 20) =~= handle);
}

// ---------------------------------------------------------------------------
// LsarClose (opnum 0)
// ---------------------------------------------------------------------------

/// The request of LsarClose: the policy handle to close.
#[derive(Debug, Clone, Copy)]
pub struct LsarCloseIn {
    pub handle: [u8; 20],
}

/// The reply of LsarClose: the (zeroed) handle and the status.
#[derive(Debug, Clone, Copy)]
pub struct LsarCloseOut {
    pub handle: [u8; 20],
    pub return_value: u32,
}

impl LsarCloseIn {
    /// Marshals the request: the 20 bytes of the handle.
    pub fn encode(&self) -> (buf: Vec<u8>)
        ensures
            buf@ == self.handle@,
    {
        let mut buf: Vec<u8> = Vec::new();
        push_bytes(&mut buf, &self.handle);
        assert(buf@ =~= self.handle@);
        buf
    }
}

impl LsarCloseOut {
    /// Reads the reply: the handle in the first 20 bytes, the status in the
    /// next 4. Bytes after those are ignored.
    pub fn decode(d: &[u8]) -> (r: Result<LsarCloseOut, NdrError>)
        ensures
            match r {
                Ok(out) => spec_read_handle_reply(d@) == Ok::<(Seq<u8>, u32), NdrError>(
                    (out.handle@, out.return_value),
                ),
                Err(e) => spec_read_handle_reply(d@) == Err::<(Seq<u8>, u32), NdrError>(e),
            },
    {
        let (handle, return_value) = read_handle_reply(d)?;
        Ok(LsarCloseOut { handle, return_value })
    }
}

// ---------------------------------------------------------------------------
// LsarLookupSids (opnum 15)
// ---------------------------------------------------------------------------

/// The request of LsarLookupSids: the policy handle and the SIDs to resolve.
pub struct LsarLookupSidsIn {
    pub handle: [u8; 20],
    pub sids: Vec<Sid>,
}

/// The referent ids of the first `n` SID pointers: `REF_ID + 4 * (i + 1)`.
pub open spec fn sid_pointer_bytes(n: nat) -> Seq<u8>
    decreases n,
{
    if n == 0 {
        Seq::empty()
    } else {
        sid_pointer_bytes((n - 1) as nat) + le32_bytes((REF_ID + 4 * n) as u32)
    }
}

/// The RPC_SIDs of `sids`, one after the other.
pub open spec fn rpc_sids_bytes(sids: Seq<Sid>) -> Seq<u8>
    decreases sids.len(),
{
    if sids.len() == 0 {
        Seq::empty()
    } else {
        rpc_sids_bytes(sids.drop_last()) + ndr20_rpc_sid(
            sids.last().identifier_authority,
            sids.last().sub_authority@,
        )
    }
}

/// The marshalled LsarLookupSids request: the handle; the SID enumeration
/// buffer (count, pointer, conformance count, one pointer per SID, then the
/// SIDs); empty translated names; lookup level 1 (workstation); mapped
/// count 0.
pub open spec fn lookup_sids_request_bytes(handle: Seq<u8>, sids: Seq<Sid>) -> Seq<u8> {
    let count = sids.len() as u32;
    handle + le32_bytes(count) + le32_bytes(REF_ID) + le32_bytes(count) + sid_pointer_bytes(
        sids.len(),
    ) + rpc_sids_bytes(sids) + le32_bytes(0) + le32_bytes(0) + le32_bytes(1) + le32_bytes(0)
}

impl LsarLookupSidsIn {
    /// Marshals the request.
    pub fn encode(&self) -> (buf: Vec<u8>)
        requires
            self.sids@.len() <= MAX_LOOKUP_SIDS,
        ensures
            buf@ == lookup_sids_request_bytes(self.handle@, self.sids@),
    {
        let mut buf: Vec<u8> = Vec::new();
        let count = self.sids.len() as u32;
        push_bytes(&mut buf, &self.handle);
        push_u32_le(&mut buf, count);
        push_u32_le(&mut buf, REF_ID);
        push_u32_le(&mut buf, count);
        let ghost head = buf@;
        let mut i: u32 = 0;
        while i < count
            invariant
                count as int == self.sids@.len(),
                count <= MAX_LOOKUP_SIDS,
                i <= count,
                buf@ == head + sid_pointer_bytes(i as nat),
            decreases count - i,
        {
            push_u32_le(&mut buf, REF_ID + (i + 1) * 4);
            i = i + 1;
            assert(buf@ =~= head + sid_pointer_bytes(i as nat));
        }
        let ghost mid = buf@;
        let mut j: usize = 0;
        while j < self.sids.len()
            invariant
                j <= self.sids@.len(),
                buf@ == mid + rpc_sids_bytes(self.sids@.subrange(0, j as int)),
            decreases self.sids@.len() - j,
        {
            write_ndr20_rpc_sid(&mut buf, &self.sids[j]);
            proof {
                let pre = self.sids@.subrange(0, j as int);
                let next = self.sids@.subrange(0, j + 1);
                assert(next.drop_last() =~= pre);
            }
            j = j + 1;
            assert(buf@ =~= mid + rpc_sids_bytes(self.sids@.subrange(0, j as int)));
        }
        assert(self.sids@.subrange(0, self.sids@.len() as int) =~= self.sids@);
        push_u32_le(&mut buf, 0);
        push_u32_le(&mut buf, 0);
        push_u32_le(&mut buf, 1);
        push_u32_le(&mut buf, 0);
        assert(buf@ =~= lookup_sids_request_bytes(self.handle@, self.sids@));
        buf
    }
}

// ---------------------------------------------------------------------------
// The client's decisions
// ---------------------------------------------------------------------------

/// Why an LSAR exchange failed.
#[derive(Debug, Clone, Copy, PartialEq, Eq, Structural)]
pub enum LsarError {
    /// LsarOpenPolicy2 returned a non-zero status.
    OpenPolicyFailed,
    /// LsarLookupSids returned a status other than success, some not
    /// mapped, or none mapped.
    LookupSidsFailed,
    /// LsarLookupSids returned a number of names other than the number of
    /// SIDs asked.
    NameCountMismatch,
}

impl LsarError {
    /// The description of the failure.
    pub fn message(&self) -> (m: &'static str)
        ensures
            m@ == (match self {
                LsarError::OpenPolicyFailed => "LsarOpenPolicy2 failed"@,
                LsarError::LookupSidsFailed => "LsarLookupSids failed"@,
                LsarError::NameCountMismatch => "LsarLookupSids returned a name count unlike the SID count"@,
            }),
    {
        match self {
            LsarError::OpenPolicyFailed => "LsarOpenPolicy2 failed",
            LsarError::LookupSidsFailed => "LsarLookupSids failed",
            LsarError::NameCountMismatch => "LsarLookupSids returned a name count unlike the SID count",
        }
    }
}

/// A resolved name as a value.
pub struct ResolvedNameView {
    pub name: Seq<char>,
    pub domain: Seq<char>,
    pub sid_type: SidNameUse,
}

impl View for ResolvedName {
    type V = ResolvedNameView;

    open spec fn view(&self) -> ResolvedNameView {
        ResolvedNameView { name: self.name@, domain: self.domain@, sid_type: self.sid_type }
    }
}

/// The value of each resolved name.
pub open spec fn resolved_view(v: Seq<ResolvedName>) -> Seq<ResolvedNameView> {
    Seq::new(v.len(), |i: int| v[i]@)
}

/// The domain that `index` designates: the referenced domain at that
/// position, or the empty name where the index is negative or past the end.
pub open spec fn domain_at(domains: Seq<Seq<char>>, index: i32) -> Seq<char> {
    if 0 <= index < domains.len() {
        domains[index as int]
    } else {
        Seq::empty()
    }
}

/// The name an entry resolves to: none for an entry the server could not
/// map (`Unknown`), else the name it carries.
pub open spec fn resolved_name_of(entry: NameEntryView) -> Seq<char> {
    if entry.sid_type == SidNameUse::Unknown {
        Seq::empty()
    } else {
        entry.name
    }
}

/// The resolved names of a lookup reply: one per translated name, in
/// order, with the type of that entry, its name (empty where the server
/// could not map the SID) and the domain it points at.
pub open spec fn resolve(out: LookupSidsOutView) -> Seq<ResolvedNameView> {
    Seq::new(
        out.names.len(),
        |i: int|
            ResolvedNameView {
                name: resolved_name_of(out.names[i]),
                domain: domain_at(out.domains, out.names[i].domain_index),
                sid_type: out.names[i].sid_type,
            },
    )
}

/// Law: resolving a reply gives one name per translated name, in order;
/// each carries the type of its entry, the entry's name unless the server
/// could not map the SID (then the empty name), and the referenced domain
/// at the entry's domain index, or the empty name where the index is
/// negative or past the end of the list.
pub proof fn lemma_resolve(out: LookupSidsOutView)
    ensures
        resolve(out).len() == out.names.len(),
        forall|i: int|
            #![trigger resolve(out)[i]]
            0 <= i < out.names.len() ==> {
                let e = out.names[i];
                &&& resolve(out)[i].sid_type == e.sid_type
                &&& e.sid_type != SidNameUse::Unknown ==> resolve(out)[i].name == e.name
                &&& e.sid_type == SidNameUse::Unknown ==> resolve(out)[i].name == Seq::<
                    char,
                >::empty()
                &&& 0 <= e.domain_index < out.domains.len() ==> resolve(out)[i].domain
                    == out.domains[e.domain_index as int]
                &&& !(0 <= e.domain_index < out.domains.len()) ==> resolve(out)[i].domain
                    == Seq::<char>::empty()
            },
{
}

/// Whether a lookup status lets the names be used: success, some not
/// mapped, or none mapped.
pub open spec fn lookup_status_accepted(status: u32) -> bool {
    status == 0 || status == STATUS_SOME_NOT_MAPPED || status == STATUS_NONE_MAPPED
}

/// Whether a lookup status lets the names be used.
pub fn is_lookup_status_accepted(status: u32) -> (r: bool)
    ensures
        r == lookup_status_accepted(status),
{
    status == 0 || status == STATUS_SOME_NOT_MAPPED || status == STATUS_NONE_MAPPED
}

/// Pairs each translated name with the domain its index designates; an
/// entry the server could not map gets the empty name.
pub fn resolve_names(reply: &LsarLookupSidsOut) -> (r: Vec<ResolvedName>)
    ensures
        resolved_view(r@) == resolve(reply@),
        r@.len() == reply.names@.len(),
        forall|i: int|
            0 <= i < r@.len() && 0 <= reply.names@[i].domain_index < reply.domains@.len() ==> (
            #[trigger] r@[i]).domain@ == reply.domains@[reply.names@[i].domain_index as int]@,
{
    let mut resolved: Vec<ResolvedName> = Vec::new();
    let mut i: usize = 0;
    while i < reply.names.len()
        invariant
            i <= reply.names@.len(),
            resolved_view(resolved@) == resolve(reply@).subrange(0, i as int),
        decreases reply.names@.len() - i,
    {
        let entry = &reply.names[i];
        let in_range = entry.domain_index >= 0 && (entry.domain_index as usize)
            < reply.domains.len();
        let domain = if in_range {
            reply.domains[entry.domain_index as usize].clone()
        } else {
            String::new()
        };
        let ghost before = resolved@;
        let name = if entry.sid_type == SidNameUse::Unknown {
            String::new()
        } else {
            entry.name.clone()
        };
        let item = ResolvedName { name, domain, sid_type: entry.sid_type };
        let ghost iv = item@;
        resolved.push(item);
        proof {
            assert(reply@.names[i as int] == entry@);
            assert(iv == resolve(reply@)[i as int]);
            assert(resolved_view(resolved@) =~= resolved_view(before).push(iv));
            assert(resolve(reply@).subrange(0, i + 1) =~= resolve(reply@).subrange(0, i as int).push(
                iv,
            ));
        }
        i = i + 1;
    }
    assert(resolve(reply@).subrange(0, reply.names@.len() as int) =~= resolve(reply@));
    proof {
        lemma_resolve(reply@);
        assert forall|i: int|
            0 <= i < resolved@.len() && 0 <= reply.names@[i].domain_index
                < reply.domains@.len() implies (#[trigger] resolved@[i]).domain@
            == reply.domains@[reply.names@[i].domain_index as int]@ by {
            assert(resolved_view(resolved@)[i] == resolved@[i]@);
            assert(reply@.names[i] == reply.names@[i]@);
            assert(reply@.domains[reply.names@[i].domain_index as int]
                == reply.domains@[reply.names@[i].domain_index as int]@);
        }
    }
    resolved
}

/// The next call a client makes.
pub enum LsarCall {
    /// Open a policy handle first.
    OpenPolicy(LsarOpenPolicy2In),
    /// Look the SIDs up with the open handle.
    LookupSids(LsarLookupSidsIn),
}

/// The client side of the LSAR interface: the policy handle it holds, if
/// any. Each method is one decision of the exchange; the caller sends the
/// calls and hands back the replies.
pub struct Lsar {
    policy_handle: Option<[u8; 20]>,
}

impl Lsar {
    /// The policy handle held.
    pub closed spec fn handle(&self) -> Option<[u8; 20]> {
        self.policy_handle
    }

    /// A client that holds no policy handle.
    pub fn new() -> (l: Lsar)
        ensures
            l.handle() is None,
    {
        Lsar { policy_handle: None }
    }

    /// The policy handle held.
    pub fn policy_handle(&self) -> (h: Option<[u8; 20]>)
        ensures
            h == self.handle(),
    {
        self.policy_handle
    }

    /// The LsarOpenPolicy2 call for `server`: its name prefixed with `\\`.
    pub fn open_policy_request(server: &str) -> (req: LsarOpenPolicy2In)
        ensures
            req.server_name@ == seq!['\\', '\\'] + server@,
    {
        let mut name = <String as StringExecFns>::from_str("\\\\");
        proof {
            reveal_strlit("\\\\");
        }
        name.append(server);
        LsarOpenPolicy2In { server_name: name }
    }

    /// Takes the reply of LsarOpenPolicy2: a zero status yields its handle,
    /// which is kept; any other status fails and changes nothing.
    pub fn open_policy(&mut self, reply: &LsarOpenPolicy2Out) -> (r: Result<(), LsarError>)
        ensures
            r is Ok <==> reply.return_value == 0,
            r is Ok ==> final(self).handle() == Some(reply.handle),
            r is Err ==> r == Err::<(), LsarError>(LsarError::OpenPolicyFailed)
                && final(self).handle() == old(self).handle(),
    {
        if reply.return_value != 0 {
            return Err(LsarError::OpenPolicyFailed);
        }
        self.policy_handle = Some(reply.handle);
        Ok(())
    }

    /// The next call of a lookup of `sids` on `server`: LsarOpenPolicy2 when
    /// no handle is held, else LsarLookupSids with the handle held.
    pub fn lookup_sids(&self, server: &str, sids: Vec<Sid>) -> (call: LsarCall)
        ensures
            match call {
                LsarCall::OpenPolicy(req) => self.handle() is None && req.server_name@ == seq![
                    '\\',
                    '\\',
                ] + server@,
                LsarCall::LookupSids(req) => self.handle() == Some(req.handle) && req.sids@
                    == sids@,
            },
    {
        match self.policy_handle {
            None => LsarCall::OpenPolicy(Lsar::open_policy_request(server)),
            Some(handle) => LsarCall::LookupSids(LsarLookupSidsIn { handle, sids }),
        }
    }

    /// Takes the reply of LsarLookupSids to a request for `n_sids` SIDs: an
    /// accepted status with one translated name per SID yields one resolved
    /// name per SID, in order, where a SID the server could not map has type
    /// `Unknown` and the empty name. Any other status fails, and so does a
    /// reply whose name count differs from `n_sids`.
    pub fn lookup_sids_result(reply: &LsarLookupSidsOut, n_sids: usize) -> (r: Result<
        Vec<ResolvedName>,
        LsarError,
    >)
        ensures
            r is Ok <==> lookup_status_accepted(reply.return_value) && reply.names@.len()
                == n_sids,
            !lookup_status_accepted(reply.return_value) ==> r == Err::<
                Vec<ResolvedName>,
                LsarError,
            >(LsarError::LookupSidsFailed),
            lookup_status_accepted(reply.return_value) && reply.names@.len() != n_sids ==> r
                == Err::<Vec<ResolvedName>, LsarError>(LsarError::NameCountMismatch),
            r matches Ok(v) ==> v@.len() == n_sids && resolved_view(v@) == resolve(reply@),
            r matches Ok(v) ==> forall|i: int|
                0 <= i < v@.len() && reply@.names[i].sid_type == SidNameUse::Unknown ==> (
                #[trigger] v@[i]).name@ == Seq::<char>::empty(),
            r matches Ok(v) ==> forall|i: int|
                0 <= i < v@.len() && 0 <= reply.names@[i].domain_index < reply.domains@.len()
                    ==> (#[trigger] v@[i]).domain@
                    == reply.domains@[reply.names@[i].domain_index as int]@,
    {
        if !is_lookup_status_accepted(reply.return_value) {
            return Err(LsarError::LookupSidsFailed);
        }
        if reply.names.len() != n_sids {
            return Err(LsarError::NameCountMismatch);
        }
        let v = resolve_names(reply);
        proof {
            assert(reply@.names.len() == reply.names@.len());
            assert(resolved_view(v@).len() == v@.len());
            assert forall|i: int|
                0 <= i < v@.len() && reply@.names[i].sid_type == SidNameUse::Unknown implies (
                #[trigger] v@[i]).name@ == Seq::<char>::empty() by {
                assert(resolved_view(v@)[i] == v@[i]@);
                assert(resolved_view(v@)[i] == resolve(reply@)[i]);
            }
        }
        Ok(v)
    }

    /// Gives up the policy handle: the LsarClose call for it, if one was held.
    pub fn close(&mut self) -> (call: Option<LsarCloseIn>)
        ensures
            final(self).handle() is None,
            match old(self).handle() {
                Some(h) => call == Some(LsarCloseIn { handle: h }),
                None => call is None,
            },
    {
        match self.policy_handle.take() {
            Some(handle) => Some(LsarCloseIn { handle }),
            None => None,
        }
    }
}

} // verus!
