//! Security identifiers (MS-DTYP 2.4.2) and their binary form (2.4.2.2).

use vstd::prelude::*;

use crate::ndr::{
    authority_bytes, le_u32, lemma_sub_authority_bytes_index, push_u32_le, sub_authority_bytes,
};

verus! {

/// A security identifier: a 48-bit identifier authority followed by a list
/// of 32-bit sub-authorities.
#[derive(Debug, Clone, PartialEq, Eq)]
pub struct Sid {
    /// The identifier authority; only its low 48 bits go on the wire.
    pub identifier_authority: u64,
    /// The sub-authorities, in order.
    pub sub_authority: Vec<u32>,
}

/// A security identifier as a value.
pub struct SidView {
    pub authority: u64,
    pub subs: Seq<u32>,
}

impl View for Sid {
    type V = SidView;

    open spec fn view(&self) -> SidView {
        SidView { authority: self.identifier_authority, subs: self.sub_authority@ }
    }
}

/// Why a SID could not be read.
#[derive(Debug, Clone, Copy, PartialEq, Eq, Structural)]
pub enum SidError {
    /// The buffer ends inside the SID.
    UnexpectedEof,
    /// The revision byte is not 1.
    InvalidRevision,
}

impl Sid {
    /// Builds a SID from its authority and sub-authorities.
    pub fn new(identifier_authority: u64, sub_authority: Vec<u32>) -> (s: Sid)
        ensures
            s.identifier_authority == identifier_authority,
            s.sub_authority@ == sub_authority@,
    {
        Sid { identifier_authority, sub_authority }
    }
}

/// The binary form of a SID: revision 1, the sub-authority count, the
/// authority most significant byte first, the sub-authorities little-endian.
pub open spec fn sid_bytes(authority: u64, subs: Seq<u32>) -> Seq<u8> {
    seq![1u8, (subs.len() as u32) as u8] + authority_bytes(authority) + sub_authority_bytes(subs)
}

/// Appends the binary form of `sid`.
pub fn write_sid(buf: &mut Vec<u8>, sid: &Sid)
    ensures
        final(buf)@ == old(buf)@ + sid_bytes(sid.identifier_authority, sid.sub_authority@),
{
    let ghost start = buf@;
    let sub_count = sid.sub_authority.len() as u32;
    buf.push(1u8);
    buf.push(sub_count as u8);
    let a = sid.identifier_authority;
    buf.push(((a / 0x100_0000_0000) % 0x100) as u8);
    buf.push(((a / 0x1_0000_0000) % 0x100) as u8);
    buf.push(((a / 0x100_0000) % 0x100) as u8);
    buf.push(((a / 0x1_0000) % 0x100) as u8);
    buf.push(((a / 0x100) % 0x100) as u8);
    buf.push((a % 0x100) as u8);
    let ghost head = buf@;
    assert(head =~= start + seq![1u8, sub_count as u8] + authority_bytes(a));
    let mut i: usize = 0;
    while i < sid.sub_authority.len()
        invariant
            i <= sid.sub_authority@.len(),
            buf@ == head + sub_authority_bytes(sid.sub_authority@.subrange(0, i as int)),
        decreases sid.sub_authority@.len() - i,
    {
        push_u32_le(buf, sid.sub_authority[i]);
        proof {
            let pre = sid.sub_authority@.subrange(0, i as int);
            let next = sid.sub_authority@.subrange(0, i + 1);
            assert(next.drop_last() =~= pre);
        }
        i = i + 1;
        assert(buf@ =~= head + sub_authority_bytes(sid.sub_authority@.subrange(0, i as int)));
    }
    assert(sid.sub_authority@.subrange(0, sid.sub_authority@.len() as int) =~= sid.sub_authority@);
    assert(buf@ =~= start + sid_bytes(sid.identifier_authority, sid.sub_authority@));
}

/// The 48-bit big-endian value stored at `o`.
pub open spec fn be_u48(d: Seq<u8>, o: int) -> u64 {
    (d[o] as int * 0x100_0000_0000 + d[o + 1] as int * 0x1_0000_0000 + d[o + 2] as int
        * 0x100_0000 + d[o + 3] as int * 0x1_0000 + d[o + 4] as int * 0x100 + d[o + 5] as int) as u64
}

/// The `n` little-endian `u32` values stored from `o`.
pub open spec fn le_u32s(d: Seq<u8>, o: int, n: int) -> Seq<u32> {
    Seq::new(n as nat, |i: int| le_u32(d, o + 4 * i))
}

/// Reading a SID at `o`: the revision must be 1; the count byte says how
/// many sub-authorities follow the authority.
pub open spec fn spec_read_sid(d: Seq<u8>, o: int) -> Result<(SidView, int), SidError> {
    if o + 1 > d.len() {
        Err(SidError::UnexpectedEof)
    } else if d[o] != 1 {
        Err(SidError::InvalidRevision)
    } else if o + 8 > d.len() {
        Err(SidError::UnexpectedEof)
    } else if o + 8 + 4 * d[o + 1] > d.len() {
        Err(SidError::UnexpectedEof)
    } else {
        Ok(
            (
                SidView { authority: be_u48(d, o + 2), subs: le_u32s(d, o + 8, d[o + 1] as int) },
                o + 8 + 4 * d[o + 1],
            ),
        )
    }
}

/// Reads a SID at `o`; gives it and the offset after it.
pub fn read_sid(d: &[u8], o: usize) -> (r: Result<(Sid, usize), SidError>)
    ensures
        match r {
            Ok((sid, next)) => spec_read_sid(d@, o as int) == Ok::<(SidView, int), SidError>(
                (sid@, next as int),
            ),
            Err(e) => spec_read_sid(d@, o as int) == Err::<(SidView, int), SidError>(e),
        },
{
    if o >= d.len() {
        return Err(SidError::UnexpectedEof);
    }
    if d[o] != 1 {
        return Err(SidError::InvalidRevision);
    }
    if d.len() - o < 8 {
        return Err(SidError::UnexpectedEof);
    }
    let count = d[o + 1];
    if d.len() - o - 8 < count as usize * 4 {
        return Err(SidError::UnexpectedEof);
    }
    let authority: u64 = d[o + 2] as u64 * 0x100_0000_0000 + d[o + 3] as u64 * 0x1_0000_0000
        + d[o + 4] as u64 * 0x100_0000 + d[o + 5] as u64 * 0x1_0000 + d[o + 6] as u64 * 0x100
        + d[o + 7] as u64;
    let base = o + 8;
    let mut subs: Vec<u32> = Vec::new();
    let mut i: usize = 0;
    while i < count as usize
        invariant
            base == o + 8,
            base + 4 * count <= d@.len(),
            d@.len() <= usize::MAX,
            i <= count,
            subs@ == le_u32s(d@, base as int, i as int),
        decreases count - i,
    {
        let at = base + 4 * i;
        let v: u32 = d[at] as u32 + d[at + 1] as u32 * 0x100 + d[at + 2] as u32 * 0x1_0000
            + d[at + 3] as u32 * 0x100_0000;
        subs.push(v);
        i = i + 1;
        assert(subs@ =~= le_u32s(d@, base as int, i as int));
    }
    Ok((Sid { identifier_authority: authority, sub_authority: subs }, base + 4 * count as usize))
}

/// The six authority bytes, read big-endian, give back a 48-bit authority.
pub proof fn lemma_authority_roundtrip(a: u64)
    requires
        a < 0x1_0000_0000_0000,
    ensures
        be_u48(authority_bytes(a), 0) == a,
{
    let b = authority_bytes(a);
    assert(a == ((a / 0x100_0000_0000) % 0x100) * 0x100_0000_0000 + ((a / 0x1_0000_0000) % 0x100)
        * 0x1_0000_0000 + ((a / 0x100_0000) % 0x100) * 0x100_0000 + ((a / 0x1_0000) % 0x100)
        * 0x1_0000 + ((a / 0x100) % 0x100) * 0x100 + a % 0x100) by (bit_vector)
        requires
            a < 0x1_0000_0000_0000,
    ;
}

/// Law: a SID written at any position of a buffer reads back as the same
/// authority and sub-authorities, and the reader stops right after it,
/// whatever follows. (At most 255 sub-authorities fit the count byte, and
/// only 48 bits of authority go on the wire.)
pub proof fn lemma_sid_roundtrip(before: Seq<u8>, authority: u64, subs: Seq<u32>, after: Seq<u8>)
    requires
        subs.len() <= 255,
        authority < 0x1_0000_0000_0000,
    ensures
        spec_read_sid(before + sid_bytes(authority, subs) + after, before.len() as int) == Ok::<
            (SidView, int),
            SidError,
        >(
            (
                SidView { authority, subs },
                (before.len() + sid_bytes(authority, subs).len()) as int,
            ),
        ),
{
    let w = sid_bytes(authority, subs);
    let b = before + w + after;
    let o = before.len() as int;
    let k = subs.len();
    lemma_sub_authority_bytes_index(subs);
    lemma_authority_roundtrip(authority);
    let ab = authority_bytes(authority);
    assert(b[o] == 1u8);
    assert(b[o + 1] == k as u8);
    assert(w.len() == 8 + 4 * k);
    assert(be_u48(b, o + 2) == be_u48(ab, 0)) by {
        assert(b[o + 2] == ab[0]);
        assert(b[o + 3] == ab[1]);
        assert(b[o + 4] == ab[2]);
        assert(b[o + 5] == ab[3]);
        assert(b[o + 6] == ab[4]);
        assert(b[o + 7] == ab[5]);
    }
    let sb = sub_authority_bytes(subs);
    let got = le_u32s(b, o + 8, k as int);
    assert forall|i: int| 0 <= i < k implies got[i] == subs[i] by {
        assert(b[o + 8 + 4 * i] == sb[4 * i]);
        assert(b[o + 8 + 4 * i + 1] == sb[4 * i + 1]);
        assert(b[o + 8 + 4 * i + 2] == sb[4 * i + 2]);
        assert(b[o + 8 + 4 * i + 3] == sb[4 * i + 3]);
        assert(le_u32(sb, 4 * i) == subs[i]);
    }
    assert(got =~= subs);
}

} // verus!
