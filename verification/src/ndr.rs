//! NDR 2.0 (32-bit) marshalling primitives: little-endian integers,
//! alignment, bounds checks.

use vstd::prelude::*;

use crate::sid::Sid;
use crate::utf16::{
    decode_utf16, encode_utf16, lemma_utf16_roundtrip, utf16_decoding, utf16_encoding,
};

verus! {

/// Why an NDR buffer could not be read.
#[derive(Debug, Clone, Copy, PartialEq, Eq)]
pub enum NdrError {
    /// `need` bytes were wanted at `offset`, but the buffer holds only `have`.
    UnexpectedEof { need: u64, offset: u64, have: u64 },
    /// A wide string held UTF-16 that does not decode.
    InvalidUtf16,
}

/// The error for a read of `need` bytes at `offset` in a buffer of `have` bytes.
pub open spec fn eof(have: int, offset: int, need: int) -> NdrError {
    NdrError::UnexpectedEof { need: need as u64, offset: offset as u64, have: have as u64 }
}

/// Whether a read stopped because the buffer ended before what it needed.
pub open spec fn ran_out<T>(r: Result<T, NdrError>) -> bool {
    r matches Err(NdrError::UnexpectedEof { .. })
}

/// The little-endian `u16` stored at `o`.
pub open spec fn le_u16(d: Seq<u8>, o: int) -> u16 {
    (d[o] as int + d[o + 1] as int * 256) as u16
}

/// The little-endian `u32` stored at `o`.
pub open spec fn le_u32(d: Seq<u8>, o: int) -> u32 {
    (d[o] as int + d[o + 1] as int * 0x100 + d[o + 2] as int * 0x1_0000 + d[o + 3] as int
        * 0x100_0000) as u32
}

/// The two bytes of `v`, least significant first.
pub open spec fn le16_bytes(v: u16) -> Seq<u8> {
    seq![(v % 0x100) as u8, (v / 0x100) as u8]
}

/// The four bytes of `v`, least significant first.
pub open spec fn le32_bytes(v: u32) -> Seq<u8> {
    seq![
        (v % 0x100) as u8,
        ((v / 0x100) % 0x100) as u8,
        ((v / 0x1_0000) % 0x100) as u8,
        (v / 0x100_0000) as u8,
    ]
}

/// `off` rounded up to the next multiple of `align`.
pub open spec fn align_up(off: int, align: int) -> int {
    off + (align - off % align) % align
}

/// Law: aligning goes to the first multiple of `align` at or after `off`.
pub proof fn lemma_align_up(off: int, align: int)
    requires
        0 <= off,
        0 < align,
    ensures
        off <= align_up(off, align) < off + align,
        align_up(off, align) % align == 0,
{
    assert(align_up(off, align) % align == 0) by (nonlinear_arith)
        requires
            0 <= off,
            0 < align,
    {
        vstd::arithmetic::div_mod::lemma_fundamental_div_mod(off, align);
        let q = off / align;
        let m = off % align;
        if m == 0 {
            assert(align_up(off, align) == off);
        } else {
            assert((align - m) % align == align - m);
            assert(align_up(off, align) == align * (q + 1));
            vstd::arithmetic::div_mod::lemma_mod_multiples_basic(q + 1, align);
        }
    }
}

/// Offsets carried as mathematical integers.
pub open spec fn at_int<T>(r: Result<(T, usize), NdrError>) -> Result<(T, int), NdrError> {
    match r {
        Ok((v, o)) => Ok((v, o as int)),
        Err(e) => Err(e),
    }
}

/// Reading a `u16` at `off`.
pub open spec fn spec_read_u16(d: Seq<u8>, off: int) -> Result<(u16, int), NdrError> {
    if off + 2 <= d.len() {
        Ok((le_u16(d, off), off + 2))
    } else {
        Err(eof(d.len() as int, off, 2))
    }
}

/// Reading a `u32` at `off`.
pub open spec fn spec_read_u32(d: Seq<u8>, off: int) -> Result<(u32, int), NdrError> {
    if off + 4 <= d.len() {
        Ok((le_u32(d, off), off + 4))
    } else {
        Err(eof(d.len() as int, off, 4))
    }
}

/// Reading an `i32` at `off`.
pub open spec fn spec_read_i32(d: Seq<u8>, off: int) -> Result<(i32, int), NdrError> {
    if off + 4 <= d.len() {
        Ok((le_u32(d, off) as i32, off + 4))
    } else {
        Err(eof(d.len() as int, off, 4))
    }
}

/// Fails unless `need` bytes are present at `off`.
pub fn check_bounds(d: &[u8], off: usize, need: usize) -> (r: Result<(), NdrError>)
    ensures
        r == (if off + need <= d@.len() {
            Ok::<(), NdrError>(())
        } else {
            Err(eof(d@.len() as int, off as int, need as int))
        }),
{
    if need > d.len() || off > d.len() - need {
        Err(NdrError::UnexpectedEof { need: need as u64, offset: off as u64, have: d.len() as u64 })
    } else {
        Ok(())
    }
}

/// Reads a little-endian `u16` at `off`; gives it and the offset after it.
pub fn read_u16(d: &[u8], off: usize) -> (r: Result<(u16, usize), NdrError>)
    ensures
        at_int(r) == spec_read_u16(d@, off as int),
{
    check_bounds(d, off, 2)?;
    let v: u16 = d[off] as u16 + d[off + 1] as u16 * 256;
    Ok((v, off + 2))
}

/// Reads a little-endian `u32` at `off`; gives it and the offset after it.
pub fn read_u32(d: &[u8], off: usize) -> (r: Result<(u32, usize), NdrError>)
    ensures
        at_int(r) == spec_read_u32(d@, off as int),
{
    check_bounds(d, off, 4)?;
    let v: u32 = d[off] as u32 + d[off + 1] as u32 * 0x100 + d[off + 2] as u32 * 0x1_0000
        + d[off + 3] as u32 * 0x100_0000;
    Ok((v, off + 4))
}

/// Reads a little-endian `i32` at `off`; gives it and the offset after it.
pub fn read_i32(d: &[u8], off: usize) -> (r: Result<(i32, usize), NdrError>)
    ensures
        at_int(r) == spec_read_i32(d@, off as int),
{
    let (u, next) = read_u32(d, off)?;
    Ok((u as i32, next))
}

/// Advances `off` to the next multiple of `align`.
pub fn pad_off(off: usize, align: usize) -> (r: usize)
    requires
        align > 0,
        align_up(off as int, align as int) <= usize::MAX,
    ensures
        r == align_up(off as int, align as int),
{
    let pad = (align - (off % align)) % align;
    off + pad
}

/// Appends the two little-endian bytes of `v`.
pub fn push_u16_le(buf: &mut Vec<u8>, v: u16)
    ensures
        final(buf)@ == old(buf)@ + le16_bytes(v),
{
    buf.push((v % 0x100) as u8);
    buf.push((v / 0x100) as u8);
    assert(final(buf)@ =~= old(buf)@ + le16_bytes(v));
}

/// Appends the four little-endian bytes of `v`.
pub fn push_u32_le(buf: &mut Vec<u8>, v: u32)
    ensures
        final(buf)@ == old(buf)@ + le32_bytes(v),
{
    buf.push((v % 0x100) as u8);
    buf.push(((v / 0x100) % 0x100) as u8);
    buf.push(((v / 0x1_0000) % 0x100) as u8);
    buf.push((v / 0x100_0000) as u8);
    assert(final(buf)@ =~= old(buf)@ + le32_bytes(v));
}

/// Appends every byte of `bytes`.
pub fn push_bytes(buf: &mut Vec<u8>, bytes: &[u8])
    ensures
        final(buf)@ == old(buf)@ + bytes@,
{
    let ghost start = buf@;
    let mut i: usize = 0;
    while i < bytes.len()
        invariant
            i <= bytes@.len(),
            buf@ == start + bytes@.subrange(0, i as int),
        decreases bytes@.len() - i,
    {
        buf.push(bytes[i]);
        i = i + 1;
        assert(buf@ =~= start + bytes@.subrange(0, i as int));
    }
    assert(bytes@.subrange(0, bytes@.len() as int) =~= bytes@);
}

/// `n` zero bytes.
pub open spec fn zeros(n: nat) -> Seq<u8> {
    Seq::new(n, |i: int| 0u8)
}

/// Appends zero bytes until the length of `buf` is a multiple of `align`.
pub fn pad_to(buf: &mut Vec<u8>, align: usize)
    requires
        align > 0,
    ensures
        final(buf)@ == old(buf)@ + zeros(
            (align_up(old(buf)@.len() as int, align as int) - old(buf)@.len()) as nat,
        ),
{
    let pos = buf.len();
    let pad = (align - (pos % align)) % align;
    let ghost start = buf@;
    let mut i: usize = 0;
    while i < pad
        invariant
            i <= pad,
            buf@ == start + zeros(i as nat),
        decreases pad - i,
    {
        buf.push(0u8);
        i = i + 1;
        assert(buf@ =~= start + zeros(i as nat));
    }
}


/// The bytes of the code units `u`, each little-endian, in order.
pub open spec fn wide_bytes(u: Seq<u16>) -> Seq<u8>
    decreases u.len(),
{
    if u.len() == 0 {
        Seq::empty()
    } else {
        wide_bytes(u.drop_last()) + le16_bytes(u.last())
    }
}

/// A conformant and varying array of code units in NDR 2.0:
/// maximum count, offset zero, actual count, then the units.
pub open spec fn ndr20_wide_array(u: Seq<u16>) -> Seq<u8> {
    le32_bytes(u.len() as u32) + le32_bytes(0) + le32_bytes(u.len() as u32) + wide_bytes(u)
}

/// The code units that `write_ndr20_string` marshals for `s`: its UTF-16
/// encoding and a terminating zero unit.
pub open spec fn ndr20_string_units(s: Seq<char>) -> Seq<u16> {
    utf16_encoding(s).push(0u16)
}

/// Appends `units`, each as two little-endian bytes.
fn push_wide(buf: &mut Vec<u8>, units: &[u16])
    ensures
        final(buf)@ == old(buf)@ + wide_bytes(units@),
{
    let ghost start = buf@;
    let mut i: usize = 0;
    while i < units.len()
        invariant
            i <= units@.len(),
            buf@ == start + wide_bytes(units@.subrange(0, i as int)),
        decreases units@.len() - i,
    {
        push_u16_le(buf, units[i]);
        proof {
            let pre = units@.subrange(0, i as int);
            let next = units@.subrange(0, i + 1);
            assert(next.drop_last() =~= pre);
            assert(next.last() == units@[i as int]);
            assert(wide_bytes(next) == wide_bytes(pre) + le16_bytes(units@[i as int]));
        }
        i = i + 1;
        assert(buf@ =~= start + wide_bytes(units@.subrange(0, i as int)));
    }
    assert(units@.subrange(0, units@.len() as int) =~= units@);
}

/// Writes `s` as a conformant and varying NDR 2.0 wide string, with its
/// terminating zero unit.
pub fn write_ndr20_string(buf: &mut Vec<u8>, s: &str)
    ensures
        final(buf)@ == old(buf)@ + ndr20_wide_array(ndr20_string_units(s@)),
{
    let mut chars = encode_utf16(s);
    chars.push(0u16);
    let len = chars.len() as u32;
    let ghost start = buf@;
    push_u32_le(buf, len);
    push_u32_le(buf, 0);
    push_u32_le(buf, len);
    push_wide(buf, chars.as_slice());
    assert(buf@ =~= start + ndr20_wide_array(ndr20_string_units(s@)));
}

/// The six bytes of the identifier authority, most significant first.
pub open spec fn authority_bytes(a: u64) -> Seq<u8> {
    seq![
        ((a / 0x100_0000_0000) % 0x100) as u8,
        ((a / 0x1_0000_0000) % 0x100) as u8,
        ((a / 0x100_0000) % 0x100) as u8,
        ((a / 0x1_0000) % 0x100) as u8,
        ((a / 0x100) % 0x100) as u8,
        (a % 0x100) as u8,
    ]
}

/// The little-endian bytes of each sub-authority, in order.
pub open spec fn sub_authority_bytes(s: Seq<u32>) -> Seq<u8>
    decreases s.len(),
{
    if s.len() == 0 {
        Seq::empty()
    } else {
        sub_authority_bytes(s.drop_last()) + le32_bytes(s.last())
    }
}

/// An RPC_SID in NDR 2.0: the conformance count, revision 1, the
/// sub-authority count, the authority, then the sub-authorities.
pub open spec fn ndr20_rpc_sid(authority: u64, subs: Seq<u32>) -> Seq<u8> {
    le32_bytes(subs.len() as u32) + seq![1u8, (subs.len() as u32) as u8] + authority_bytes(
        authority,
    )
        + sub_authority_bytes(subs)
}

/// Writes `sid` as an NDR 2.0 RPC_SID.
pub fn write_ndr20_rpc_sid(buf: &mut Vec<u8>, sid: &Sid)
    ensures
        final(buf)@ == old(buf)@ + ndr20_rpc_sid(sid.identifier_authority, sid.sub_authority@),
{
    let ghost start = buf@;
    let sub_count = sid.sub_authority.len() as u32;
    push_u32_le(buf, sub_count);
    buf.push(1u8);
    buf.push(sub_count as u8);
    let a = sid.identifier_authority;
    buf.push(((a / 0x100_0000_0000) % 0x100) as u8);
    buf.push(((a / 0x1_0000_0000) % 0x100) as u8);
    buf.push(((a / 0x100_0000) % 0x100) as u8);
    buf.push(((a / 0x1_0000) % 0x100) as u8);
    buf.push(((a / 0x100) % 0x100) as u8);
    buf.push((a % 0x100) as u8);
    let ghost head = buf@;
    assert(head =~= start + le32_bytes(sub_count) + seq![1u8, sub_count as u8] + authority_bytes(a));
    let mut i: usize = 0;
    while i < sid.sub_authority.len()
        invariant
            i <= sid.sub_authority@.len(),
            buf@ == head + sub_authority_bytes(sid.sub_authority@.subrange(0, i as int)),
        decreases sid.sub_authority@.len() - i,
    {
        push_u32_le(buf, sid.sub_authority[i]);
        proof {
            let pre = sid.sub_authority@.subrange(0, i as int);
            let next = sid.sub_authority@.subrange(0, i + 1);
            assert(next.drop_last() =~= pre);
        }
        i = i + 1;
        assert(buf@ =~= head + sub_authority_bytes(sid.sub_authority@.subrange(0, i as int)));
    }
    assert(sid.sub_authority@.subrange(0, sid.sub_authority@.len() as int)
        =~= sid.sub_authority@);
    assert(buf@ =~= start + ndr20_rpc_sid(sid.identifier_authority, sid.sub_authority@));
}

/// The `n` code units stored little-endian from `o`.
pub open spec fn le_units(d: Seq<u8>, o: int, n: int) -> Seq<u16> {
    Seq::new(n as nat, |i: int| le_u16(d, o + 2 * i))
}

/// Reading a conformant and varying wide array whose declared byte length
/// is `byte_length`: align to 4, read the maximum count, the offset and the
/// actual count, require the actual count of units to be present, keep at
/// most `byte_length / 2` of them, and end aligned to 4 after all of them.
pub open spec fn spec_read_wide_units(d: Seq<u8>, off: int, byte_length: u16) -> Result<
    (Seq<u16>, int),
    NdrError,
> {
    match spec_read_u32(d, align_up(off, 4)) {
        Err(e) => Err(e),
        Ok((_, o1)) => match spec_read_u32(d, o1) {
            Err(e) => Err(e),
            Ok((_, o2)) => match spec_read_u32(d, o2) {
                Err(e) => Err(e),
                Ok((actual, o3)) => if o3 + 2 * actual <= d.len() {
                    let n = if actual < byte_length / 2 {
                        actual as int
                    } else {
                        (byte_length / 2) as int
                    };
                    Ok((le_units(d, o3, n), align_up(o3 + 2 * actual, 4)))
                } else {
                    Err(eof(d.len() as int, o3, 2 * actual))
                },
            },
        },
    }
}

/// Reads the code units of a conformant and varying NDR 2.0 wide array.
pub fn read_ndr20_wide_units(d: &[u8], off: usize, byte_length: u16) -> (r: Result<
    (Vec<u16>, usize),
    NdrError,
>)
    requires
        d@.len() <= isize::MAX,
        off <= usize::MAX - 3,
    ensures
        match r {
            Ok((u, o)) => spec_read_wide_units(d@, off as int, byte_length) == Ok::<
                (Seq<u16>, int),
                NdrError,
            >((u@, o as int)),
            Err(e) => spec_read_wide_units(d@, off as int, byte_length) == Err::<
                (Seq<u16>, int),
                NdrError,
            >(e),
        },
        r matches Ok((_, o)) ==> o <= d@.len() + 3,
{
    let o0 = pad_off(off, 4);
    let (_max_count, o1) = read_u32(d, o0)?;
    let (_offset, o2) = read_u32(d, o1)?;
    let (actual_count, o3) = read_u32(d, o2)?;
    let char_len = byte_length / 2;
    let read_len: u32 = if actual_count < char_len as u32 {
        actual_count
    } else {
        char_len as u32
    };
    if actual_count as u64 * 2 > (d.len() - o3) as u64 {
        return Err(
            NdrError::UnexpectedEof {
                need: actual_count as u64 * 2,
                offset: o3 as u64,
                have: d.len() as u64,
            },
        );
    }
    let mut chars: Vec<u16> = Vec::new();
    let mut i: usize = 0;
    while i < read_len as usize
        invariant
            d@.len() <= isize::MAX,
            o3 + 2 * actual_count <= d@.len(),
            read_len <= actual_count,
            i <= read_len,
            chars@ == le_units(d@, o3 as int, i as int),
        decreases read_len - i,
    {
        assert(i < actual_count);
        assert(o3 + 2 * i + 2 <= d@.len());
        let idx = o3 + i * 2;
        let c: u16 = d[idx] as u16 + d[idx + 1] as u16 * 256;
        chars.push(c);
        i = i + 1;
        assert(chars@ =~= le_units(d@, o3 as int, i as int));
    }
    let end = o3 + actual_count as usize * 2;
    let o4 = pad_off(end, 4);
    Ok((chars, o4))
}

/// Reading a conformant and varying wide string: its code units as
/// `spec_read_wide_units` reads them, decoded as UTF-16.
pub open spec fn spec_read_unicode(d: Seq<u8>, off: int, byte_length: u16) -> Result<
    (Seq<char>, int),
    NdrError,
> {
    match spec_read_wide_units(d, off, byte_length) {
        Err(e) => Err(e),
        Ok((u, o)) => match utf16_decoding(u) {
            Some(s) => Ok((s, o)),
            None => Err(NdrError::InvalidUtf16),
        },
    }
}

/// Reads a conformant and varying NDR 2.0 wide string.
pub fn read_ndr20_unicode_buffer(d: &[u8], off: usize, byte_length: u16) -> (r: Result<
    (String, usize),
    NdrError,
>)
    requires
        d@.len() <= isize::MAX,
        off <= usize::MAX - 3,
    ensures
        match r {
            Ok((s, o)) => spec_read_unicode(d@, off as int, byte_length) == Ok::<
                (Seq<char>, int),
                NdrError,
            >((s@, o as int)),
            Err(e) => spec_read_unicode(d@, off as int, byte_length) == Err::<
                (Seq<char>, int),
                NdrError,
            >(e),
        },
        r matches Ok((_, o)) ==> o <= d@.len() + 3,
{
    let (chars, o) = read_ndr20_wide_units(d, off, byte_length)?;
    match decode_utf16(chars.as_slice()) {
        Some(s) => Ok((s, o)),
        None => Err(NdrError::InvalidUtf16),
    }
}

/// Skipping an RPC_SID: align to 4, read the conformance count, then
/// require and pass 8 bytes of header and 4 bytes per sub-authority.
pub open spec fn spec_skip_rpc_sid(d: Seq<u8>, off: int) -> Result<int, NdrError> {
    match spec_read_u32(d, align_up(off, 4)) {
        Err(e) => Err(e),
        Ok((count, o1)) => if o1 + 8 > d.len() {
            Err(eof(d.len() as int, o1, 8))
        } else if o1 + 8 + 4 * count > d.len() {
            Err(eof(d.len() as int, o1 + 8, 4 * count))
        } else {
            Ok(o1 + 8 + 4 * count)
        },
    }
}

/// Passes over an NDR 2.0 RPC_SID; gives the offset after it.
pub fn skip_ndr20_rpc_sid(d: &[u8], off: usize) -> (r: Result<usize, NdrError>)
    requires
        d@.len() <= isize::MAX,
        off <= usize::MAX - 3,
    ensures
        match r {
            Ok(o) => spec_skip_rpc_sid(d@, off as int) == Ok::<int, NdrError>(o as int),
            Err(e) => spec_skip_rpc_sid(d@, off as int) == Err::<int, NdrError>(e),
        },
        r matches Ok(o) ==> o <= d@.len(),
{
    let o0 = pad_off(off, 4);
    let (max_count, o1) = read_u32(d, o0)?;
    check_bounds(d, o1, 8)?;
    let o2 = o1 + 8;
    if max_count as u64 * 4 > (d.len() - o2) as u64 {
        return Err(
            NdrError::UnexpectedEof {
                need: max_count as u64 * 4,
                offset: o2 as u64,
                have: d.len() as u64,
            },
        );
    }
    Ok(o2 + max_count as usize * 4)
}

/// Reading the little-endian `u32` back from its four bytes gives the value.
pub proof fn lemma_le32_roundtrip(v: u32)
    ensures
        le32_bytes(v).len() == 4,
        le_u32(le32_bytes(v), 0) == v,
{
    let b = le32_bytes(v);
    assert(b[0] as int == v % 0x100);
    assert(b[1] as int == (v / 0x100) % 0x100);
    assert(b[2] as int == (v / 0x1_0000) % 0x100);
    assert(b[3] as int == v / 0x100_0000);
    assert(v as int == v % 0x100 + ((v / 0x100) % 0x100) * 0x100 + ((v / 0x1_0000) % 0x100)
        * 0x1_0000 + (v / 0x100_0000) * 0x100_0000) by (nonlinear_arith);
}

/// Reading the little-endian `u16` back from its two bytes gives the value.
pub proof fn lemma_le16_roundtrip(v: u16)
    ensures
        le16_bytes(v).len() == 2,
        le_u16(le16_bytes(v), 0) == v,
{
    let b = le16_bytes(v);
    assert(v as int == v % 0x100 + (v / 0x100) * 0x100) by (nonlinear_arith);
}

/// The bytes of each code unit sit at twice its index.
pub proof fn lemma_wide_bytes(u: Seq<u16>)
    ensures
        wide_bytes(u).len() == 2 * u.len(),
        forall|i: int|
            0 <= i < u.len() ==> #[trigger] le_u16(wide_bytes(u), 2 * i) == u[i],
    decreases u.len(),
{
    if u.len() > 0 {
        let pre = u.drop_last();
        lemma_wide_bytes(pre);
        lemma_le16_roundtrip(u.last());
        let w = wide_bytes(u);
        assert forall|i: int| 0 <= i < u.len() implies #[trigger] le_u16(w, 2 * i) == u[i] by {
            if i < pre.len() {
                assert(w[2 * i] == wide_bytes(pre)[2 * i]);
                assert(w[2 * i + 1] == wide_bytes(pre)[2 * i + 1]);
                assert(le_u16(wide_bytes(pre), 2 * i) == pre[i]);
            } else {
                assert(w[2 * i] == le16_bytes(u.last())[0]);
                assert(w[2 * i + 1] == le16_bytes(u.last())[1]);
            }
        }
    }
}

/// The little-endian `u32` written at some position of a buffer reads back there.
pub proof fn lemma_read_back_u32(b: Seq<u8>, at: int, v: u32)
    requires
        0 <= at,
        at + 4 <= b.len(),
        b.subrange(at, at + 4) == le32_bytes(v),
    ensures
        spec_read_u32(b, at) == Ok::<(u32, int), NdrError>((v, at + 4)),
{
    lemma_le32_roundtrip(v);
    let w = le32_bytes(v);
    assert(b[at] == w[0]);
    assert(b[at + 1] == w[1]);
    assert(b[at + 2] == w[2]);
    assert(b[at + 3] == w[3]);
}

/// Reading a wide array written at a 4-byte aligned position, with a
/// declared byte length of `2 * k` for `k` at most its units, gives its
/// first `k` units and stops at the next 4-byte boundary after it.
proof fn lemma_wide_array_read(before: Seq<u8>, u: Seq<u16>, after: Seq<u8>, k: int)
    requires
        before.len() % 4 == 0,
        0 <= k <= u.len(),
        2 * k <= u16::MAX,
        u.len() <= u32::MAX,
    ensures
        spec_read_wide_units(before + ndr20_wide_array(u) + after, before.len() as int, (2 * k) as u16)
            == Ok::<(Seq<u16>, int), NdrError>(
            (u.subrange(0, k), align_up((before.len() + ndr20_wide_array(u).len()) as int, 4)),
        ),
{
    let n = u.len();
    let a = ndr20_wide_array(u);
    let b = before + a + after;
    let off = before.len() as int;
    lemma_wide_bytes(u);
    assert(align_up(off, 4) == off);
    assert(b.subrange(off, off + 4) =~= le32_bytes(n as u32));
    lemma_read_back_u32(b, off, n as u32);
    assert(b.subrange(off + 4, off + 8) =~= le32_bytes(0));
    lemma_read_back_u32(b, off + 4, 0);
    assert(b.subrange(off + 8, off + 12) =~= le32_bytes(n as u32));
    lemma_read_back_u32(b, off + 8, n as u32);
    let w = wide_bytes(u);
    assert(a.len() == 12 + 2 * n);
    let got = le_units(b, off + 12, k);
    assert forall|i: int| 0 <= i < k implies got[i] == u.subrange(0, k)[i] by {
        assert(b[off + 12 + 2 * i] == w[2 * i]);
        assert(b[off + 12 + 2 * i + 1] == w[2 * i + 1]);
        assert(le_u16(w, 2 * i) == u[i]);
    }
    assert(got =~= u.subrange(0, k));
}

/// Law: a conformant and varying wide array, written at a 4-byte aligned
/// position of a buffer, reads back as the same code units when its byte
/// length is declared as two bytes per unit, and the reader stops at the
/// next 4-byte boundary after it, whatever follows.
pub proof fn lemma_wide_array_roundtrip(before: Seq<u8>, u: Seq<u16>, after: Seq<u8>)
    requires
        before.len() % 4 == 0,
        2 * u.len() <= u16::MAX,
    ensures
        spec_read_wide_units(
            before + ndr20_wide_array(u) + after,
            before.len() as int,
            (2 * u.len()) as u16,
        ) == Ok::<(Seq<u16>, int), NdrError>(
            (u, align_up((before.len() + ndr20_wide_array(u).len()) as int, 4)),
        ),
{
    lemma_wide_array_read(before, u, after, u.len() as int);
    assert(u.subrange(0, u.len() as int) =~= u);
}

/// Law: a string written by `write_ndr20_string` at a 4-byte aligned
/// position, read back with the byte length of its UTF-16 encoding (the
/// terminator not counted), gives back exactly that encoding, and the
/// reader stops at the next 4-byte boundary after the terminator.
pub proof fn lemma_ndr20_string_roundtrip(before: Seq<u8>, s: Seq<char>, after: Seq<u8>)
    requires
        before.len() % 4 == 0,
        2 * utf16_encoding(s).len() <= u16::MAX,
    ensures
        spec_read_wide_units(
            before + ndr20_wide_array(ndr20_string_units(s)) + after,
            before.len() as int,
            (2 * utf16_encoding(s).len()) as u16,
        ) == Ok::<(Seq<u16>, int), NdrError>(
            (
                utf16_encoding(s),
                align_up(
                    (before.len() + ndr20_wide_array(ndr20_string_units(s)).len()) as int,
                    4,
                ),
            ),
        ),
{
    let u = ndr20_string_units(s);
    lemma_wide_array_read(before, u, after, utf16_encoding(s).len() as int);
    assert(u.subrange(0, utf16_encoding(s).len() as int) =~= utf16_encoding(s));
}

/// Law: a string written by `write_ndr20_string` at a 4-byte aligned
/// position, read back as a wide string with the byte length of its UTF-16
/// encoding (the terminator not counted), gives back the same characters,
/// and the reader stops at the next 4-byte boundary after the terminator.
pub proof fn lemma_ndr20_string_read_back(before: Seq<u8>, s: Seq<char>, after: Seq<u8>)
    requires
        before.len() % 4 == 0,
        2 * utf16_encoding(s).len() <= u16::MAX,
    ensures
        spec_read_unicode(
            before + ndr20_wide_array(ndr20_string_units(s)) + after,
            before.len() as int,
            (2 * utf16_encoding(s).len()) as u16,
        ) == Ok::<(Seq<char>, int), NdrError>(
            (
                s,
                align_up(
                    (before.len() + ndr20_wide_array(ndr20_string_units(s)).len()) as int,
                    4,
                ),
            ),
        ),
{
    lemma_ndr20_string_roundtrip(before, s, after);
    lemma_utf16_roundtrip(s);
}

/// Law: an RPC_SID written at a 4-byte aligned position of a buffer is
/// passed over exactly, whatever follows it.
pub proof fn lemma_rpc_sid_skip_roundtrip(
    before: Seq<u8>,
    authority: u64,
    subs: Seq<u32>,
    after: Seq<u8>,
)
    requires
        before.len() % 4 == 0,
        subs.len() <= u32::MAX,
    ensures
        spec_skip_rpc_sid(before + ndr20_rpc_sid(authority, subs) + after, before.len() as int)
            == Ok::<int, NdrError>((before.len() + ndr20_rpc_sid(authority, subs).len()) as int),
{
    let k = subs.len();
    let sid = ndr20_rpc_sid(authority, subs);
    let b = before + sid + after;
    let off = before.len() as int;
    lemma_sub_authority_bytes_len(subs);
    assert(align_up(off, 4) == off);
    assert(b.subrange(off, off + 4) =~= le32_bytes(k as u32));
    lemma_read_back_u32(b, off, k as u32);
    assert(sid.len() == 12 + 4 * k);
}

/// Four bytes per sub-authority.
pub proof fn lemma_sub_authority_bytes_len(s: Seq<u32>)
    ensures
        sub_authority_bytes(s).len() == 4 * s.len(),
    decreases s.len(),
{
    if s.len() > 0 {
        lemma_sub_authority_bytes_len(s.drop_last());
    }
}

/// The bytes of each sub-authority sit at four times its index.
pub proof fn lemma_sub_authority_bytes_index(s: Seq<u32>)
    ensures
        sub_authority_bytes(s).len() == 4 * s.len(),
        forall|i: int|
            0 <= i < s.len() ==> #[trigger] le_u32(sub_authority_bytes(s), 4 * i) == s[i],
    decreases s.len(),
{
    lemma_sub_authority_bytes_len(s);
    if s.len() > 0 {
        let pre = s.drop_last();
        lemma_sub_authority_bytes_index(pre);
        lemma_le32_roundtrip(s.last());
        let w = sub_authority_bytes(s);
        assert forall|i: int| 0 <= i < s.len() implies #[trigger] le_u32(w, 4 * i) == s[i] by {
            if i < pre.len() {
                assert(w[4 * i] == sub_authority_bytes(pre)[4 * i]);
                assert(w[4 * i + 1] == sub_authority_bytes(pre)[4 * i + 1]);
                assert(w[4 * i + 2] == sub_authority_bytes(pre)[4 * i + 2]);
                assert(w[4 * i + 3] == sub_authority_bytes(pre)[4 * i + 3]);
                assert(le_u32(sub_authority_bytes(pre), 4 * i) == pre[i]);
            } else {
                assert(w[4 * i] == le32_bytes(s.last())[0]);
                assert(w[4 * i + 1] == le32_bytes(s.last())[1]);
                assert(w[4 * i + 2] == le32_bytes(s.last())[2]);
                assert(w[4 * i + 3] == le32_bytes(s.last())[3]);
            }
        }
    }
}

/// The little-endian `u16` written at some position of a buffer reads back there.
pub proof fn lemma_read_back_u16(b: Seq<u8>, at: int, v: u16)
    requires
        0 <= at,
        at + 2 <= b.len(),
        b.subrange(at, at + 2) == le16_bytes(v),
    ensures
        le_u16(b, at) == v,
{
    lemma_le16_roundtrip(v);
    let w = le16_bytes(v);
    assert(b[at] == w[0]);
    assert(b[at + 1] == w[1]);
}

// --- reads depend only on the bytes they cover ---------------------------
/// A `u16` read that does not run out of bytes reads the same after more bytes are appended.
pub proof fn lemma_read_u16_extend(d: Seq<u8>, t: Seq<u8>, o: int)
    requires
        0 <= o,
    ensures
        !ran_out(spec_read_u16(d, o)) ==> spec_read_u16(d + t, o) == spec_read_u16(d, o),
        spec_read_u16(d, o) matches Ok((_, o2)) ==> o2 >= o,
{
    if !ran_out(spec_read_u16(d, o)) {
        assert((d + t)[o] == d[o]);
        assert((d + t)[o + 1] == d[o + 1]);
    }
}

/// A `u32` read that does not run out of bytes reads the same after more bytes are appended.
pub proof fn lemma_read_u32_extend(d: Seq<u8>, t: Seq<u8>, o: int)
    requires
        0 <= o,
    ensures
        !ran_out(spec_read_u32(d, o)) ==> spec_read_u32(d + t, o) == spec_read_u32(d, o),
        spec_read_u32(d, o) matches Ok((_, o2)) ==> o2 >= o,
{
    if !ran_out(spec_read_u32(d, o)) {
        assert((d + t)[o] == d[o]);
        assert((d + t)[o + 1] == d[o + 1]);
        assert((d + t)[o + 2] == d[o + 2]);
        assert((d + t)[o + 3] == d[o + 3]);
    }
}

/// An `i32` read that does not run out of bytes reads the same after more bytes are appended.
pub proof fn lemma_read_i32_extend(d: Seq<u8>, t: Seq<u8>, o: int)
    requires
        0 <= o,
    ensures
        !ran_out(spec_read_i32(d, o)) ==> spec_read_i32(d + t, o) == spec_read_i32(d, o),
        spec_read_i32(d, o) matches Ok((_, o2)) ==> o2 >= o,
{
    lemma_read_u32_extend(d, t, o);
}

/// A wide-array read that does not run out of bytes reads the same after
/// more bytes are appended.
pub proof fn lemma_read_wide_units_extend(d: Seq<u8>, t: Seq<u8>, o: int, byte_length: u16)
    requires
        0 <= o,
    ensures
        !ran_out(spec_read_wide_units(d, o, byte_length)) ==> spec_read_wide_units(
            d + t,
            o,
            byte_length,
        ) == spec_read_wide_units(d, o, byte_length),
        spec_read_wide_units(d, o, byte_length) matches Ok((_, o2)) ==> o2 >= o,
{
    let o0 = align_up(o, 4);
    lemma_read_u32_extend(d, t, o0);
    if let Ok((_, o1)) = spec_read_u32(d, o0) {
        lemma_read_u32_extend(d, t, o1);
        if let Ok((_, o2)) = spec_read_u32(d, o1) {
            lemma_read_u32_extend(d, t, o2);
            if let Ok((actual, o3)) = spec_read_u32(d, o2) {
                if o3 + 2 * actual <= d.len() {
                    let n = if actual < byte_length / 2 {
                        actual as int
                    } else {
                        (byte_length / 2) as int
                    };
                    assert forall|i: int| 0 <= i < n implies #[trigger] le_units(d + t, o3, n)[i]
                        == le_units(d, o3, n)[i] by {
                        assert((d + t)[o3 + 2 * i] == d[o3 + 2 * i]);
                        assert((d + t)[o3 + 2 * i + 1] == d[o3 + 2 * i + 1]);
                    }
                    assert(le_units(d + t, o3, n) =~= le_units(d, o3, n));
                }
            }
        }
    }
}

/// A wide-string read that does not run out of bytes gives the same result
/// (its string, or the same decoding error) after more bytes are appended.
pub proof fn lemma_read_unicode_extend(d: Seq<u8>, t: Seq<u8>, o: int, byte_length: u16)
    requires
        0 <= o,
    ensures
        !ran_out(spec_read_unicode(d, o, byte_length)) ==> spec_read_unicode(
            d + t,
            o,
            byte_length,
        )
            == spec_read_unicode(d, o, byte_length),
        spec_read_unicode(d, o, byte_length) matches Ok((_, o2)) ==> o2 >= o,
{
    lemma_read_wide_units_extend(d, t, o, byte_length);
}

/// Passing over an RPC_SID that does not run out of bytes ends at the same
/// place after more bytes are appended.
pub proof fn lemma_skip_rpc_sid_extend(d: Seq<u8>, t: Seq<u8>, o: int)
    requires
        0 <= o,
    ensures
        !ran_out(spec_skip_rpc_sid(d, o)) ==> spec_skip_rpc_sid(d + t, o) == spec_skip_rpc_sid(d, o),
        spec_skip_rpc_sid(d, o) matches Ok(o2) ==> o2 >= o,
{
    lemma_read_u32_extend(d, t, align_up(o, 4));
}

} // verus!
