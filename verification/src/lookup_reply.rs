//! The reply of LsarLookupSids, read with per-parameter deferral (C706
//! chapter 14):
//!
//! 1. ReferencedDomains: a unique pointer; when non-null, the domain list
//!    (entries, a unique pointer to the array, maximum entries), and when
//!    that pointer is non-null the conformant array of trust information
//!    inline, then for each element its name buffer and its SID.
//! 2. TranslatedNames: entries and a unique pointer; when non-null the
//!    conformant array of translated names inline, then for each element
//!    its name buffer.
//! 3. MappedCount.
//! 4. The NTSTATUS return value.

use vstd::prelude::*;

use crate::lsarpc::{sid_name_use_from_u32, spec_sid_name_use, SidNameUse};
use crate::ndr::{
    at_int, lemma_read_i32_extend, lemma_read_u16_extend, lemma_read_u32_extend,
    lemma_read_unicode_extend, lemma_skip_rpc_sid_extend, read_i32, read_ndr20_unicode_buffer,
    read_u16, read_u32, skip_ndr20_rpc_sid, spec_read_i32, spec_read_u16, spec_read_u32,
    spec_read_unicode, spec_skip_rpc_sid, ran_out, NdrError,
};

verus! {

/// The inline part of an LSAPR_TRUST_INFORMATION.
#[derive(Clone, Copy)]
pub struct DomainInline {
    pub name_length: u16,
    pub name_buffer_ptr: u32,
    pub sid_ptr: u32,
}

/// The inline part of an LSAPR_TRANSLATED_NAME.
#[derive(Clone, Copy)]
pub struct NameInline {
    pub sid_type: u32,
    pub name_length: u16,
    pub name_buffer_ptr: u32,
    pub domain_index: i32,
}

/// One translated name: its account type, its name, and the index of its
/// domain in the referenced domain list.
#[derive(Debug, Clone)]
pub struct LookupSidsEntry {
    pub sid_type: SidNameUse,
    pub name: String,
    pub domain_index: i32,
}

/// A translated name as a value.
pub struct NameEntryView {
    pub sid_type: SidNameUse,
    pub name: Seq<char>,
    pub domain_index: i32,
}

impl View for LookupSidsEntry {
    type V = NameEntryView;

    open spec fn view(&self) -> NameEntryView {
        NameEntryView { sid_type: self.sid_type, name: self.name@, domain_index: self.domain_index }
    }
}

/// The reply of LsarLookupSids.
pub struct LsarLookupSidsOut {
    /// The names of the referenced domains, in order.
    pub domains: Vec<String>,
    /// The translated names, in order.
    pub names: Vec<LookupSidsEntry>,
    pub mapped_count: u32,
    pub return_value: u32,
}

/// The reply of LsarLookupSids as a value.
pub struct LookupSidsOutView {
    pub domains: Seq<Seq<char>>,
    pub names: Seq<NameEntryView>,
    pub mapped_count: u32,
    pub return_value: u32,
}

/// The characters of each string.
pub open spec fn strings_view(v: Seq<String>) -> Seq<Seq<char>> {
    Seq::new(v.len(), |i: int| v[i]@)
}

/// The value of each entry.
pub open spec fn entries_view(v: Seq<LookupSidsEntry>) -> Seq<NameEntryView> {
    Seq::new(v.len(), |i: int| v[i]@)
}

impl View for LsarLookupSidsOut {
    type V = LookupSidsOutView;

    open spec fn view(&self) -> LookupSidsOutView {
        LookupSidsOutView {
            domains: strings_view(self.domains@),
            names: entries_view(self.names@),
            mapped_count: self.mapped_count,
            return_value: self.return_value,
        }
    }
}

// --- referenced domains --------------------------------------------------
/// Reading one trust information inline: name length, maximum length, name
/// buffer pointer, SID pointer.
pub open spec fn spec_read_domain_inline(d: Seq<u8>, o: int) -> Result<
    (DomainInline, int),
    NdrError,
> {
    match spec_read_u16(d, o) {
        Err(e) => Err(e),
        Ok((name_length, o1)) => match spec_read_u16(d, o1) {
            Err(e) => Err(e),
            Ok((_, o2)) => match spec_read_u32(d, o2) {
                Err(e) => Err(e),
                Ok((name_buffer_ptr, o3)) => match spec_read_u32(d, o3) {
                    Err(e) => Err(e),
                    Ok((sid_ptr, o4)) => Ok(
                        (DomainInline { name_length, name_buffer_ptr, sid_ptr }, o4),
                    ),
                },
            },
        },
    }
}

/// Reading `n` trust information inlines one after the other.
pub open spec fn spec_read_domain_inlines(d: Seq<u8>, o: int, n: nat) -> Result<
    (Seq<DomainInline>, int),
    NdrError,
>
    decreases n,
{
    if n == 0 {
        Ok((Seq::empty(), o))
    } else {
        match spec_read_domain_inlines(d, o, (n - 1) as nat) {
            Err(e) => Err(e),
            Ok((s, o1)) => match spec_read_domain_inline(d, o1) {
                Err(e) => Err(e),
                Ok((x, o2)) => Ok((s.push(x), o2)),
            },
        }
    }
}

/// Reading the deferred part of one trust information: the name when its
/// pointer is non-null (else the empty name), then the SID when its pointer
/// is non-null.
pub open spec fn spec_read_domain_deferred(d: Seq<u8>, o: int, di: DomainInline) -> Result<
    (Seq<char>, int),
    NdrError,
> {
    let named = if di.name_buffer_ptr != 0 {
        spec_read_unicode(d, o, di.name_length)
    } else {
        Ok((Seq::empty(), o))
    };
    match named {
        Err(e) => Err(e),
        Ok((name, o1)) => if di.sid_ptr != 0 {
            match spec_skip_rpc_sid(d, o1) {
                Err(e) => Err(e),
                Ok(o2) => Ok((name, o2)),
            }
        } else {
            Ok((name, o1))
        },
    }
}

/// Reading the deferred parts of the trust informations `inl`, in order.
pub open spec fn spec_read_domains_deferred(d: Seq<u8>, o: int, inl: Seq<DomainInline>) -> Result<
    (Seq<Seq<char>>, int),
    NdrError,
>
    decreases inl.len(),
{
    if inl.len() == 0 {
        Ok((Seq::empty(), o))
    } else {
        match spec_read_domains_deferred(d, o, inl.drop_last()) {
            Err(e) => Err(e),
            Ok((s, o1)) => match spec_read_domain_deferred(d, o1, inl.last()) {
                Err(e) => Err(e),
                Ok((x, o2)) => Ok((s.push(x), o2)),
            },
        }
    }
}

/// Reading the referenced domain list (parameter 1).
pub open spec fn spec_read_referenced_domains(d: Seq<u8>, o: int) -> Result<
    (Seq<Seq<char>>, int),
    NdrError,
> {
    match spec_read_u32(d, o) {
        Err(e) => Err(e),
        Ok((ptr, o1)) => if ptr == 0 {
            Ok((Seq::empty(), o1))
        } else {
            match spec_read_u32(d, o1) {
                Err(e) => Err(e),
                Ok((count, o2)) => match spec_read_u32(d, o2) {
                    Err(e) => Err(e),
                    Ok((array_ptr, o3)) => match spec_read_u32(d, o3) {
                        Err(e) => Err(e),
                        Ok((_, o4)) => if array_ptr == 0 {
                            Ok((Seq::empty(), o4))
                        } else {
                            match spec_read_u32(d, o4) {
                                Err(e) => Err(e),
                                Ok((_, o5)) => match spec_read_domain_inlines(d, o5, count as nat) {
                                    Err(e) => Err(e),
                                    Ok((inl, o6)) => spec_read_domains_deferred(d, o6, inl),
                                },
                            }
                        },
                    },
                },
            }
        },
    }
}

// --- translated names ----------------------------------------------------
/// Reading one translated name inline: SID_NAME_USE, name length, maximum
/// length, name buffer pointer, domain index.
pub open spec fn spec_read_name_inline(d: Seq<u8>, o: int) -> Result<(NameInline, int), NdrError> {
    match spec_read_u32(d, o) {
        Err(e) => Err(e),
        Ok((sid_type, o1)) => match spec_read_u16(d, o1) {
            Err(e) => Err(e),
            Ok((name_length, o2)) => match spec_read_u16(d, o2) {
                Err(e) => Err(e),
                Ok((_, o3)) => match spec_read_u32(d, o3) {
                    Err(e) => Err(e),
                    Ok((name_buffer_ptr, o4)) => match spec_read_i32(d, o4) {
                        Err(e) => Err(e),
                        Ok((domain_index, o5)) => Ok(
                            (NameInline { sid_type, name_length, name_buffer_ptr, domain_index }, o5),
                        ),
                    },
                },
            },
        },
    }
}

/// Reading `n` translated name inlines one after the other.
pub open spec fn spec_read_name_inlines(d: Seq<u8>, o: int, n: nat) -> Result<
    (Seq<NameInline>, int),
    NdrError,
>
    decreases n,
{
    if n == 0 {
        Ok((Seq::empty(), o))
    } else {
        match spec_read_name_inlines(d, o, (n - 1) as nat) {
            Err(e) => Err(e),
            Ok((s, o1)) => match spec_read_name_inline(d, o1) {
                Err(e) => Err(e),
                Ok((x, o2)) => Ok((s.push(x), o2)),
            },
        }
    }
}

/// Reading the deferred part of one translated name: its name when the
/// pointer is non-null, else the empty name.
pub open spec fn spec_read_name_deferred(d: Seq<u8>, o: int, ni: NameInline) -> Result<
    (NameEntryView, int),
    NdrError,
> {
    let named = if ni.name_buffer_ptr != 0 {
        spec_read_unicode(d, o, ni.name_length)
    } else {
        Ok((Seq::empty(), o))
    };
    match named {
        Err(e) => Err(e),
        Ok((name, o1)) => Ok(
            (
                NameEntryView {
                    sid_type: spec_sid_name_use(ni.sid_type),
                    name,
                    domain_index: ni.domain_index,
                },
                o1,
            ),
        ),
    }
}

/// Reading the deferred parts of the translated names `inl`, in order.
pub open spec fn spec_read_names_deferred(d: Seq<u8>, o: int, inl: Seq<NameInline>) -> Result<
    (Seq<NameEntryView>, int),
    NdrError,
>
    decreases inl.len(),
{
    if inl.len() == 0 {
        Ok((Seq::empty(), o))
    } else {
        match spec_read_names_deferred(d, o, inl.drop_last()) {
            Err(e) => Err(e),
            Ok((s, o1)) => match spec_read_name_deferred(d, o1, inl.last()) {
                Err(e) => Err(e),
                Ok((x, o2)) => Ok((s.push(x), o2)),
            },
        }
    }
}

/// Reading the translated names (parameter 2).
pub open spec fn spec_read_translated_names(d: Seq<u8>, o: int) -> Result<
    (Seq<NameEntryView>, int),
    NdrError,
> {
    match spec_read_u32(d, o) {
        Err(e) => Err(e),
        Ok((count, o1)) => match spec_read_u32(d, o1) {
            Err(e) => Err(e),
            Ok((ptr, o2)) => if ptr == 0 {
                Ok((Seq::empty(), o2))
            } else {
                match spec_read_u32(d, o2) {
                    Err(e) => Err(e),
                    Ok((_, o3)) => match spec_read_name_inlines(d, o3, count as nat) {
                        Err(e) => Err(e),
                        Ok((inl, o4)) => spec_read_names_deferred(d, o4, inl),
                    },
                }
            },
        },
    }
}

/// Reading the whole reply of LsarLookupSids from the start of `d`.
pub open spec fn spec_parse_lookup_sids_out(d: Seq<u8>) -> Result<LookupSidsOutView, NdrError> {
    match spec_read_referenced_domains(d, 0) {
        Err(e) => Err(e),
        Ok((domains, o1)) => match spec_read_translated_names(d, o1) {
            Err(e) => Err(e),
            Ok((names, o2)) => match spec_read_u32(d, o2) {
                Err(e) => Err(e),
                Ok((mapped_count, o3)) => match spec_read_u32(d, o3) {
                    Err(e) => Err(e),
                    Ok((return_value, _)) => Ok(
                        LookupSidsOutView { domains, names, mapped_count, return_value },
                    ),
                },
            },
        },
    }
}

// --- readers -------------------------------------------------------------
/// A read's outcome with the offset as an integer and the sequence as a value.
pub open spec fn seq_outcome<T>(r: Result<(Vec<T>, usize), NdrError>) -> Result<
    (Seq<T>, int),
    NdrError,
> {
    match r {
        Ok((v, o)) => Ok((v@, o as int)),
        Err(e) => Err(e),
    }
}

/// A read's outcome with the offset as an integer and the string as characters.
pub open spec fn string_outcome(r: Result<(String, usize), NdrError>) -> Result<
    (Seq<char>, int),
    NdrError,
> {
    match r {
        Ok((v, o)) => Ok((v@, o as int)),
        Err(e) => Err(e),
    }
}

/// A read's outcome with the offset as an integer and the strings as characters.
pub open spec fn strings_outcome(r: Result<(Vec<String>, usize), NdrError>) -> Result<
    (Seq<Seq<char>>, int),
    NdrError,
> {
    match r {
        Ok((v, o)) => Ok((strings_view(v@), o as int)),
        Err(e) => Err(e),
    }
}

/// A read's outcome with the offset as an integer and the entry as a value.
pub open spec fn entry_outcome(r: Result<(LookupSidsEntry, usize), NdrError>) -> Result<
    (NameEntryView, int),
    NdrError,
> {
    match r {
        Ok((v, o)) => Ok((v@, o as int)),
        Err(e) => Err(e),
    }
}

/// A read's outcome with the offset as an integer and the entries as values.
pub open spec fn entries_outcome(r: Result<(Vec<LookupSidsEntry>, usize), NdrError>) -> Result<
    (Seq<NameEntryView>, int),
    NdrError,
> {
    match r {
        Ok((v, o)) => Ok((entries_view(v@), o as int)),
        Err(e) => Err(e),
    }
}

/// Once reading the first `i` domain inlines fails, reading more fails alike.
proof fn lemma_domain_inlines_fail(d: Seq<u8>, o: int, i: nat, n: nat)
    requires
        spec_read_domain_inlines(d, o, i) is Err,
        i <= n,
    ensures
        spec_read_domain_inlines(d, o, n) == spec_read_domain_inlines(d, o, i),
    decreases n,
{
    if n > i {
        lemma_domain_inlines_fail(d, o, i, (n - 1) as nat);
    }
}

/// Once reading the first `i` name inlines fails, reading more fails alike.
proof fn lemma_name_inlines_fail(d: Seq<u8>, o: int, i: nat, n: nat)
    requires
        spec_read_name_inlines(d, o, i) is Err,
        i <= n,
    ensures
        spec_read_name_inlines(d, o, n) == spec_read_name_inlines(d, o, i),
    decreases n,
{
    if n > i {
        lemma_name_inlines_fail(d, o, i, (n - 1) as nat);
    }
}

/// Once the deferred parts of a prefix of `inl` fail, longer prefixes fail alike.
proof fn lemma_domains_deferred_fail(d: Seq<u8>, o: int, inl: Seq<DomainInline>, j: int, k: int)
    requires
        0 <= j <= k <= inl.len(),
        spec_read_domains_deferred(d, o, inl.subrange(0, j)) is Err,
    ensures
        spec_read_domains_deferred(d, o, inl.subrange(0, k)) == spec_read_domains_deferred(
            d,
            o,
            inl.subrange(0, j),
        ),
    decreases k,
{
    if k > j {
        lemma_domains_deferred_fail(d, o, inl, j, k - 1);
        assert(inl.subrange(0, k).drop_last() =~= inl.subrange(0, k - 1));
    }
}

/// Once the deferred parts of a prefix of `inl` fail, longer prefixes fail alike.
proof fn lemma_names_deferred_fail(d: Seq<u8>, o: int, inl: Seq<NameInline>, j: int, k: int)
    requires
        0 <= j <= k <= inl.len(),
        spec_read_names_deferred(d, o, inl.subrange(0, j)) is Err,
    ensures
        spec_read_names_deferred(d, o, inl.subrange(0, k)) == spec_read_names_deferred(
            d,
            o,
            inl.subrange(0, j),
        ),
    decreases k,
{
    if k > j {
        lemma_names_deferred_fail(d, o, inl, j, k - 1);
        assert(inl.subrange(0, k).drop_last() =~= inl.subrange(0, k - 1));
    }
}

fn read_domain_inline(d: &[u8], o: usize) -> (r: Result<(DomainInline, usize), NdrError>)
    ensures
        at_int(r) == spec_read_domain_inline(d@, o as int),
        r matches Ok((_, o2)) ==> o2 <= d@.len(),
{
    let (name_length, o1) = read_u16(d, o)?;
    let (_name_max_length, o2) = read_u16(d, o1)?;
    let (name_buffer_ptr, o3) = read_u32(d, o2)?;
    let (sid_ptr, o4) = read_u32(d, o3)?;
    Ok((DomainInline { name_length, name_buffer_ptr, sid_ptr }, o4))
}

fn read_domain_inlines(d: &[u8], off: usize, count: u32) -> (r: Result<
    (Vec<DomainInline>, usize),
    NdrError,
>)
    requires
        off <= d@.len() + 3,
    ensures
        seq_outcome(r) == spec_read_domain_inlines(d@, off as int, count as nat),
        r matches Ok((_, o)) ==> o <= d@.len() + 3,
{
    let mut v: Vec<DomainInline> = Vec::new();
    let mut o = off;
    let mut i: u32 = 0;
    while i < count
        invariant
            i <= count,
            o <= d@.len() + 3,
            spec_read_domain_inlines(d@, off as int, i as nat)
                == Ok::<(Seq<DomainInline>, int), NdrError>((v@, o as int)),
        decreases count - i,
    {
        match read_domain_inline(d, o) {
            Ok((x, o2)) => {
                v.push(x);
                o = o2;
            },
            Err(e) => {
                proof {
                    lemma_domain_inlines_fail(d@, off as int, (i + 1) as nat, count as nat);
                }
                return Err(e);
            },
        }
        i = i + 1;
    }
    Ok((v, o))
}

fn read_name_inline(d: &[u8], o: usize) -> (r: Result<(NameInline, usize), NdrError>)
    ensures
        at_int(r) == spec_read_name_inline(d@, o as int),
        r matches Ok((_, o2)) ==> o2 <= d@.len(),
{
    let (sid_type, o1) = read_u32(d, o)?;
    let (name_length, o2) = read_u16(d, o1)?;
    let (_name_max_length, o3) = read_u16(d, o2)?;
    let (name_buffer_ptr, o4) = read_u32(d, o3)?;
    let (domain_index, o5) = read_i32(d, o4)?;
    Ok((NameInline { sid_type, name_length, name_buffer_ptr, domain_index }, o5))
}

fn read_name_inlines(d: &[u8], off: usize, count: u32) -> (r: Result<
    (Vec<NameInline>, usize),
    NdrError,
>)
    requires
        off <= d@.len() + 3,
    ensures
        seq_outcome(r) == spec_read_name_inlines(d@, off as int, count as nat),
        r matches Ok((_, o)) ==> o <= d@.len() + 3,
{
    let mut v: Vec<NameInline> = Vec::new();
    let mut o = off;
    let mut i: u32 = 0;
    while i < count
        invariant
            i <= count,
            o <= d@.len() + 3,
            spec_read_name_inlines(d@, off as int, i as nat)
                == Ok::<(Seq<NameInline>, int), NdrError>((v@, o as int)),
        decreases count - i,
    {
        match read_name_inline(d, o) {
            Ok((x, o2)) => {
                v.push(x);
                o = o2;
            },
            Err(e) => {
                proof {
                    lemma_name_inlines_fail(d@, off as int, (i + 1) as nat, count as nat);
                }
                return Err(e);
            },
        }
        i = i + 1;
    }
    Ok((v, o))
}

fn read_domain_deferred(d: &[u8], o: usize, di: DomainInline) -> (r: Result<
    (String, usize),
    NdrError,
>)
    requires
        d@.len() <= isize::MAX,
        o <= d@.len() + 3,
    ensures
        string_outcome(r) == spec_read_domain_deferred(d@, o as int, di),
        r matches Ok((_, o2)) ==> o2 <= d@.len() + 3,
{
    let (name, o1) = if di.name_buffer_ptr != 0 {
        read_ndr20_unicode_buffer(d, o, di.name_length)?
    } else {
        (String::new(), o)
    };
    if di.sid_ptr != 0 {
        let o2 = skip_ndr20_rpc_sid(d, o1)?;
        Ok((name, o2))
    } else {
        Ok((name, o1))
    }
}

fn read_domains_deferred(d: &[u8], off: usize, inl: &Vec<DomainInline>) -> (r: Result<
    (Vec<String>, usize),
    NdrError,
>)
    requires
        d@.len() <= isize::MAX,
        off <= d@.len() + 3,
    ensures
        strings_outcome(r) == spec_read_domains_deferred(d@, off as int, inl@),
        r matches Ok((_, o)) ==> o <= d@.len() + 3,
{
    let mut v: Vec<String> = Vec::new();
    let mut o = off;
    let mut j: usize = 0;
    assert(inl@.subrange(0, 0) =~= Seq::<DomainInline>::empty());
    assert(strings_view(v@) =~= Seq::<Seq<char>>::empty());
    while j < inl.len()
        invariant
            d@.len() <= isize::MAX,
            j <= inl@.len(),
            o <= d@.len() + 3,
            spec_read_domains_deferred(d@, off as int, inl@.subrange(0, j as int))
                == Ok::<(Seq<Seq<char>>, int), NdrError>((strings_view(v@), o as int)),
        decreases inl@.len() - j,
    {
        let ghost pre = inl@.subrange(0, j as int);
        let ghost next = inl@.subrange(0, j + 1);
        assert(next.drop_last() =~= pre);
        match read_domain_deferred(d, o, inl[j]) {
            Ok((name, o2)) => {
                let ghost before = v@;
                v.push(name);
                o = o2;
                assert(strings_view(v@) =~= strings_view(before).push(name@));
            },
            Err(e) => {
                proof {
                    lemma_domains_deferred_fail(d@, off as int, inl@, j + 1, inl@.len() as int);
                    assert(inl@.subrange(0, inl@.len() as int) =~= inl@);
                }
                return Err(e);
            },
        }
        j = j + 1;
    }
    assert(inl@.subrange(0, inl@.len() as int) =~= inl@);
    Ok((v, o))
}

fn read_name_deferred(d: &[u8], o: usize, ni: NameInline) -> (r: Result<
    (LookupSidsEntry, usize),
    NdrError,
>)
    requires
        d@.len() <= isize::MAX,
        o <= d@.len() + 3,
    ensures
        entry_outcome(r) == spec_read_name_deferred(d@, o as int, ni),
        r matches Ok((_, o2)) ==> o2 <= d@.len() + 3,
{
    let (name, o1) = if ni.name_buffer_ptr != 0 {
        read_ndr20_unicode_buffer(d, o, ni.name_length)?
    } else {
        (String::new(), o)
    };
    let entry = LookupSidsEntry {
        sid_type: sid_name_use_from_u32(ni.sid_type),
        name,
        domain_index: ni.domain_index,
    };
    Ok((entry, o1))
}

fn read_names_deferred(d: &[u8], off: usize, inl: &Vec<NameInline>) -> (r: Result<
    (Vec<LookupSidsEntry>, usize),
    NdrError,
>)
    requires
        d@.len() <= isize::MAX,
        off <= d@.len() + 3,
    ensures
        entries_outcome(r) == spec_read_names_deferred(d@, off as int, inl@),
        r matches Ok((_, o)) ==> o <= d@.len() + 3,
{
    let mut v: Vec<LookupSidsEntry> = Vec::new();
    let mut o = off;
    let mut j: usize = 0;
    assert(inl@.subrange(0, 0) =~= Seq::<NameInline>::empty());
    assert(entries_view(v@) =~= Seq::<NameEntryView>::empty());
    while j < inl.len()
        invariant
            d@.len() <= isize::MAX,
            j <= inl@.len(),
            o <= d@.len() + 3,
            spec_read_names_deferred(d@, off as int, inl@.subrange(0, j as int))
                == Ok::<(Seq<NameEntryView>, int), NdrError>((entries_view(v@), o as int)),
        decreases inl@.len() - j,
    {
        let ghost pre = inl@.subrange(0, j as int);
        let ghost next = inl@.subrange(0, j + 1);
        assert(next.drop_last() =~= pre);
        match read_name_deferred(d, o, inl[j]) {
            Ok((entry, o2)) => {
                let ghost before = v@;
                let ghost ev = entry@;
                v.push(entry);
                o = o2;
                assert(entries_view(v@) =~= entries_view(before).push(ev));
            },
            Err(e) => {
                proof {
                    lemma_names_deferred_fail(d@, off as int, inl@, j + 1, inl@.len() as int);
                    assert(inl@.subrange(0, inl@.len() as int) =~= inl@);
                }
                return Err(e);
            },
        }
        j = j + 1;
    }
    assert(inl@.subrange(0, inl@.len() as int) =~= inl@);
    Ok((v, o))
}

fn read_referenced_domains(d: &[u8], off: usize) -> (r: Result<(Vec<String>, usize), NdrError>)
    requires
        d@.len() <= isize::MAX,
        off <= d@.len() + 3,
    ensures
        strings_outcome(r) == spec_read_referenced_domains(d@, off as int),
        r matches Ok((_, o)) ==> o <= d@.len() + 3,
{
    let (ref_domains_ptr, o1) = read_u32(d, off)?;
    if ref_domains_ptr == 0 {
        let v: Vec<String> = Vec::new();
        assert(strings_view(v@) =~= Seq::<Seq<char>>::empty());
        return Ok((v, o1));
    }
    let (domain_count, o2) = read_u32(d, o1)?;
    let (domains_array_ptr, o3) = read_u32(d, o2)?;
    let (_max_entries, o4) = read_u32(d, o3)?;
    if domains_array_ptr == 0 {
        let v: Vec<String> = Vec::new();
        assert(strings_view(v@) =~= Seq::<Seq<char>>::empty());
        return Ok((v, o4));
    }
    let (_max_count, o5) = read_u32(d, o4)?;
    let (inlines, o6) = read_domain_inlines(d, o5, domain_count)?;
    read_domains_deferred(d, o6, &inlines)
}

fn read_translated_names(d: &[u8], off: usize) -> (r: Result<
    (Vec<LookupSidsEntry>, usize),
    NdrError,
>)
    requires
        d@.len() <= isize::MAX,
        off <= d@.len() + 3,
    ensures
        entries_outcome(r) == spec_read_translated_names(d@, off as int),
        r matches Ok((_, o)) ==> o <= d@.len() + 3,
{
    let (translated_count, o1) = read_u32(d, off)?;
    let (translated_names_ptr, o2) = read_u32(d, o1)?;
    if translated_names_ptr == 0 {
        let v: Vec<LookupSidsEntry> = Vec::new();
        assert(entries_view(v@) =~= Seq::<NameEntryView>::empty());
        return Ok((v, o2));
    }
    let (_max_count, o3) = read_u32(d, o2)?;
    let (inlines, o4) = read_name_inlines(d, o3, translated_count)?;
    read_names_deferred(d, o4, &inlines)
}

impl LsarLookupSidsOut {
    /// Reads the reply of LsarLookupSids. Bytes after the status are ignored.
    pub fn decode(d: &[u8]) -> (r: Result<LsarLookupSidsOut, NdrError>)
        requires
            d@.len() <= isize::MAX,
        ensures
            match r {
                Ok(out) => spec_parse_lookup_sids_out(d@) == Ok::<LookupSidsOutView, NdrError>(
                    out@,
                ),
                Err(e) => spec_parse_lookup_sids_out(d@) == Err::<LookupSidsOutView, NdrError>(e),
            },
    {
        let (domains, o1) = read_referenced_domains(d, 0)?;
        let (names, o2) = read_translated_names(d, o1)?;
        let (mapped_count, o3) = read_u32(d, o2)?;
        let (return_value, _) = read_u32(d, o3)?;
        Ok(LsarLookupSidsOut { domains, names, mapped_count, return_value })
    }
}

// --- reading depends only on the bytes read ------------------------------
proof fn lemma_domain_inline_extend(d: Seq<u8>, t: Seq<u8>, o: int)
    requires
        0 <= o,
    ensures
        !ran_out(spec_read_domain_inline(d, o)) ==> spec_read_domain_inline(d + t, o)
            == spec_read_domain_inline(d, o),
        spec_read_domain_inline(d, o) matches Ok((_, o2)) ==> o2 >= o,
{
    lemma_read_u16_extend(d, t, o);
    lemma_read_u16_extend(d, t, o + 2);
    lemma_read_u32_extend(d, t, o + 4);
    lemma_read_u32_extend(d, t, o + 8);
}

proof fn lemma_domain_inlines_extend(d: Seq<u8>, t: Seq<u8>, o: int, n: nat)
    requires
        0 <= o,
    ensures
        !ran_out(spec_read_domain_inlines(d, o, n)) ==> spec_read_domain_inlines(d + t, o, n)
            == spec_read_domain_inlines(d, o, n),
        spec_read_domain_inlines(d, o, n) matches Ok((_, o2)) ==> o2 >= o,
    decreases n,
{
    if n > 0 {
        lemma_domain_inlines_extend(d, t, o, (n - 1) as nat);
        if let Ok((_, o1)) = spec_read_domain_inlines(d, o, (n - 1) as nat) {
            lemma_domain_inline_extend(d, t, o1);
        }
    }
}

proof fn lemma_domain_deferred_extend(d: Seq<u8>, t: Seq<u8>, o: int, di: DomainInline)
    requires
        0 <= o,
    ensures
        !ran_out(spec_read_domain_deferred(d, o, di)) ==> spec_read_domain_deferred(d + t, o, di)
            == spec_read_domain_deferred(d, o, di),
        spec_read_domain_deferred(d, o, di) matches Ok((_, o2)) ==> o2 >= o,
{
    lemma_read_unicode_extend(d, t, o, di.name_length);
    let named = if di.name_buffer_ptr != 0 {
        spec_read_unicode(d, o, di.name_length)
    } else {
        Ok((Seq::empty(), o))
    };
    if let Ok((_, o1)) = named {
        lemma_skip_rpc_sid_extend(d, t, o1);
    }
}

proof fn lemma_domains_deferred_extend(d: Seq<u8>, t: Seq<u8>, o: int, inl: Seq<DomainInline>)
    requires
        0 <= o,
    ensures
        !ran_out(spec_read_domains_deferred(d, o, inl)) ==> spec_read_domains_deferred(d + t, o, inl)
            == spec_read_domains_deferred(d, o, inl),
        spec_read_domains_deferred(d, o, inl) matches Ok((_, o2)) ==> o2 >= o,
    decreases inl.len(),
{
    if inl.len() > 0 {
        lemma_domains_deferred_extend(d, t, o, inl.drop_last());
        if let Ok((_, o1)) = spec_read_domains_deferred(d, o, inl.drop_last()) {
            lemma_domain_deferred_extend(d, t, o1, inl.last());
        }
    }
}

proof fn lemma_referenced_domains_extend(d: Seq<u8>, t: Seq<u8>, o: int)
    requires
        0 <= o,
    ensures
        !ran_out(spec_read_referenced_domains(d, o)) ==> spec_read_referenced_domains(d + t, o)
            == spec_read_referenced_domains(d, o),
        spec_read_referenced_domains(d, o) matches Ok((_, o2)) ==> o2 >= o + 4,
{
    lemma_read_u32_extend(d, t, o);
    lemma_read_u32_extend(d, t, o + 4);
    lemma_read_u32_extend(d, t, o + 8);
    lemma_read_u32_extend(d, t, o + 12);
    lemma_read_u32_extend(d, t, o + 16);
    if let Ok((count, _)) = spec_read_u32(d, o + 4) {
        lemma_domain_inlines_extend(d, t, o + 20, count as nat);
        if let Ok((inl, o6)) = spec_read_domain_inlines(d, o + 20, count as nat) {
            lemma_domains_deferred_extend(d, t, o6, inl);
        }
    }
}

proof fn lemma_name_inline_extend(d: Seq<u8>, t: Seq<u8>, o: int)
    requires
        0 <= o,
    ensures
        !ran_out(spec_read_name_inline(d, o)) ==> spec_read_name_inline(d + t, o)
            == spec_read_name_inline(d, o),
        spec_read_name_inline(d, o) matches Ok((_, o2)) ==> o2 >= o,
{
    lemma_read_u32_extend(d, t, o);
    lemma_read_u16_extend(d, t, o + 4);
    lemma_read_u16_extend(d, t, o + 6);
    lemma_read_u32_extend(d, t, o + 8);
    lemma_read_i32_extend(d, t, o + 12);
}

proof fn lemma_name_inlines_extend(d: Seq<u8>, t: Seq<u8>, o: int, n: nat)
    requires
        0 <= o,
    ensures
        !ran_out(spec_read_name_inlines(d, o, n)) ==> spec_read_name_inlines(d + t, o, n)
            == spec_read_name_inlines(d, o, n),
        spec_read_name_inlines(d, o, n) matches Ok((_, o2)) ==> o2 >= o,
    decreases n,
{
    if n > 0 {
        lemma_name_inlines_extend(d, t, o, (n - 1) as nat);
        if let Ok((_, o1)) = spec_read_name_inlines(d, o, (n - 1) as nat) {
            lemma_name_inline_extend(d, t, o1);
        }
    }
}

proof fn lemma_names_deferred_extend(d: Seq<u8>, t: Seq<u8>, o: int, inl: Seq<NameInline>)
    requires
        0 <= o,
    ensures
        !ran_out(spec_read_names_deferred(d, o, inl)) ==> spec_read_names_deferred(d + t, o, inl)
            == spec_read_names_deferred(d, o, inl),
        spec_read_names_deferred(d, o, inl) matches Ok((_, o2)) ==> o2 >= o,
    decreases inl.len(),
{
    if inl.len() > 0 {
        lemma_names_deferred_extend(d, t, o, inl.drop_last());
        if let Ok((_, o1)) = spec_read_names_deferred(d, o, inl.drop_last()) {
            lemma_read_unicode_extend(d, t, o1, inl.last().name_length);
        }
    }
}

proof fn lemma_translated_names_extend(d: Seq<u8>, t: Seq<u8>, o: int)
    requires
        0 <= o,
    ensures
        !ran_out(spec_read_translated_names(d, o)) ==> spec_read_translated_names(d + t, o)
            == spec_read_translated_names(d, o),
        spec_read_translated_names(d, o) matches Ok((_, o2)) ==> o2 >= o + 8,
{
    lemma_read_u32_extend(d, t, o);
    lemma_read_u32_extend(d, t, o + 4);
    lemma_read_u32_extend(d, t, o + 8);
    if let Ok((count, _)) = spec_read_u32(d, o) {
        lemma_name_inlines_extend(d, t, o + 12, count as nat);
        if let Ok((inl, o4)) = spec_read_name_inlines(d, o + 12, count as nat) {
            lemma_names_deferred_extend(d, t, o4, inl);
        }
    }
}

/// Law: the reply of LsarLookupSids is read from its own bytes only: once
/// the bytes suffice for a reading, whether it gives a reply or refuses a
/// name's UTF-16, appending bytes after them changes nothing.
pub proof fn lemma_lookup_reply_ignores_trailing_bytes(d: Seq<u8>, t: Seq<u8>)
    requires
        !ran_out(spec_parse_lookup_sids_out(d)),
    ensures
        spec_parse_lookup_sids_out(d + t) == spec_parse_lookup_sids_out(d),
{
    lemma_referenced_domains_extend(d, t, 0);
    if let Ok((_, o1)) = spec_read_referenced_domains(d, 0) {
        lemma_translated_names_extend(d, t, o1);
        if let Ok((_, o2)) = spec_read_translated_names(d, o1) {
            lemma_read_u32_extend(d, t, o2);
            lemma_read_u32_extend(d, t, o2 + 4);
        }
    }
}

/// The number of bytes a reading of the reply covers: the end of its
/// return value. Meaningful where the reply reads.
pub open spec fn lookup_reply_len(d: Seq<u8>) -> int {
    match spec_read_referenced_domains(d, 0) {
        Ok((_, o1)) => match spec_read_translated_names(d, o1) {
            Ok((_, o2)) => o2 + 8,
            Err(_) => 0,
        },
        Err(_) => 0,
    }
}

/// A reply that reads covers at least its 20 bytes of fixed fields and at
/// most the bytes there are.
pub proof fn lemma_lookup_reply_len(d: Seq<u8>)
    requires
        spec_parse_lookup_sids_out(d) is Ok,
    ensures
        20 <= lookup_reply_len(d) <= d.len(),
{
    let t = Seq::<u8>::empty();
    lemma_referenced_domains_extend(d, t, 0);
    if let Ok((_, o1)) = spec_read_referenced_domains(d, 0) {
        lemma_translated_names_extend(d, t, o1);
        lemma_read_u32_extend(d, t, 0);
    }
}

/// Appending bytes to a reply that reads leaves what it covers unchanged.
proof fn lemma_lookup_reply_len_extend(d: Seq<u8>, t: Seq<u8>)
    requires
        spec_parse_lookup_sids_out(d) is Ok,
    ensures
        lookup_reply_len(d + t) == lookup_reply_len(d),
{
    lemma_referenced_domains_extend(d, t, 0);
    if let Ok((_, o1)) = spec_read_referenced_domains(d, 0) {
        lemma_translated_names_extend(d, t, o1);
    }
}

/// Law: every strict prefix of the bytes a reply reads from is refused with
/// an end-of-buffer error; in particular, so is any prefix shorter than the
/// 20 bytes of fixed fields.
pub proof fn lemma_lookup_reply_prefix_refused(d: Seq<u8>, k: int)
    requires
        spec_parse_lookup_sids_out(d) is Ok,
        0 <= k < lookup_reply_len(d),
    ensures
        ran_out(spec_parse_lookup_sids_out(d.take(k))),
{
    lemma_lookup_reply_len(d);
    let p = d.take(k);
    let t = d.skip(k);
    assert(p + t =~= d);
    if !ran_out(spec_parse_lookup_sids_out(p)) {
        lemma_lookup_reply_ignores_trailing_bytes(p, t);
        assert(spec_parse_lookup_sids_out(p) is Ok);
        lemma_lookup_reply_len(p);
        lemma_lookup_reply_len_extend(p, t);
    }
}

/// Reading translated name inlines from where fewer than 16 bytes remain
/// runs out of bytes.
proof fn lemma_name_inlines_short(d: Seq<u8>, o: int, n: nat)
    requires
        0 <= o,
        n > 0,
        d.len() < o + 16,
    ensures
        ran_out(spec_read_name_inlines(d, o, n)),
    decreases n,
{
    if n > 1 {
        lemma_name_inlines_short(d, o, (n - 1) as nat);
    } else {
        assert(spec_read_name_inlines(d, o, 0) == Ok::<(Seq<NameInline>, int), NdrError>(
            (Seq::empty(), o),
        ));
    }
}

/// Law: any input shorter than the 20 bytes of fixed fields is refused with
/// an end-of-buffer error.
pub proof fn lemma_short_lookup_reply_refused(d: Seq<u8>)
    requires
        d.len() < 20,
    ensures
        ran_out(spec_parse_lookup_sids_out(d)),
{
    if let Ok((count, _)) = spec_read_u32(d, 4) {
        if count > 0 {
            lemma_name_inlines_short(d, 16, count as nat);
        }
    }
}

/// Law: the deferred parts of the domains are read in wire order: the
/// `i`-th value read is the one read for the `i`-th inline, right after the
/// values of the inlines before it, and there is one value per inline.
pub proof fn lemma_domains_deferred_in_order(d: Seq<u8>, o: int, inl: Seq<DomainInline>, i: int)
    requires
        spec_read_domains_deferred(d, o, inl) is Ok,
        0 <= i < inl.len(),
    ensures
        spec_read_domains_deferred(d, o, inl)->Ok_0.0.len() == inl.len(),
        ({
            let full = spec_read_domains_deferred(d, o, inl)->Ok_0.0;
            let before = spec_read_domains_deferred(d, o, inl.take(i));
            let here = spec_read_domain_deferred(d, before->Ok_0.1, inl[i]);
            &&& before is Ok
            &&& before->Ok_0.0 == full.take(i)
            &&& here is Ok
            &&& full[i] == here->Ok_0.0
        }),
    decreases inl.len(),
{
    let last = (inl.len() - 1) as int;
    let front = inl.drop_last();
    assert(front.len() == last);
    if last > 0 {
        lemma_domains_deferred_in_order(d, o, front, if i < last { i } else { 0 });
    } else {
        assert(front =~= Seq::<DomainInline>::empty());
    }
    if i < last {
        assert(front.take(i) =~= inl.take(i));
        assert(front[i] == inl[i]);
    } else {
        assert(front =~= inl.take(i));
    }
    let s = spec_read_domains_deferred(d, o, front)->Ok_0.0;
    let full = spec_read_domains_deferred(d, o, inl)->Ok_0.0;
    assert(full =~= s.push(full.last()));
    assert(full.take(i) =~= s.take(i));
    if i == last {
        assert(s.take(i) =~= s);
    }
}

/// Law: the deferred parts of the names are read in wire order: the
/// `i`-th value read is the one read for the `i`-th inline, right after the
/// values of the inlines before it, and there is one value per inline.
pub proof fn lemma_names_deferred_in_order(d: Seq<u8>, o: int, inl: Seq<NameInline>, i: int)
    requires
        spec_read_names_deferred(d, o, inl) is Ok,
        0 <= i < inl.len(),
    ensures
        spec_read_names_deferred(d, o, inl)->Ok_0.0.len() == inl.len(),
        ({
            let full = spec_read_names_deferred(d, o, inl)->Ok_0.0;
            let before = spec_read_names_deferred(d, o, inl.take(i));
            let here = spec_read_name_deferred(d, before->Ok_0.1, inl[i]);
            &&& before is Ok
            &&& before->Ok_0.0 == full.take(i)
            &&& here is Ok
            &&& full[i] == here->Ok_0.0
        }),
    decreases inl.len(),
{
    let last = (inl.len() - 1) as int;
    let front = inl.drop_last();
    assert(front.len() == last);
    if last > 0 {
        lemma_names_deferred_in_order(d, o, front, if i < last { i } else { 0 });
    } else {
        assert(front =~= Seq::<NameInline>::empty());
    }
    if i < last {
        assert(front.take(i) =~= inl.take(i));
        assert(front[i] == inl[i]);
    } else {
        assert(front =~= inl.take(i));
    }
    let s = spec_read_names_deferred(d, o, front)->Ok_0.0;
    let full = spec_read_names_deferred(d, o, inl)->Ok_0.0;
    assert(full =~= s.push(full.last()));
    assert(full.take(i) =~= s.take(i));
    if i == last {
        assert(s.take(i) =~= s);
    }
}

/// Law: the domain inlines are read in wire order: the `i`-th one read is
/// the one at the offset where the `i` before it end, and there are as many
/// as asked for.
pub proof fn lemma_domain_inlines_in_order(d: Seq<u8>, o: int, n: nat, i: int)
    requires
        spec_read_domain_inlines(d, o, n) is Ok,
        0 <= i < n,
    ensures
        ({
            let full = spec_read_domain_inlines(d, o, n)->Ok_0.0;
            let before = spec_read_domain_inlines(d, o, i as nat);
            let here = spec_read_domain_inline(d, before->Ok_0.1);
            &&& full.len() == n
            &&& before is Ok
            &&& before->Ok_0.0 == full.take(i)
            &&& here is Ok
            &&& full[i] == here->Ok_0.0
        }),
    decreases n,
{
    let last = n - 1;
    if last > 0 {
        lemma_domain_inlines_in_order(d, o, last as nat, if i < last { i } else { 0 });
    } else {
        assert(spec_read_domain_inlines(d, o, 0) == Ok::<(Seq<DomainInline>, int), NdrError>(
            (Seq::empty(), o),
        ));
    }
    let s = spec_read_domain_inlines(d, o, last as nat)->Ok_0.0;
    let full = spec_read_domain_inlines(d, o, n)->Ok_0.0;
    assert(full =~= s.push(full.last()));
    assert(full.take(i) =~= s.take(i));
    if i == last {
        assert(s.take(i) =~= s);
    }
}

/// Law: the name inlines are read in wire order: the `i`-th one read is
/// the one at the offset where the `i` before it end, and there are as many
/// as asked for.
pub proof fn lemma_name_inlines_in_order(d: Seq<u8>, o: int, n: nat, i: int)
    requires
        spec_read_name_inlines(d, o, n) is Ok,
        0 <= i < n,
    ensures
        ({
            let full = spec_read_name_inlines(d, o, n)->Ok_0.0;
            let before = spec_read_name_inlines(d, o, i as nat);
            let here = spec_read_name_inline(d, before->Ok_0.1);
            &&& full.len() == n
            &&& before is Ok
            &&& before->Ok_0.0 == full.take(i)
            &&& here is Ok
            &&& full[i] == here->Ok_0.0
        }),
    decreases n,
{
    let last = n - 1;
    if last > 0 {
        lemma_name_inlines_in_order(d, o, last as nat, if i < last { i } else { 0 });
    } else {
        assert(spec_read_name_inlines(d, o, 0) == Ok::<(Seq<NameInline>, int), NdrError>(
            (Seq::empty(), o),
        ));
    }
    let s = spec_read_name_inlines(d, o, last as nat)->Ok_0.0;
    let full = spec_read_name_inlines(d, o, n)->Ok_0.0;
    assert(full =~= s.push(full.last()));
    assert(full.take(i) =~= s.take(i));
    if i == last {
        assert(s.take(i) =~= s);
    }
}

} // verus!
