use smb::lookup_reply::LsarLookupSidsOut;
use smb::lsarpc::{
    is_lookup_status_accepted, resolve_names, sid_name_use_from_u32, Lsar, LsarCall, LsarCloseIn,
    LsarCloseOut, LsarError, LsarLookupSidsIn, LsarOpenPolicy2In, LsarOpenPolicy2Out,
    ResolvedName, SidNameUse, LSAR_CLOSE_OPNUM, LSAR_LOOKUP_SIDS_OPNUM, LSAR_OPEN_POLICY2_OPNUM,
};
use smb::ndr::NdrError;
use smb::sid::Sid;

fn hex(s: &str) -> Vec<u8> {
    let s: String = s.chars().filter(|c| !c.is_whitespace()).collect();
    (0..s.len())
        .step_by(2)
        .map(|i| u8::from_str_radix(&s[i..i + 2], 16).unwrap())
        .collect()
}

fn u32le(b: &mut Vec<u8>, v: u32) {
    b.extend_from_slice(&v.to_le_bytes());
}

fn u16le(b: &mut Vec<u8>, v: u16) {
    b.extend_from_slice(&v.to_le_bytes());
}

fn wide(b: &mut Vec<u8>, s: &str) {
    let units: Vec<u16> = s.encode_utf16().collect();
    u32le(b, units.len() as u32 + 1);
    u32le(b, 0);
    u32le(b, units.len() as u32);
    for u in &units {
        u16le(b, *u);
    }
    while b.len() % 4 != 0 {
        b.push(0);
    }
}

fn handle() -> [u8; 20] {
    let mut h = [0u8; 20];
    for (i, x) in h.iter_mut().enumerate() {
        *x = i as u8 + 1;
    }
    h
}

/// The reply a server gives for S-1-1-0 and S-1-5-18.
fn well_known_reply() -> Vec<u8> {
    let mut b = Vec::new();
    // ReferencedDomains
    u32le(&mut b, 0x0002_0000);
    u32le(&mut b, 1);
    u32le(&mut b, 0x0002_0004);
    u32le(&mut b, 32);
    u32le(&mut b, 1);
    u16le(&mut b, 24);
    u16le(&mut b, 26);
    u32le(&mut b, 0x0002_0008);
    u32le(&mut b, 0x0002_000c);
    wide(&mut b, "NT Authority");
    u32le(&mut b, 1);
    b.extend_from_slice(&[1, 1, 0, 0, 0, 0, 0, 5]);
    u32le(&mut b, 18);
    // TranslatedNames
    u32le(&mut b, 2);
    u32le(&mut b, 0x0002_0010);
    u32le(&mut b, 2);
    u32le(&mut b, 5);
    u16le(&mut b, 16);
    u16le(&mut b, 18);
    u32le(&mut b, 0x0002_0014);
    u32le(&mut b, 0xffff_ffff);
    u32le(&mut b, 5);
    u16le(&mut b, 12);
    u16le(&mut b, 14);
    u32le(&mut b, 0x0002_0018);
    u32le(&mut b, 0);
    wide(&mut b, "Everyone");
    wide(&mut b, "SYSTEM");
    // MappedCount, status
    u32le(&mut b, 2);
    u32le(&mut b, 0);
    b
}

#[test]
fn opnums_match_ms_lsad() {
    assert_eq!(LSAR_CLOSE_OPNUM, 0);
    assert_eq!(LSAR_LOOKUP_SIDS_OPNUM, 15);
    assert_eq!(LSAR_OPEN_POLICY2_OPNUM, 44);
}

#[test]
fn sid_name_use_table() {
    assert_eq!(sid_name_use_from_u32(1), SidNameUse::User);
    assert_eq!(sid_name_use_from_u32(2), SidNameUse::Group);
    assert_eq!(sid_name_use_from_u32(3), SidNameUse::Domain);
    assert_eq!(sid_name_use_from_u32(4), SidNameUse::Alias);
    assert_eq!(sid_name_use_from_u32(5), SidNameUse::WellKnownGroup);
    assert_eq!(sid_name_use_from_u32(6), SidNameUse::DeletedAccount);
    assert_eq!(sid_name_use_from_u32(7), SidNameUse::Invalid);
    assert_eq!(sid_name_use_from_u32(8), SidNameUse::Unknown);
    assert_eq!(sid_name_use_from_u32(9), SidNameUse::Computer);
    assert_eq!(sid_name_use_from_u32(10), SidNameUse::Label);
    assert_eq!(sid_name_use_from_u32(0), SidNameUse::Unknown);
    assert_eq!(sid_name_use_from_u32(11), SidNameUse::Unknown);
}

#[test]
fn open_policy_request_bytes() {
    let req = Lsar::open_policy_request("srv");
    assert_eq!(req.server_name, "\\\\srv");
    let expected = hex(
        "00000200 06000000 00000000 06000000
         5c005c00 73007200 76000000
         18000000 00000000 00000000 00000000 00000000 00000000
         00080000",
    );
    assert_eq!(req.encode(), expected);
}

#[test]
fn open_policy_request_pads_to_four() {
    // "\\ab" plus the terminator is 5 units: 10 bytes, then 2 bytes of padding.
    let req = LsarOpenPolicy2In { server_name: "\\\\ab".to_string() };
    let expected = hex(
        "00000200 05000000 00000000 05000000
         5c005c00 61006200 0000 0000
         18000000 00000000 00000000 00000000 00000000 00000000
         00080000",
    );
    assert_eq!(req.encode(), expected);
}

#[test]
fn close_request_is_the_handle() {
    let req = LsarCloseIn { handle: handle() };
    assert_eq!(req.encode(), handle().to_vec());
}

#[test]
fn lookup_sids_request_bytes() {
    let req = LsarLookupSidsIn {
        handle: handle(),
        sids: vec![Sid::new(1, vec![0]), Sid::new(5, vec![18])],
    };
    let mut expected = handle().to_vec();
    expected.extend(hex(
        "02000000 00000200 02000000 04000200 08000200
         01000000 0101 000000000001 00000000
         01000000 0101 000000000005 12000000
         00000000 00000000 01000000 00000000",
    ));
    assert_eq!(req.encode(), expected);
}

#[test]
fn lookup_sids_request_long_sid() {
    let req = LsarLookupSidsIn {
        handle: [0u8; 20],
        sids: vec![Sid::new(5, vec![21, 1111111111, 2222222222, 3333333333, 9999])],
    };
    let mut expected = vec![0u8; 20];
    expected.extend(hex(
        "01000000 00000200 01000000 04000200
         05000000 0105 000000000005 15000000 c7353a42 8e6b7484 55a1aec6 0f270000
         00000000 00000000 01000000 00000000",
    ));
    assert_eq!(req.encode(), expected);
}

#[test]
fn open_policy_reply_decodes() {
    let mut b = handle().to_vec();
    u32le(&mut b, 0);
    b.push(0xaa);
    let out = LsarOpenPolicy2Out::decode(&b).unwrap();
    assert_eq!(out.handle, handle());
    assert_eq!(out.return_value, 0);
}

#[test]
fn open_policy_reply_too_short() {
    let b = vec![0u8; 10];
    assert_eq!(
        LsarOpenPolicy2Out::decode(&b).err(),
        Some(NdrError::UnexpectedEof { need: 20, offset: 0, have: 10 })
    );
    let b = vec![0u8; 22];
    assert_eq!(
        LsarOpenPolicy2Out::decode(&b).err(),
        Some(NdrError::UnexpectedEof { need: 4, offset: 20, have: 22 })
    );
}

#[test]
fn close_reply_decodes() {
    let mut b = vec![0u8; 20];
    u32le(&mut b, 0xc000_0008);
    let out = LsarCloseOut::decode(&b).unwrap();
    assert_eq!(out.handle, [0u8; 20]);
    assert_eq!(out.return_value, 0xc000_0008);
}

#[test]
fn lookup_reply_decodes_well_known_sids() {
    let out = LsarLookupSidsOut::decode(&well_known_reply()).unwrap();
    assert_eq!(out.domains, vec!["NT Authority".to_string()]);
    assert_eq!(out.names.len(), 2);
    assert_eq!(out.names[0].name, "Everyone");
    assert_eq!(out.names[0].sid_type, SidNameUse::WellKnownGroup);
    assert_eq!(out.names[0].domain_index, -1);
    assert_eq!(out.names[1].name, "SYSTEM");
    assert_eq!(out.names[1].sid_type, SidNameUse::WellKnownGroup);
    assert_eq!(out.names[1].domain_index, 0);
    assert_eq!(out.mapped_count, 2);
    assert_eq!(out.return_value, 0);
}

#[test]
fn lookup_reply_ignores_trailing_bytes() {
    let mut b = well_known_reply();
    b.extend_from_slice(&[9, 9, 9]);
    let out = LsarLookupSidsOut::decode(&b).unwrap();
    assert_eq!(out.names.len(), 2);
    assert_eq!(out.return_value, 0);
}

#[test]
fn lookup_reply_truncated_everywhere_fails() {
    let b = well_known_reply();
    for n in 0..b.len() {
        assert!(LsarLookupSidsOut::decode(&b[..n]).is_err(), "prefix of {n} bytes");
    }
}

#[test]
fn lookup_reply_unknown_sid() {
    let mut b = Vec::new();
    u32le(&mut b, 0); // no referenced domains
    u32le(&mut b, 1);
    u32le(&mut b, 0x0002_0000);
    u32le(&mut b, 1);
    u32le(&mut b, 8);
    u16le(&mut b, 0);
    u16le(&mut b, 0);
    u32le(&mut b, 0); // null name
    u32le(&mut b, 0xffff_ffff);
    u32le(&mut b, 0);
    u32le(&mut b, 0xc000_0073);
    let out = LsarLookupSidsOut::decode(&b).unwrap();
    assert!(out.domains.is_empty());
    let resolved = Lsar::lookup_sids_result(&out, 1).unwrap();
    assert_eq!(
        resolved,
        vec![ResolvedName {
            name: String::new(),
            domain: String::new(),
            sid_type: SidNameUse::Unknown
        }]
    );
}

#[test]
fn lookup_reply_invalid_utf16() {
    let mut b = Vec::new();
    u32le(&mut b, 0);
    u32le(&mut b, 1);
    u32le(&mut b, 0x0002_0000);
    u32le(&mut b, 1);
    u32le(&mut b, 1);
    u16le(&mut b, 2);
    u16le(&mut b, 2);
    u32le(&mut b, 0x0002_0004);
    u32le(&mut b, 0);
    u32le(&mut b, 1);
    u32le(&mut b, 0);
    u32le(&mut b, 1);
    u16le(&mut b, 0xd800); // lone surrogate
    u16le(&mut b, 0);
    u32le(&mut b, 1);
    u32le(&mut b, 0);
    assert_eq!(LsarLookupSidsOut::decode(&b).err(), Some(NdrError::InvalidUtf16));
}

#[test]
fn lookup_reply_short_name_buffer() {
    // The declared name length keeps only 2 of the 4 units sent.
    let mut b = Vec::new();
    u32le(&mut b, 0);
    u32le(&mut b, 1);
    u32le(&mut b, 0x0002_0000);
    u32le(&mut b, 1);
    u32le(&mut b, 1);
    u16le(&mut b, 4);
    u16le(&mut b, 4);
    u32le(&mut b, 0x0002_0004);
    u32le(&mut b, 3);
    wide(&mut b, "abcd");
    u32le(&mut b, 1);
    u32le(&mut b, 0);
    let out = LsarLookupSidsOut::decode(&b).unwrap();
    assert_eq!(out.names[0].name, "ab");
    assert_eq!(out.names[0].sid_type, SidNameUse::User);
}

#[test]
fn resolve_picks_domains_by_index() {
    let out = LsarLookupSidsOut::decode(&well_known_reply()).unwrap();
    let resolved = resolve_names(&out);
    assert_eq!(
        resolved,
        vec![
            ResolvedName {
                name: "Everyone".to_string(),
                domain: String::new(),
                sid_type: SidNameUse::WellKnownGroup
            },
            ResolvedName {
                name: "SYSTEM".to_string(),
                domain: "NT Authority".to_string(),
                sid_type: SidNameUse::WellKnownGroup
            },
        ]
    );
}

#[test]
fn resolve_index_past_end_gives_empty_domain() {
    let mut out = LsarLookupSidsOut::decode(&well_known_reply()).unwrap();
    out.names[1].domain_index = 1;
    let resolved = resolve_names(&out);
    assert_eq!(resolved[1].domain, "");
}

#[test]
fn lookup_status_acceptance() {
    assert!(is_lookup_status_accepted(0));
    assert!(is_lookup_status_accepted(0x0000_0107));
    assert!(is_lookup_status_accepted(0xC000_0073));
    assert!(!is_lookup_status_accepted(0xC000_0022));
    assert!(!is_lookup_status_accepted(1));
}

#[test]
fn lookup_result_fails_on_bad_status() {
    let mut out = LsarLookupSidsOut::decode(&well_known_reply()).unwrap();
    out.return_value = 0xC000_0022;
    assert_eq!(Lsar::lookup_sids_result(&out, 2).err(), Some(LsarError::LookupSidsFailed));
    assert_eq!(LsarError::LookupSidsFailed.message(), "LsarLookupSids failed");
}

#[test]
fn client_opens_policy_before_lookup() {
    let mut lsar = Lsar::new();
    assert_eq!(lsar.policy_handle(), None);
    match lsar.lookup_sids("srv", vec![Sid::new(1, vec![0])]) {
        LsarCall::OpenPolicy(req) => assert_eq!(req.server_name, "\\\\srv"),
        LsarCall::LookupSids(_) => panic!("no handle is held yet"),
    }
    let failed = LsarOpenPolicy2Out { handle: handle(), return_value: 0xC000_0022 };
    assert_eq!(lsar.open_policy(&failed), Err(LsarError::OpenPolicyFailed));
    assert_eq!(lsar.policy_handle(), None);
    let ok = LsarOpenPolicy2Out { handle: handle(), return_value: 0 };
    assert_eq!(lsar.open_policy(&ok), Ok(()));
    assert_eq!(lsar.policy_handle(), Some(handle()));
    match lsar.lookup_sids("srv", vec![Sid::new(1, vec![0])]) {
        LsarCall::LookupSids(req) => {
            assert_eq!(req.handle, handle());
            assert_eq!(req.sids, vec![Sid::new(1, vec![0])]);
        }
        LsarCall::OpenPolicy(_) => panic!("the handle is held"),
    }
}

#[test]
fn client_close_gives_up_handle() {
    let mut lsar = Lsar::new();
    assert!(lsar.close().is_none());
    let ok = LsarOpenPolicy2Out { handle: handle(), return_value: 0 };
    lsar.open_policy(&ok).unwrap();
    let call = lsar.close().unwrap();
    assert_eq!(call.handle, handle());
    assert_eq!(lsar.policy_handle(), None);
    assert!(lsar.close().is_none());
}

#[test]
fn lookup_result_one_name_per_sid() {
    let out = LsarLookupSidsOut::decode(&well_known_reply()).unwrap();
    let resolved = Lsar::lookup_sids_result(&out, 2).unwrap();
    assert_eq!(resolved.len(), 2);
    assert_eq!(resolved[0].name, "Everyone");
    assert_eq!(resolved[1].name, "SYSTEM");
    assert_eq!(resolved[1].domain, "NT Authority");
}

#[test]
fn lookup_result_fails_on_name_count_mismatch() {
    let out = LsarLookupSidsOut::decode(&well_known_reply()).unwrap();
    assert_eq!(Lsar::lookup_sids_result(&out, 3).err(), Some(LsarError::NameCountMismatch));
    assert_eq!(Lsar::lookup_sids_result(&out, 1).err(), Some(LsarError::NameCountMismatch));
    assert_eq!(
        LsarError::NameCountMismatch.message(),
        "LsarLookupSids returned a name count unlike the SID count"
    );
}

#[test]
fn lookup_result_bad_status_before_count() {
    let mut out = LsarLookupSidsOut::decode(&well_known_reply()).unwrap();
    out.return_value = 0xC000_0022;
    assert_eq!(Lsar::lookup_sids_result(&out, 5).err(), Some(LsarError::LookupSidsFailed));
}

#[test]
fn lookup_result_unknown_entry_has_empty_name() {
    let mut out = LsarLookupSidsOut::decode(&well_known_reply()).unwrap();
    out.names[0].sid_type = SidNameUse::Unknown;
    out.names[0].name = "X".to_string();
    out.return_value = 0x0000_0107;
    let resolved = Lsar::lookup_sids_result(&out, 2).unwrap();
    assert_eq!(resolved[0].name, "");
    assert_eq!(resolved[0].sid_type, SidNameUse::Unknown);
    assert_eq!(resolved[1].name, "SYSTEM");
}

#[test]
fn lookup_reply_prefixes_run_out() {
    let b = well_known_reply();
    for n in 0..b.len() {
        assert!(
            matches!(LsarLookupSidsOut::decode(&b[..n]), Err(NdrError::UnexpectedEof { .. })),
            "prefix of {n} bytes"
        );
    }
}

#[test]
fn lookup_reply_short_inputs_run_out() {
    for n in 0..20 {
        for fill in [0x00u8, 0x01, 0xff] {
            let b = vec![fill; n];
            assert!(
                matches!(LsarLookupSidsOut::decode(&b), Err(NdrError::UnexpectedEof { .. })),
                "{n} bytes of {fill:#x}"
            );
        }
    }
}
