use smb::ndr::{
    check_bounds, pad_off, pad_to, read_i32, read_ndr20_unicode_buffer, read_ndr20_wide_units,
    read_u16, read_u32, skip_ndr20_rpc_sid, write_ndr20_rpc_sid, write_ndr20_string, NdrError,
};
use smb::sid::{read_sid, write_sid, Sid, SidError};

#[test]
fn little_endian_reads() {
    let d = [0x01, 0x02, 0x03, 0x04, 0xff, 0xff, 0xff, 0xff];
    assert_eq!(read_u16(&d, 0), Ok((0x0201, 2)));
    assert_eq!(read_u32(&d, 0), Ok((0x0403_0201, 4)));
    assert_eq!(read_i32(&d, 4), Ok((-1, 8)));
    assert_eq!(
        read_u32(&d, 5),
        Err(NdrError::UnexpectedEof { need: 4, offset: 5, have: 8 })
    );
    assert_eq!(
        read_u16(&d, 7),
        Err(NdrError::UnexpectedEof { need: 2, offset: 7, have: 8 })
    );
}

#[test]
fn bounds() {
    let d = [0u8; 4];
    assert_eq!(check_bounds(&d, 0, 4), Ok(()));
    assert_eq!(check_bounds(&d, 4, 0), Ok(()));
    assert_eq!(
        check_bounds(&d, 3, 2),
        Err(NdrError::UnexpectedEof { need: 2, offset: 3, have: 4 })
    );
    assert_eq!(
        check_bounds(&d, 0, usize::MAX),
        Err(NdrError::UnexpectedEof { need: usize::MAX as u64, offset: 0, have: 4 })
    );
}

#[test]
fn alignment() {
    assert_eq!(pad_off(0, 4), 0);
    assert_eq!(pad_off(1, 4), 4);
    assert_eq!(pad_off(4, 4), 4);
    assert_eq!(pad_off(7, 4), 8);
    let mut b = vec![1u8, 2, 3, 4, 5];
    pad_to(&mut b, 4);
    assert_eq!(b, vec![1, 2, 3, 4, 5, 0, 0, 0]);
    pad_to(&mut b, 4);
    assert_eq!(b.len(), 8);
}

#[test]
fn wide_string_written() {
    let mut b = vec![0xaa];
    write_ndr20_string(&mut b, "hi");
    assert_eq!(
        b,
        vec![0xaa, 3, 0, 0, 0, 0, 0, 0, 0, 3, 0, 0, 0, b'h', 0, b'i', 0, 0, 0]
    );
}

#[test]
fn wide_string_non_bmp_written_as_surrogates() {
    let mut b = Vec::new();
    write_ndr20_string(&mut b, "\u{1D11E}");
    assert_eq!(
        b,
        vec![3, 0, 0, 0, 0, 0, 0, 0, 3, 0, 0, 0, 0x34, 0xd8, 0x1e, 0xdd, 0, 0]
    );
}

#[test]
fn wide_string_reads_back() {
    let mut b = vec![0u8; 4];
    write_ndr20_string(&mut b, "Everyone");
    let (units, end) = read_ndr20_wide_units(&b, 4, 18).unwrap();
    assert_eq!(units.len(), 9);
    assert_eq!(end, 4 + 12 + 18 + 2);
    let (s, _) = read_ndr20_unicode_buffer(&b, 4, 16).unwrap();
    assert_eq!(s, "Everyone");
}

#[test]
fn wide_string_read_aligns_first() {
    let mut b = vec![0u8; 4];
    write_ndr20_string(&mut b, "ab");
    let (s, end) = read_ndr20_unicode_buffer(&b, 1, 4).unwrap();
    assert_eq!(s, "ab");
    assert_eq!(end, 24);
}

#[test]
fn wide_string_missing_units() {
    let mut b = Vec::new();
    b.extend_from_slice(&5u32.to_le_bytes());
    b.extend_from_slice(&0u32.to_le_bytes());
    b.extend_from_slice(&5u32.to_le_bytes());
    b.extend_from_slice(&[0x61, 0]);
    assert_eq!(
        read_ndr20_unicode_buffer(&b, 0, 10).err(),
        Some(NdrError::UnexpectedEof { need: 10, offset: 12, have: 14 })
    );
}

#[test]
fn wide_string_invalid_utf16() {
    let mut b = Vec::new();
    b.extend_from_slice(&1u32.to_le_bytes());
    b.extend_from_slice(&0u32.to_le_bytes());
    b.extend_from_slice(&1u32.to_le_bytes());
    b.extend_from_slice(&[0x00, 0xdc]);
    assert_eq!(read_ndr20_unicode_buffer(&b, 0, 2).err(), Some(NdrError::InvalidUtf16));
}

#[test]
fn rpc_sid_written_and_skipped() {
    let sid = Sid::new(5, vec![32, 544]);
    let mut b = Vec::new();
    write_ndr20_rpc_sid(&mut b, &sid);
    assert_eq!(
        b,
        vec![2, 0, 0, 0, 1, 2, 0, 0, 0, 0, 0, 5, 32, 0, 0, 0, 0x20, 0x02, 0, 0]
    );
    b.push(7);
    assert_eq!(skip_ndr20_rpc_sid(&b, 0), Ok(20));
    assert_eq!(
        skip_ndr20_rpc_sid(&b[..18], 0),
        Err(NdrError::UnexpectedEof { need: 8, offset: 12, have: 18 })
    );
    assert_eq!(
        skip_ndr20_rpc_sid(&b[..10], 0),
        Err(NdrError::UnexpectedEof { need: 8, offset: 4, have: 10 })
    );
}

#[test]
fn sid_binary_form() {
    let sid = Sid::new(5, vec![21, 782712087, 4182988437, 2163400469, 1001]);
    let mut b = Vec::new();
    write_sid(&mut b, &sid);
    let expected: Vec<u8> = vec![
        0x01, 0x05, 0x00, 0x00, 0x00, 0x00, 0x00, 0x05, 0x15, 0x00, 0x00, 0x00, 0x17, 0x3d, 0xa7,
        0x2e, 0x95, 0x56, 0x53, 0xf9, 0x15, 0xdf, 0xf2, 0x80, 0xe9, 0x03, 0x00, 0x00,
    ];
    assert_eq!(b, expected);
    let (back, end) = read_sid(&b, 0).unwrap();
    assert_eq!(back, sid);
    assert_eq!(end, 28);
}

#[test]
fn sid_read_errors() {
    assert_eq!(read_sid(&[], 0).err(), Some(SidError::UnexpectedEof));
    assert_eq!(read_sid(&[2, 0, 0, 0, 0, 0, 0, 0], 0).err(), Some(SidError::InvalidRevision));
    assert_eq!(read_sid(&[1, 1, 0, 0, 0, 0, 0, 5], 0).err(), Some(SidError::UnexpectedEof));
    assert_eq!(read_sid(&[1, 0, 0, 0], 0).err(), Some(SidError::UnexpectedEof));
}

#[test]
fn wide_string_non_bmp_reads_back() {
    let mut b = Vec::new();
    write_ndr20_string(&mut b, "a\u{1D11E}\u{10FFFF}z");
    let (s, end) = read_ndr20_unicode_buffer(&b, 0, 12).unwrap();
    assert_eq!(s, "a\u{1D11E}\u{10FFFF}z");
    assert_eq!(end, 12 + 14 + 2);
}

#[test]
fn wide_string_empty_reads_back() {
    let mut b = Vec::new();
    write_ndr20_string(&mut b, "");
    assert_eq!(b, vec![1, 0, 0, 0, 0, 0, 0, 0, 1, 0, 0, 0, 0, 0]);
    let (s, end) = read_ndr20_unicode_buffer(&b, 0, 0).unwrap();
    assert_eq!(s, "");
    assert_eq!(end, 16);
}

#[test]
fn wide_string_high_surrogate_without_low_is_invalid() {
    let mut b = Vec::new();
    b.extend_from_slice(&2u32.to_le_bytes());
    b.extend_from_slice(&0u32.to_le_bytes());
    b.extend_from_slice(&2u32.to_le_bytes());
    b.extend_from_slice(&[0x34, 0xd8, 0x61, 0x00]);
    assert_eq!(read_ndr20_unicode_buffer(&b, 0, 4).err(), Some(NdrError::InvalidUtf16));
    // The declared length cuts the pair in half.
    let mut p = Vec::new();
    p.extend_from_slice(&2u32.to_le_bytes());
    p.extend_from_slice(&0u32.to_le_bytes());
    p.extend_from_slice(&2u32.to_le_bytes());
    p.extend_from_slice(&[0x34, 0xd8, 0x1e, 0xdd]);
    assert_eq!(read_ndr20_unicode_buffer(&p, 0, 2).err(), Some(NdrError::InvalidUtf16));
    assert_eq!(read_ndr20_unicode_buffer(&p, 0, 4).unwrap().0, "\u{1D11E}");
}
