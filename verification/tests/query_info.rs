use smb::query::{
    AdditionalInfo, GetEaInfoList, GetInfoRequestData, InfoType, NullByte, QueryError,
    QueryInfoClass, QueryInfoFlags, QueryInfoRequest, QueryInfoResponse, QueryInfoResponseData,
    QueryQuotaInfo,
};
use smb::sid::{Sid, SidError};

fn hex(s: &str) -> Vec<u8> {
    let s: String = s.chars().filter(|c| !c.is_whitespace()).collect();
    (0..s.len())
        .step_by(2)
        .map(|i| u8::from_str_radix(&s[i..i + 2], 16).unwrap())
        .collect()
}

const NETWORK_OPEN_INFORMATION: u8 = 34;
const FULL_EA_INFORMATION: u8 = 15;

fn basic_request() -> QueryInfoRequest {
    QueryInfoRequest {
        info_type: InfoType::File,
        info_class: QueryInfoClass::File(NETWORK_OPEN_INFORMATION),
        output_buffer_length: 56,
        additional_info: AdditionalInfo::new(),
        flags: QueryInfoFlags::new(),
        file_id: [
            0x77, 0x5, 0x0, 0x0, 0xc, 0x0, 0x0, 0x0, 0xc5, 0x0, 0x10, 0x0, 0xc, 0x0, 0x0, 0x0,
        ],
        data: GetInfoRequestData::NoData,
    }
}

fn ea_request() -> QueryInfoRequest {
    QueryInfoRequest {
        info_type: InfoType::File,
        info_class: QueryInfoClass::File(FULL_EA_INFORMATION),
        additional_info: AdditionalInfo::new(),
        flags: QueryInfoFlags::new()
            .with_restart_scan(true)
            .with_return_single_entry(true),
        file_id: [
            0x7a, 0x5, 0x0, 0x0, 0xc, 0x0, 0x0, 0x0, 0xd1, 0x0, 0x10, 0x0, 0xc, 0x0, 0x0, 0x0,
        ],
        data: GetInfoRequestData::EaInfo(GetEaInfoList {
            values: hex("0000000015244d7045615f44323632414336323434353132393500"),
        }),
        output_buffer_length: 554,
    }
}

fn security_request() -> QueryInfoRequest {
    QueryInfoRequest {
        info_type: InfoType::Security,
        info_class: Default::default(),
        output_buffer_length: 0,
        additional_info: AdditionalInfo::new()
            .with_owner_security_information(true)
            .with_group_security_information(true)
            .with_dacl_security_information(true)
            .with_sacl_security_information(true),
        flags: QueryInfoFlags::new(),
        file_id: [
            0x2b, 0, 0, 0, 0x0d, 0, 0, 0, 0x31, 0, 0, 0, 0x0d, 0, 0, 0,
        ],
        data: GetInfoRequestData::NoData,
    }
}

#[test]
fn query_info_basic() {
    let bytes = basic_request().encode().unwrap();
    assert_eq!(
        bytes,
        hex("290001223800000068000000000000000000000000000000770500000c000000c50010000c000000")
    );
    let back = QueryInfoRequest::decode(&bytes).unwrap();
    assert_eq!(back.info_type, InfoType::File);
    assert_eq!(back.info_class, QueryInfoClass::File(NETWORK_OPEN_INFORMATION));
    assert_eq!(back.output_buffer_length, 56);
    assert!(matches!(back.data, GetInfoRequestData::NoData));
}

#[test]
fn query_info_get_ea() {
    let bytes = ea_request().encode().unwrap();
    assert_eq!(
        bytes,
        hex("2900010f2a020000680000001b00000000000000030000007a0500000c000000d10010000c0000000000000015244d7045615f44323632414336323434353132393500")
    );
    let back = QueryInfoRequest::decode(&bytes).unwrap();
    assert_eq!(back.flags.bits, 3);
    match back.data {
        GetInfoRequestData::EaInfo(list) => {
            assert_eq!(list.values, hex("0000000015244d7045615f44323632414336323434353132393500"))
        }
        _ => panic!("expected extended attribute names"),
    }
}

#[test]
fn query_security() {
    let bytes = security_request().encode().unwrap();
    assert_eq!(
        bytes,
        hex("290003000000000068000000000000000f000000000000002b0000000d000000310000000d000000")
    );
    let back = QueryInfoRequest::decode(&bytes).unwrap();
    assert_eq!(back.info_type, InfoType::Security);
    assert_eq!(back.info_class, QueryInfoClass::Empty(NullByte {}));
    assert_eq!(back.additional_info.bits, 0xf);
    assert!(back.additional_info.is_security());
}

#[test]
fn query_info_class_default_is_empty() {
    assert_eq!(QueryInfoClass::default(), QueryInfoClass::Empty(NullByte {}));
}

#[test]
fn request_class_must_fit_type() {
    let mut r = security_request();
    r.info_class = QueryInfoClass::File(4);
    assert_eq!(r.encode().err(), Some(QueryError::ClassMismatch));
    let mut r = basic_request();
    r.info_class = QueryInfoClass::FileSystem(1);
    assert_eq!(r.encode().err(), Some(QueryError::ClassMismatch));
}

#[test]
fn request_data_must_fit_type() {
    let mut r = basic_request();
    r.data = GetInfoRequestData::EaInfo(GetEaInfoList { values: vec![0; 8] });
    assert_eq!(r.encode().err(), Some(QueryError::DataMismatch));
    let mut r = basic_request();
    r.data = GetInfoRequestData::Quota(QueryQuotaInfo::new(false, true, vec![1, 2, 3]));
    assert_eq!(r.encode().err(), Some(QueryError::DataMismatch));
}

#[test]
fn request_decode_errors() {
    let good = basic_request().encode().unwrap();
    assert_eq!(QueryInfoRequest::decode(&good[..1]).err(), Some(QueryError::UnexpectedEof));
    assert_eq!(QueryInfoRequest::decode(&good[..39]).err(), Some(QueryError::UnexpectedEof));
    let mut b = good.clone();
    b[0] = 0x28;
    assert_eq!(QueryInfoRequest::decode(&b).err(), Some(QueryError::InvalidStructureSize));
    let mut b = good.clone();
    b[2] = 9;
    assert_eq!(QueryInfoRequest::decode(&b).err(), Some(QueryError::InvalidInfoType));
    let mut b = security_request().encode().unwrap();
    b[3] = 1;
    assert_eq!(QueryInfoRequest::decode(&b).err(), Some(QueryError::NonZeroNullByte));
    let mut b = ea_request().encode().unwrap();
    b.pop();
    assert_eq!(QueryInfoRequest::decode(&b).err(), Some(QueryError::UnexpectedEof));
}

#[test]
fn quota_request_with_sid_roundtrips() {
    let sid = Sid::new(5, vec![21, 1, 2, 3, 1001]);
    let r = QueryInfoRequest {
        info_type: InfoType::Quota,
        info_class: QueryInfoClass::default(),
        output_buffer_length: 0x10000,
        additional_info: AdditionalInfo::new(),
        flags: QueryInfoFlags::new(),
        file_id: [7; 16],
        data: GetInfoRequestData::Quota(QueryQuotaInfo::new_sid(true, false, sid.clone())),
    };
    let bytes = r.encode().unwrap();
    let mut expected = hex("2900040000000100680000002c00000000000000000000000707070707070707070707070707070701000000000000001c00000000000000");
    expected.extend(hex("010500000000000515000000010000000200000003000000e9030000"));
    assert_eq!(bytes, expected);
    let back = QueryInfoRequest::decode(&bytes).unwrap();
    match back.data {
        GetInfoRequestData::Quota(q) => {
            assert!(q.return_single);
            assert!(!q.restart_scan);
            assert!(q.get_quota_info_content.is_none());
            assert_eq!(q.sid, Some(sid));
        }
        _ => panic!("expected quota parameters"),
    }
}

#[test]
fn quota_with_entry_list_roundtrips() {
    let q = QueryQuotaInfo::new(false, true, vec![1, 2, 3, 4]);
    let bytes = q.encode().unwrap();
    assert_eq!(bytes, hex("0001000004000000000000000000000001020304"));
    let back = QueryQuotaInfo::decode(&bytes).unwrap();
    assert!(!back.return_single);
    assert!(back.restart_scan);
    assert_eq!(back.get_quota_info_content, Some(vec![1, 2, 3, 4]));
    assert!(back.sid.is_none());
}

#[test]
fn quota_needs_exactly_one_selection() {
    let both = QueryQuotaInfo {
        return_single: false,
        restart_scan: false,
        get_quota_info_content: Some(vec![1]),
        sid: Some(Sid::new(1, vec![0])),
    };
    assert_eq!(both.encode().err(), Some(QueryError::QuotaSelection));
    let neither = QueryQuotaInfo {
        return_single: false,
        restart_scan: false,
        get_quota_info_content: None,
        sid: None,
    };
    assert_eq!(neither.encode().err(), Some(QueryError::QuotaSelection));
    assert_eq!(
        QueryQuotaInfo::decode(&[0u8; 16]).err(),
        Some(QueryError::QuotaSelection)
    );
    // An empty entry list is not written, so it does not read back.
    let empty = QueryQuotaInfo::new(false, false, Vec::new());
    let bytes = empty.encode().unwrap();
    assert_eq!(QueryQuotaInfo::decode(&bytes).err(), Some(QueryError::QuotaSelection));
}

#[test]
fn quota_sid_at_offset() {
    let mut b = hex("0000000000000000 0c000000 04000000");
    b.extend_from_slice(&[0xee; 4]);
    b.extend(hex("010100000000000112000000"));
    let q = QueryQuotaInfo::decode(&b).unwrap();
    assert_eq!(q.sid, Some(Sid::new(1, vec![18])));
    let mut bad = b.clone();
    bad[20] = 3;
    assert_eq!(
        QueryQuotaInfo::decode(&bad).err(),
        Some(QueryError::InvalidSid(SidError::InvalidRevision))
    );
    assert_eq!(
        QueryQuotaInfo::decode(&b[..30]).err(),
        Some(QueryError::InvalidSid(SidError::UnexpectedEof))
    );
}

fn response_data() -> Vec<u8> {
    vec![
        0x5b, 0x6c, 0x44, 0xce, 0x6a, 0x58, 0xdb, 0x1, 0x4, 0x8f, 0xa1, 0xd, 0x51, 0x6b, 0xdb,
        0x1, 0x4, 0x8f, 0xa1, 0xd, 0x51, 0x6b, 0xdb, 0x1, 0x4, 0x8f, 0xa1, 0xd, 0x51, 0x6b,
        0xdb, 0x1, 0x20, 0x0, 0x0, 0x0, 0x0, 0x0, 0x0, 0x0,
    ]
}

#[test]
fn query_info_response() {
    let resp = QueryInfoResponse { data: response_data().into() };
    let bytes = resp.encode();
    assert_eq!(
        bytes,
        hex("09004800280000005b6c44ce6a58db01048fa10d516bdb01048fa10d516bdb01048fa10d516bdb012000000000000000")
    );
    let mut msg = vec![0u8; 64];
    msg.extend_from_slice(&bytes);
    let back = QueryInfoResponse::decode(&msg, 64).unwrap();
    assert_eq!(back.data(), &response_data()[..]);
}

#[test]
fn response_data_cut_at_message_end() {
    let resp = QueryInfoResponse { data: response_data().into() };
    let mut msg = vec![0u8; 64];
    msg.extend_from_slice(&resp.encode());
    msg.truncate(64 + 8 + 10);
    let back = QueryInfoResponse::decode(&msg, 64).unwrap();
    assert_eq!(back.data(), &response_data()[..10]);
    let head = &msg[..72];
    let back = QueryInfoResponse::decode(head, 64).unwrap();
    assert!(back.data().is_empty());
}

#[test]
fn response_decode_errors() {
    let mut msg = vec![0u8; 64];
    msg.extend_from_slice(&hex("0a00480000000000"));
    assert_eq!(
        QueryInfoResponse::decode(&msg, 64).err(),
        Some(QueryError::InvalidStructureSize)
    );
    assert_eq!(QueryInfoResponse::decode(&msg[..65], 64).err(), Some(QueryError::UnexpectedEof));
    let mut short = vec![0u8; 64];
    short.extend_from_slice(&hex("090048"));
    assert_eq!(QueryInfoResponse::decode(&short, 64).err(), Some(QueryError::UnexpectedEof));
}

#[test]
fn response_data_from_bytes() {
    let data: QueryInfoResponseData = vec![1u8, 2, 3].into();
    assert_eq!(data.data(), &[1, 2, 3]);
}

#[test]
fn security_flags() {
    assert!(!AdditionalInfo::new().is_security());
    assert!(AdditionalInfo::new().with_owner_security_information(true).is_security());
    assert!(AdditionalInfo::new().with_label_security_information(true).is_security());
    assert!(AdditionalInfo::new().with_attribute_security_information(true).is_security());
    assert!(AdditionalInfo::new().with_scope_security_information(true).is_security());
    let backup = AdditionalInfo::new().with_backup_security_information(true);
    assert_eq!(backup.bits, 0x1_0000);
    assert!(backup.is_security());
    assert!(!AdditionalInfo::from_bits(0x80).is_security());
    assert!(!AdditionalInfo::from_bits(0xfffe_ff80).is_security());
    let cleared = AdditionalInfo::from_bits(0xf).with_dacl_security_information(false);
    assert_eq!(cleared.bits, 0xb);
}

#[test]
fn ea_flags() {
    let f = QueryInfoFlags::new().with_index_specified(true);
    assert_eq!(f.bits, 4);
    assert!(f.index_specified());
    assert!(!f.restart_scan());
    assert!(!f.return_single_entry());
    let g = QueryInfoFlags::from_bits(3);
    assert!(g.restart_scan() && g.return_single_entry());
    assert_eq!(g.with_restart_scan(false).bits, 2);
}

#[test]
fn info_type_codes() {
    assert_eq!(InfoType::File.code(), 1);
    assert_eq!(InfoType::FileSystem.code(), 2);
    assert_eq!(InfoType::Security.code(), 3);
    assert_eq!(InfoType::Quota.code(), 4);
    assert_eq!(InfoType::from_code(4), Some(InfoType::Quota));
    assert_eq!(InfoType::from_code(0), None);
    assert_eq!(NullByte::read(0), Ok(NullByte {}));
    assert_eq!(NullByte::read(1), Err(QueryError::NonZeroNullByte));
    assert_eq!(NullByte {}.write(), 0);
}
