use smb::rpc::{lsar_syntax_id, ndr20_syntax_id, ndr64_syntax_id};
use smb::tcp::{map_connect_error, map_tcp_error, IoFailureKind, TcpErrorClass};

#[test]
fn read_write_failures() {
    assert_eq!(map_tcp_error(IoFailureKind::ConnectionAborted), TcpErrorClass::NotConnected);
    assert_eq!(map_tcp_error(IoFailureKind::UnexpectedEof), TcpErrorClass::NotConnected);
    assert_eq!(map_tcp_error(IoFailureKind::WouldBlock), TcpErrorClass::Io);
    assert_eq!(map_tcp_error(IoFailureKind::TimedOut), TcpErrorClass::Io);
    assert_eq!(map_tcp_error(IoFailureKind::Other), TcpErrorClass::Io);
}

#[test]
fn connect_failures() {
    assert_eq!(map_connect_error(true, IoFailureKind::TimedOut), TcpErrorClass::Timeout);
    assert_eq!(map_connect_error(false, IoFailureKind::TimedOut), TcpErrorClass::Io);
    assert_eq!(map_connect_error(true, IoFailureKind::ConnectionAborted), TcpErrorClass::Io);
}

#[test]
fn syntax_ids() {
    let s = ndr64_syntax_id();
    assert_eq!((s.uuid.data1, s.uuid.data2, s.uuid.data3, s.version), (0x71710533, 0xbeba, 0x4937, 1));
    assert_eq!(s.uuid.data4, [0x83, 0x19, 0xb5, 0xdb, 0xef, 0x9c, 0xcc, 0x36]);
    let s = ndr20_syntax_id();
    assert_eq!((s.uuid.data1, s.uuid.data2, s.uuid.data3, s.version), (0x8a885d04, 0x1ceb, 0x11c9, 2));
    assert_eq!(s.uuid.data4, [0x9f, 0xe8, 0x08, 0x00, 0x2b, 0x10, 0x48, 0x60]);
    let s = lsar_syntax_id();
    assert_eq!((s.uuid.data1, s.uuid.data2, s.uuid.data3, s.version), (0x12345778, 0x1234, 0xabcd, 0));
    assert_eq!(s.uuid.data4, [0xef, 0x00, 0x01, 0x23, 0x45, 0x67, 0x89, 0xab]);
}
