//! How the TCP transport reports socket failures.

use vstd::prelude::*;

verus! {

/// The kinds of socket failure the transport tells apart.
#[derive(Debug, Clone, Copy, PartialEq, Eq, Structural)]
pub enum IoFailureKind {
    ConnectionAborted,
    UnexpectedEof,
    WouldBlock,
    TimedOut,
    Other,
}

/// What the transport reports for a socket failure.
#[derive(Debug, Clone, Copy, PartialEq, Eq, Structural)]
pub enum TcpErrorClass {
    /// The connection is gone.
    NotConnected,
    /// Connecting took longer than the transport's timeout.
    Timeout,
    /// Any other failure, passed on as it is.
    Io,
}

/// A failure while reading or writing: an aborted connection or an
/// unexpected end of stream means the connection is gone; anything else is
/// passed on.
pub open spec fn spec_map_tcp_error(kind: IoFailureKind) -> TcpErrorClass {
    if kind == IoFailureKind::ConnectionAborted || kind == IoFailureKind::UnexpectedEof {
        TcpErrorClass::NotConnected
    } else {
        TcpErrorClass::Io
    }
}

/// Classifies a failure while reading or writing.
pub fn map_tcp_error(kind: IoFailureKind) -> (c: TcpErrorClass)
    ensures
        c == spec_map_tcp_error(kind),
        c == TcpErrorClass::NotConnected <==> (kind == IoFailureKind::ConnectionAborted || kind
            == IoFailureKind::UnexpectedEof),
        c != TcpErrorClass::Timeout,
{
    if kind == IoFailureKind::ConnectionAborted || kind == IoFailureKind::UnexpectedEof {
        TcpErrorClass::NotConnected
    } else {
        TcpErrorClass::Io
    }
}

/// A failure while connecting: with a timeout set, a timed-out connect is
/// a timeout of the transport; anything else is passed on.
pub open spec fn spec_map_connect_error(with_timeout: bool, kind: IoFailureKind) -> TcpErrorClass {
    if with_timeout && kind == IoFailureKind::TimedOut {
        TcpErrorClass::Timeout
    } else {
        TcpErrorClass::Io
    }
}

/// Classifies a failure while connecting; `with_timeout` is whether the
/// transport has a non-zero timeout.
pub fn map_connect_error(with_timeout: bool, kind: IoFailureKind) -> (c: TcpErrorClass)
    ensures
        c == spec_map_connect_error(with_timeout, kind),
        c == TcpErrorClass::Timeout <==> (with_timeout && kind == IoFailureKind::TimedOut),
        c != TcpErrorClass::Timeout ==> c == TcpErrorClass::Io,
{
    if with_timeout && kind == IoFailureKind::TimedOut {
        TcpErrorClass::Timeout
    } else {
        TcpErrorClass::Io
    }
}

/// Law: a failed read or write means the connection is gone exactly when
/// it was aborted or the stream ended early; every other kind is passed on
/// as an I/O error, and none is ever a timeout.
pub proof fn lemma_tcp_error_classes(kind: IoFailureKind)
    ensures
        kind == IoFailureKind::ConnectionAborted || kind == IoFailureKind::UnexpectedEof
            ==> spec_map_tcp_error(kind) == TcpErrorClass::NotConnected,
        kind != IoFailureKind::ConnectionAborted && kind != IoFailureKind::UnexpectedEof
            ==> spec_map_tcp_error(kind) == TcpErrorClass::Io,
{
}

/// Law: a failed connect is a timeout of the transport only when the
/// socket timed out and a timeout was set; every other failure, and a
/// timed-out connect without a timeout set, is passed on as an I/O error.
pub proof fn lemma_connect_error_classes(with_timeout: bool, kind: IoFailureKind)
    ensures
        with_timeout && kind == IoFailureKind::TimedOut ==> spec_map_connect_error(
            with_timeout,
            kind,
        ) == TcpErrorClass::Timeout,
        kind != IoFailureKind::TimedOut ==> spec_map_connect_error(with_timeout, kind)
            == TcpErrorClass::Io,
        !with_timeout ==> spec_map_connect_error(with_timeout, kind) == TcpErrorClass::Io,
{
}

} // verus!
