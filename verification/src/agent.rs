//! Message vocabulary of the agent protocol, the per-call accept sets, and
//! the channel state machine.
//!
//! A channel (host side or guest side) exchanges newline-delimited frames
//! over one duplex byte stream. Commands flow host to guest and are answered
//! with acknowledgements; events flow guest to host unprompted. Each read
//! call accepts only the message kinds valid in that call's context; every
//! other kind, and any undecodable frame, is a protocol error that faults
//! the channel.
use crate::clipboard::ClipboardEvent;
use crate::dbus_notifications::DbusNotification;
use crate::runner::{QemuSharedDir, SharedDirV};
use vstd::prelude::*;

verus! {

/// Guest announces its protocol version at connection start.
#[derive(Debug, PartialEq)]
pub struct AgentReady {
    pub version: String,
}

/// Spec-level model of a handshake announcement.
pub ghost struct AgentReadyV {
    pub version: Seq<char>,
}

impl View for AgentReady {
    type V = AgentReadyV;

    open spec fn view(&self) -> AgentReadyV {
        AgentReadyV { version: self.version@ }
    }
}

/// Response to a command; status 0 is success, any other value is an
/// application-specific failure code, opaque to the protocol layer.
#[derive(Debug, PartialEq)]
pub struct AgentAck {
    pub status: i32,
}

/// Host asks the guest to mount a shared directory.
#[derive(Debug, PartialEq)]
pub struct AgentMountRequest {
    pub shared_dir: QemuSharedDir,
}

/// Host asks the guest to launch an application, optionally as an
/// unprivileged user and with a desktop session bus started.
#[derive(Debug, PartialEq)]
pub struct AgentRunRequest {
    pub app: String,
    pub user: bool,
    pub dbus_session: bool,
}

/// Spec-level model of a run request.
pub ghost struct AgentRunRequestV {
    pub app: Seq<char>,
    pub user: bool,
    pub dbus_session: bool,
}

impl View for AgentRunRequest {
    type V = AgentRunRequestV;

    open spec fn view(&self) -> AgentRunRequestV {
        AgentRunRequestV { app: self.app@, user: self.user, dbus_session: self.dbus_session }
    }
}

/// Guest reports that the launched application terminated with this code.
#[derive(Debug, PartialEq)]
pub struct AgentAppExitCode {
    pub code: i32,
}

/// The wire unit: a tagged variant over every message kind of the protocol.
///
/// `AgentClosed` is a sentinel synthesized locally when a read yields zero
/// bytes; it is never sent over the wire and never produced by decoding
/// wire data.
#[derive(Debug, PartialEq)]
pub enum AgentMessage {
    AgentReady(AgentReady),
    AgentAck(AgentAck),
    AgentMountRequest(AgentMountRequest),
    AgentRunRequest(AgentRunRequest),
    AgentAppExitCode(AgentAppExitCode),
    AgentClosed,
    ClipboardEvent(ClipboardEvent),
    DbusNotification(DbusNotification),
}

/// Spec-level model of a message, over mathematical sequences and integers.
pub ghost enum MsgV {
    Ready { version: Seq<char> },
    Ack { status: int },
    MountRequest { shared_dir: SharedDirV },
    RunRequest { app: Seq<char>, user: bool, dbus_session: bool },
    AppExitCode { code: int },
    Closed,
    ClipboardEvent { data: Seq<char> },
    DbusNotification { summary: Seq<char>, body: Seq<char> },
}

impl View for AgentMessage {
    type V = MsgV;

    open spec fn view(&self) -> MsgV {
        match self {
            AgentMessage::AgentReady(m) => MsgV::Ready { version: m.version@ },
            AgentMessage::AgentAck(m) => MsgV::Ack { status: m.status as int },
            AgentMessage::AgentMountRequest(m) => MsgV::MountRequest { shared_dir: m.shared_dir@ },
            AgentMessage::AgentRunRequest(m) => MsgV::RunRequest {
                app: m.app@,
                user: m.user,
                dbus_session: m.dbus_session,
            },
            AgentMessage::AgentAppExitCode(m) => MsgV::AppExitCode { code: m.code as int },
            AgentMessage::AgentClosed => MsgV::Closed,
            AgentMessage::ClipboardEvent(m) => MsgV::ClipboardEvent { data: m.data@ },
            AgentMessage::DbusNotification(m) => MsgV::DbusNotification {
                summary: m.summary@,
                body: m.body@,
            },
        }
    }
}

/// Errors of the protocol layer.
///
/// `ProtocolError` is fatal to the channel: a frame decoded to a message
/// kind not valid in the current call's context, or failed to decode at
/// all. `TransportError` is a connect/read/write failure at the byte-stream
/// level, mapped in by the transport edge. `ConnectTimeout` is reported when
/// the dial retry budget is exhausted.
#[derive(Debug, Clone, Copy, PartialEq, Eq, Structural)]
pub enum AgentError {
    ProtocolError,
    TransportError,
    ConnectTimeout,
}

// ---------------------------------------------------------------------------
// Per-call accept sets
// ---------------------------------------------------------------------------
/// Spec-level image of a classified read.
pub open spec fn read_view(r: Result<AgentMessage, AgentError>) -> Result<MsgV, AgentError> {
    match r {
        Ok(m) => Ok(m@),
        Err(e) => Err(e),
    }
}

/// What a handshake read accepts: the peer's `Ready` announcement, or the
/// close sentinel; every other frame is a protocol error.
pub open spec fn spec_handshake_read(line: Seq<char>) -> Result<MsgV, AgentError> {
    match crate::codec::spec_decode_frame(line) {
        Ok(m) => if m is Ready || m is Closed {
            Ok(m)
        } else {
            Err(AgentError::ProtocolError)
        },
        Err(e) => Err(e),
    }
}

/// What a command round trip's reply read accepts: the peer's `Ack`, or the
/// close sentinel; every other frame is a protocol error.
pub open spec fn spec_ack_read(line: Seq<char>) -> Result<MsgV, AgentError> {
    match crate::codec::spec_decode_frame(line) {
        Ok(m) => if m is Ack || m is Closed {
            Ok(m)
        } else {
            Err(AgentError::ProtocolError)
        },
        Err(e) => Err(e),
    }
}

/// What the host's event loop accepts: the three guest-originated event
/// kinds, or the close sentinel; every other frame is a protocol error.
pub open spec fn spec_host_event_read(line: Seq<char>) -> Result<MsgV, AgentError> {
    match crate::codec::spec_decode_frame(line) {
        Ok(m) => if m is AppExitCode || m is ClipboardEvent || m is DbusNotification
            || m is Closed {
            Ok(m)
        } else {
            Err(AgentError::ProtocolError)
        },
        Err(e) => Err(e),
    }
}

/// What the guest's event loop accepts: any message kind the host may send,
/// which is every decodable frame, or the close sentinel.
pub open spec fn spec_guest_event_read(line: Seq<char>) -> Result<MsgV, AgentError> {
    crate::codec::spec_decode_frame(line)
}

/// Classifies the first frame of a session for the host's `initialize`
/// call: only the guest's `Ready` announcement (or the peer's close) is
/// accepted.
pub fn read_handshake_frame(line: &str) -> (r: Result<AgentMessage, AgentError>)
    ensures
        read_view(r) == spec_handshake_read(line@),
{
    match crate::codec::decode_frame(line) {
        Ok(m) => match m {
            AgentMessage::AgentReady(_) => Ok(m),
            AgentMessage::AgentClosed => Ok(m),
            _ => Err(AgentError::ProtocolError),
        },
        Err(e) => Err(e),
    }
}

/// Classifies the one frame read after a command was sent: only the peer's
/// `Ack` (or the peer's close) is accepted.
pub fn read_ack_frame(line: &str) -> (r: Result<AgentMessage, AgentError>)
    ensures
        read_view(r) == spec_ack_read(line@),
{
    match crate::codec::decode_frame(line) {
        Ok(m) => match m {
            AgentMessage::AgentAck(_) => Ok(m),
            AgentMessage::AgentClosed => Ok(m),
            _ => Err(AgentError::ProtocolError),
        },
        Err(e) => Err(e),
    }
}

/// Classifies a frame read by the host's event loop.
pub fn read_host_event_frame(line: &str) -> (r: Result<AgentMessage, AgentError>)
    ensures
        read_view(r) == spec_host_event_read(line@),
{
    match crate::codec::decode_frame(line) {
        Ok(m) => match m {
            AgentMessage::AgentAppExitCode(_) => Ok(m),
            AgentMessage::ClipboardEvent(_) => Ok(m),
            AgentMessage::DbusNotification(_) => Ok(m),
            AgentMessage::AgentClosed => Ok(m),
            _ => Err(AgentError::ProtocolError),
        },
        Err(e) => Err(e),
    }
}

/// Classifies a frame read by the guest's event loop.
pub fn read_guest_event_frame(line: &str) -> (r: Result<AgentMessage, AgentError>)
    ensures
        read_view(r) == spec_guest_event_read(line@),
{
    crate::codec::decode_frame(line)
}

// ---------------------------------------------------------------------------
// Channel state machine
// ---------------------------------------------------------------------------
/// One side's session state. `Closed` and `Faulted` are terminal: no
/// further operation is valid on the channel, and the owner must treat the
/// peer as gone.
#[derive(Debug, Clone, Copy, PartialEq, Eq, Structural)]
pub enum ChannelState {
    AwaitingHandshake,
    Ready,
    Closed,
    Faulted,
}

/// How one classified read moves the session state.
pub open spec fn spec_advance(s: ChannelState, r: Result<MsgV, AgentError>) -> ChannelState {
    match s {
        ChannelState::Closed => ChannelState::Closed,
        ChannelState::Faulted => ChannelState::Faulted,
        ChannelState::AwaitingHandshake => match r {
            Ok(m) => if m is Ready {
                ChannelState::Ready
            } else if m is Closed {
                ChannelState::Closed
            } else {
                ChannelState::Faulted
            },
            Err(_) => ChannelState::Faulted,
        },
        ChannelState::Ready => match r {
            Ok(m) => if m is Closed {
                ChannelState::Closed
            } else {
                ChannelState::Ready
            },
            Err(_) => ChannelState::Faulted,
        },
    }
}

/// Advances the session state by one classified read.
pub fn advance(s: ChannelState, r: &Result<AgentMessage, AgentError>) -> (t: ChannelState)
    ensures
        t == spec_advance(s, read_view(*r)),
{
    match s {
        ChannelState::Closed => ChannelState::Closed,
        ChannelState::Faulted => ChannelState::Faulted,
        ChannelState::AwaitingHandshake => match r {
            Ok(m) => match m {
                AgentMessage::AgentReady(_) => ChannelState::Ready,
                AgentMessage::AgentClosed => ChannelState::Closed,
                _ => ChannelState::Faulted,
            },
            Err(_) => ChannelState::Faulted,
        },
        ChannelState::Ready => match r {
            Ok(m) => match m {
                AgentMessage::AgentClosed => ChannelState::Closed,
                _ => ChannelState::Ready,
            },
            Err(_) => ChannelState::Faulted,
        },
    }
}

/// The terminal states stay terminal, events do not change an established
/// session, and only the peer's close leaves `Ready` for `Closed`.
pub proof fn lemma_terminal_states(s: ChannelState, r: Result<MsgV, AgentError>)
    ensures
        s is Closed ==> spec_advance(s, r) == ChannelState::Closed,
        s is Faulted ==> spec_advance(s, r) == ChannelState::Faulted,
        s is Ready && (r matches Ok(m) && !(m is Closed)) ==> spec_advance(s, r)
            == ChannelState::Ready,
        s is Ready && r is Err ==> spec_advance(s, r) == ChannelState::Faulted,
{
}

// ---------------------------------------------------------------------------
// Protocol laws
// ---------------------------------------------------------------------------
/// The host's `initialize` succeeds exactly when the first frame read
/// decodes as `Ready`; any other decoded kind, or an undecodable frame, is
/// a protocol error that leaves the channel faulted; the peer's close
/// leaves it closed.
pub proof fn lemma_initialize(line: Seq<char>)
    ensures
        (spec_handshake_read(line) matches Ok(m) && m is Ready) <==> (
        crate::codec::spec_decode_frame(line) matches Ok(m) && m is Ready),
        (crate::codec::spec_decode_frame(line) matches Ok(m) && !(m is Ready) && !(m is Closed))
            ==> spec_handshake_read(line) == Err::<MsgV, AgentError>(AgentError::ProtocolError)
            && spec_advance(ChannelState::AwaitingHandshake, spec_handshake_read(line))
            == ChannelState::Faulted,
        crate::codec::spec_decode_frame(line) is Err ==> spec_advance(
            ChannelState::AwaitingHandshake,
            spec_handshake_read(line),
        ) == ChannelState::Faulted,
{
}

/// A zero-length read yields the `Closed` sentinel on every side and in
/// every call context — never a protocol error.
pub proof fn lemma_zero_length_read(line: Seq<char>)
    requires
        line.len() == 0,
    ensures
        spec_handshake_read(line) == Ok::<MsgV, AgentError>(MsgV::Closed),
        spec_ack_read(line) == Ok::<MsgV, AgentError>(MsgV::Closed),
        spec_host_event_read(line) == Ok::<MsgV, AgentError>(MsgV::Closed),
        spec_guest_event_read(line) == Ok::<MsgV, AgentError>(MsgV::Closed),
{
}

/// Command/acknowledge correlation: the one `Ack` frame the peer's
/// `acknowledge(status)` call puts on the wire is read back by the waiting
/// command call as exactly that status.
pub proof fn lemma_command_ack(status: int)
    requires
        -2147483648 <= status <= 2147483647,
    ensures
        spec_ack_read(crate::codec::spec_encode(MsgV::Ack { status }).push('\n')) == Ok::<
            MsgV,
            AgentError,
        >(MsgV::Ack { status }),
{
    let enc = crate::codec::spec_encode(MsgV::Ack { status });
    let line = enc.push('\n');
    assert(line[line.len() - 1] == '\n');
    assert(crate::codec::strip_newline(line) =~= enc);
    crate::codec::lemma_round_trip(MsgV::Ack { status });
}

/// Events arrive in the order they were sent: the frame sequence written by
/// one side's event pushes reads back, frame by frame and in the same
/// relative order, as exactly those events on the other side.
pub proof fn lemma_event_order(events: Seq<MsgV>)
    requires
        forall|i: int| 0 <= i < events.len() ==> crate::codec::msg_wf(#[trigger] events[i]),
        forall|i: int| 0 <= i < events.len() ==> (#[trigger] events[i] is AppExitCode
            || events[i] is ClipboardEvent || events[i] is DbusNotification),
    ensures
        forall|i: int| 0 <= i < events.len() ==> spec_host_event_read(
            #[trigger] crate::codec::spec_encode(events[i]).push('\n'),
        ) == Ok::<MsgV, AgentError>(events[i]),
{
    assert forall|i: int| 0 <= i < events.len() implies spec_host_event_read(
        #[trigger] crate::codec::spec_encode(events[i]).push('\n'),
    ) == Ok::<MsgV, AgentError>(events[i]) by {
        let enc = crate::codec::spec_encode(events[i]);
        let line = enc.push('\n');
        assert(line[line.len() - 1] == '\n');
        assert(crate::codec::strip_newline(line) =~= enc);
        crate::codec::lemma_round_trip(events[i]);
    }
}

} // verus!
