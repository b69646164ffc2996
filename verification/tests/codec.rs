use flatkvm_qemu::agent::{
    AgentAck, AgentAppExitCode, AgentError, AgentMessage, AgentMountRequest, AgentReady,
    AgentRunRequest,
};
use flatkvm_qemu::clipboard::ClipboardEvent;
use flatkvm_qemu::codec::{decode_frame, encode_frame_line, encode_message};
use flatkvm_qemu::dbus_notifications::DbusNotification;
use flatkvm_qemu::runner::{QemuSharedDir, QemuSharedDirType};

fn ready(version: &str) -> AgentMessage {
    AgentMessage::AgentReady(AgentReady {
        version: version.to_string(),
    })
}

fn mount_request() -> AgentMessage {
    AgentMessage::AgentMountRequest(AgentMountRequest {
        shared_dir: QemuSharedDir {
            dir_type: QemuSharedDirType::FlatpakAppDir,
            app_name: "editor".to_string(),
            source: "/home/u/Documents".to_string(),
            tag: "shareddir0".to_string(),
            readonly: false,
        },
    })
}

#[test]
fn exact_ready_frame() {
    let frame = encode_message(&ready("1.0"));
    assert_eq!(frame, "{\"AgentReady\":{\"version\":\"1.0\"}}");
}

#[test]
fn exact_ack_frame() {
    let frame = encode_message(&AgentMessage::AgentAck(AgentAck { status: 0 }));
    assert_eq!(frame, "{\"AgentAck\":{\"status\":0}}");
    let frame = encode_message(&AgentMessage::AgentAck(AgentAck { status: -17 }));
    assert_eq!(frame, "{\"AgentAck\":{\"status\":-17}}");
}

#[test]
fn exact_run_frame() {
    let frame = encode_message(&AgentMessage::AgentRunRequest(AgentRunRequest {
        app: "editor".to_string(),
        user: true,
        dbus_session: false,
    }));
    assert_eq!(
        frame,
        "{\"AgentRunRequest\":{\"app\":\"editor\",\"user\":true,\"dbus_session\":false}}"
    );
}

#[test]
fn exact_mount_frame() {
    let frame = encode_message(&mount_request());
    assert_eq!(
        frame,
        "{\"AgentMountRequest\":{\"shared_dir\":{\"dir_type\":\"FlatpakAppDir\",\"app_name\":\"editor\",\"source\":\"/home/u/Documents\",\"tag\":\"shareddir0\",\"readonly\":false}}}"
    );
}

#[test]
fn frame_line_ends_with_newline() {
    let line = encode_frame_line(&ready("1.0"));
    assert_eq!(line, "{\"AgentReady\":{\"version\":\"1.0\"}}\n");
}

#[test]
fn round_trip_ready() {
    let m = ready("1.0");
    assert_eq!(decode_frame(&encode_message(&m)), Ok(m));
}

#[test]
fn round_trip_ack() {
    for status in [0, 1, -1, 42, i32::MAX, i32::MIN] {
        let m = AgentMessage::AgentAck(AgentAck { status });
        assert_eq!(decode_frame(&encode_message(&m)), Ok(m));
    }
}

#[test]
fn round_trip_mount() {
    let m = mount_request();
    assert_eq!(decode_frame(&encode_message(&m)), Ok(m));
    let m2 = AgentMessage::AgentMountRequest(AgentMountRequest {
        shared_dir: QemuSharedDir {
            dir_type: QemuSharedDirType::FlatpakSystemDir,
            app_name: "a".to_string(),
            source: "/s".to_string(),
            tag: "shareddir1".to_string(),
            readonly: true,
        },
    });
    assert_eq!(decode_frame(&encode_message(&m2)), Ok(m2));
    let m3 = AgentMessage::AgentMountRequest(AgentMountRequest {
        shared_dir: QemuSharedDir {
            dir_type: QemuSharedDirType::FlatpakUserDir,
            app_name: String::new(),
            source: String::new(),
            tag: String::new(),
            readonly: true,
        },
    });
    assert_eq!(decode_frame(&encode_message(&m3)), Ok(m3));
}

#[test]
fn round_trip_run() {
    for (user, dbus_session) in [(false, false), (false, true), (true, false), (true, true)] {
        let m = AgentMessage::AgentRunRequest(AgentRunRequest {
            app: "org.gnome.Editor".to_string(),
            user,
            dbus_session,
        });
        assert_eq!(decode_frame(&encode_message(&m)), Ok(m));
    }
}

#[test]
fn round_trip_exit_code() {
    for code in [0, 1, -1, 255, i32::MAX, i32::MIN] {
        let m = AgentMessage::AgentAppExitCode(AgentAppExitCode { code });
        assert_eq!(decode_frame(&encode_message(&m)), Ok(m));
    }
}

#[test]
fn round_trip_clipboard() {
    let m = AgentMessage::ClipboardEvent(ClipboardEvent {
        data: "hello".to_string(),
    });
    assert_eq!(decode_frame(&encode_message(&m)), Ok(m));
}

#[test]
fn round_trip_notification() {
    let m = AgentMessage::DbusNotification(DbusNotification {
        summary: "mail".to_string(),
        body: "you have mail".to_string(),
    });
    assert_eq!(decode_frame(&encode_message(&m)), Ok(m));
}

#[test]
fn escaping_round_trips_awkward_payloads() {
    for data in ["a\"b", "a\\b", "a\nb", "\\n", "\"\"", "", "line1\nline2\n"] {
        let m = AgentMessage::ClipboardEvent(ClipboardEvent {
            data: data.to_string(),
        });
        let frame = encode_message(&m);
        assert!(!frame.contains('\n'), "frame must stay on one line: {frame}");
        assert_eq!(decode_frame(&frame), Ok(m));
    }
}

#[test]
fn decode_accepts_newline_terminated_frames() {
    let m = ready("2.4");
    assert_eq!(decode_frame(&encode_frame_line(&m)), Ok(m));
}

#[test]
fn zero_length_read_is_closed() {
    assert_eq!(decode_frame(""), Ok(AgentMessage::AgentClosed));
}

#[test]
fn blank_line_is_protocol_error() {
    assert_eq!(decode_frame("\n"), Err(AgentError::ProtocolError));
}

#[test]
fn garbage_is_protocol_error() {
    for line in [
        "nonsense",
        "{\"Unknown\":{}}",
        "{\"AgentReady\":{\"version\":\"1.0\"}",
        "{\"AgentReady\":{\"version\":\"1.0\"}}}",
        "{\"AgentAck\":{\"status\":}}",
        "{\"AgentAck\":{\"status\":99999999999}}",
        "\"AgentClosed\"",
    ] {
        assert_eq!(decode_frame(line), Err(AgentError::ProtocolError), "{line}");
    }
}
