use flatkvm_qemu::agent::{
    advance, read_ack_frame, read_guest_event_frame, read_handshake_frame, read_host_event_frame,
    AgentAck, AgentAppExitCode, AgentError, AgentMessage, AgentMountRequest, AgentReady,
    AgentRunRequest, ChannelState,
};
use flatkvm_qemu::clipboard::ClipboardEvent;
use flatkvm_qemu::codec::encode_frame_line;
use flatkvm_qemu::dbus_notifications::DbusNotification;
use flatkvm_qemu::runner::{QemuSharedDir, QemuSharedDirType};

#[test]
fn handshake_scenario() {
    // The guest announces its version; the host's initialize accepts it and
    // replies with a zero-status acknowledgement that the guest reads back.
    let wire = encode_frame_line(&AgentMessage::AgentReady(AgentReady {
        version: "1.0".to_string(),
    }));
    let got = read_handshake_frame(&wire);
    match got {
        Ok(AgentMessage::AgentReady(ar)) => assert_eq!(ar.version, "1.0"),
        other => panic!("handshake should accept Ready: {other:?}"),
    }

    let ack_wire = encode_frame_line(&AgentMessage::AgentAck(AgentAck { status: 0 }));
    match read_ack_frame(&ack_wire) {
        Ok(AgentMessage::AgentAck(ack)) => assert_eq!(ack.status, 0),
        other => panic!("guest should read one Ack with status 0: {other:?}"),
    }
}

#[test]
fn handshake_rejects_any_other_first_frame() {
    for msg in [
        AgentMessage::AgentAck(AgentAck { status: 0 }),
        AgentMessage::AgentAppExitCode(AgentAppExitCode { code: 1 }),
        AgentMessage::ClipboardEvent(ClipboardEvent {
            data: "x".to_string(),
        }),
    ] {
        let wire = encode_frame_line(&msg);
        let got = read_handshake_frame(&wire);
        assert_eq!(got, Err(AgentError::ProtocolError));
        assert_eq!(
            advance(ChannelState::AwaitingHandshake, &got),
            ChannelState::Faulted
        );
    }
    let got = read_handshake_frame("not a frame\n");
    assert_eq!(got, Err(AgentError::ProtocolError));
    assert_eq!(
        advance(ChannelState::AwaitingHandshake, &got),
        ChannelState::Faulted
    );
}

#[test]
fn zero_length_read_is_closed_on_every_side() {
    assert_eq!(read_handshake_frame(""), Ok(AgentMessage::AgentClosed));
    assert_eq!(read_ack_frame(""), Ok(AgentMessage::AgentClosed));
    assert_eq!(read_host_event_frame(""), Ok(AgentMessage::AgentClosed));
    assert_eq!(read_guest_event_frame(""), Ok(AgentMessage::AgentClosed));
}

#[test]
fn mount_scenario() {
    // The host requests a mount; the guest's event loop receives exactly
    // that request, acknowledges with 0, and the host reads status 0.
    let request = AgentMessage::AgentMountRequest(AgentMountRequest {
        shared_dir: QemuSharedDir {
            dir_type: QemuSharedDirType::FlatpakAppDir,
            app_name: "editor".to_string(),
            source: "/home/u/Documents".to_string(),
            tag: "shareddir0".to_string(),
            readonly: false,
        },
    });
    let wire = encode_frame_line(&request);
    assert_eq!(read_guest_event_frame(&wire), Ok(request));

    let ack_wire = encode_frame_line(&AgentMessage::AgentAck(AgentAck { status: 0 }));
    match read_ack_frame(&ack_wire) {
        Ok(AgentMessage::AgentAck(ack)) => assert_eq!(ack.status, 0),
        other => panic!("mount request should complete with status 0: {other:?}"),
    }
}

#[test]
fn run_scenario() {
    // The host requests a run; the guest acknowledges with 0; later the
    // guest reports exit code 1, which the host's event loop returns.
    let request = AgentMessage::AgentRunRequest(AgentRunRequest {
        app: "editor".to_string(),
        user: true,
        dbus_session: true,
    });
    let wire = encode_frame_line(&request);
    assert_eq!(read_guest_event_frame(&wire), Ok(request));

    let ack_wire = encode_frame_line(&AgentMessage::AgentAck(AgentAck { status: 0 }));
    match read_ack_frame(&ack_wire) {
        Ok(AgentMessage::AgentAck(ack)) => assert_eq!(ack.status, 0),
        other => panic!("run request should complete with status 0: {other:?}"),
    }

    let exit = AgentMessage::AgentAppExitCode(AgentAppExitCode { code: 1 });
    let exit_wire = encode_frame_line(&exit);
    assert_eq!(read_host_event_frame(&exit_wire), Ok(exit));
}

#[test]
fn clipboard_scenario() {
    // The host pushes a clipboard payload unprompted; the guest's event
    // loop returns exactly that event, and nothing resembling an Ack.
    let event = AgentMessage::ClipboardEvent(ClipboardEvent {
        data: "hello".to_string(),
    });
    let wire = encode_frame_line(&event);
    let got = read_guest_event_frame(&wire).unwrap();
    assert_eq!(got, event);
    assert!(!matches!(got, AgentMessage::AgentAck(_)));
}

#[test]
fn events_arrive_in_order() {
    let events = vec![
        AgentMessage::AgentAppExitCode(AgentAppExitCode { code: 3 }),
        AgentMessage::ClipboardEvent(ClipboardEvent {
            data: "first".to_string(),
        }),
        AgentMessage::DbusNotification(DbusNotification {
            summary: "s".to_string(),
            body: "b".to_string(),
        }),
        AgentMessage::ClipboardEvent(ClipboardEvent {
            data: "second".to_string(),
        }),
    ];
    let wires: Vec<String> = events.iter().map(encode_frame_line).collect();
    let drained: Vec<AgentMessage> = wires
        .iter()
        .map(|w| read_host_event_frame(w).unwrap())
        .collect();
    assert_eq!(drained, events);
}

#[test]
fn host_event_loop_rejects_commands_and_acks() {
    for msg in [
        AgentMessage::AgentAck(AgentAck { status: 0 }),
        AgentMessage::AgentReady(AgentReady {
            version: "1.0".to_string(),
        }),
        AgentMessage::AgentRunRequest(AgentRunRequest {
            app: "x".to_string(),
            user: false,
            dbus_session: false,
        }),
    ] {
        let wire = encode_frame_line(&msg);
        assert_eq!(read_host_event_frame(&wire), Err(AgentError::ProtocolError));
    }
}

#[test]
fn state_machine_transitions() {
    let ready: Result<AgentMessage, AgentError> = Ok(AgentMessage::AgentReady(AgentReady {
        version: "1.0".to_string(),
    }));
    let event: Result<AgentMessage, AgentError> =
        Ok(AgentMessage::AgentAppExitCode(AgentAppExitCode { code: 0 }));
    let closed: Result<AgentMessage, AgentError> = Ok(AgentMessage::AgentClosed);
    let fault: Result<AgentMessage, AgentError> = Err(AgentError::ProtocolError);

    assert_eq!(
        advance(ChannelState::AwaitingHandshake, &ready),
        ChannelState::Ready
    );
    assert_eq!(
        advance(ChannelState::AwaitingHandshake, &event),
        ChannelState::Faulted
    );
    assert_eq!(
        advance(ChannelState::AwaitingHandshake, &closed),
        ChannelState::Closed
    );
    assert_eq!(advance(ChannelState::Ready, &event), ChannelState::Ready);
    assert_eq!(advance(ChannelState::Ready, &closed), ChannelState::Closed);
    assert_eq!(advance(ChannelState::Ready, &fault), ChannelState::Faulted);
    // Closed and Faulted are terminal.
    assert_eq!(advance(ChannelState::Closed, &ready), ChannelState::Closed);
    assert_eq!(advance(ChannelState::Faulted, &ready), ChannelState::Faulted);
}
