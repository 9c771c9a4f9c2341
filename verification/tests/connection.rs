use icecc_mon::connection::{frame_payload_len, FrameError, Handshake, HandshakeAction, HandshakeError};
use icecc_mon::messages::Message;
use icecc_mon::{MAX_MSG_SIZE, PROTOCOL_VERSION};

#[test]
fn handshake_with_current_scheduler() {
    let (state, first) = Handshake::start();
    assert_eq!(state, Handshake::AwaitingVersion);
    assert_eq!(first, PROTOCOL_VERSION.to_le_bytes().to_vec());
    let (state, action) = state.step(PROTOCOL_VERSION.to_le_bytes());
    assert_eq!(state, Handshake::AwaitingConfirmation { agreed: PROTOCOL_VERSION });
    assert_eq!(action, HandshakeAction::Send(PROTOCOL_VERSION.to_le_bytes().to_vec()));
    let (state, action) = state.step(PROTOCOL_VERSION.to_le_bytes());
    assert_eq!(state, Handshake::Established { protocol: PROTOCOL_VERSION });
    assert_eq!(action, HandshakeAction::Login(Message::MonLogin.encode_framed()));
}

#[test]
fn handshake_agrees_on_older_version() {
    let (state, _) = Handshake::start();
    let (state, action) = state.step(30u32.to_le_bytes());
    assert_eq!(state, Handshake::AwaitingConfirmation { agreed: 30 });
    assert_eq!(action, HandshakeAction::Send(vec![30, 0, 0, 0]));
}

#[test]
fn handshake_caps_newer_version() {
    let (state, _) = Handshake::start();
    let (state, _) = state.step(90u32.to_le_bytes());
    assert_eq!(state, Handshake::AwaitingConfirmation { agreed: PROTOCOL_VERSION });
}

#[test]
fn handshake_refuses_old_scheduler() {
    let (state, _) = Handshake::start();
    let (state, action) = state.step(20u32.to_le_bytes());
    assert_eq!(state, Handshake::Failed);
    assert_eq!(action, HandshakeAction::Abort(HandshakeError::TooOld { agreed: 20 }));
}

#[test]
fn handshake_refuses_wrong_confirmation() {
    let state = Handshake::AwaitingConfirmation { agreed: 40 };
    let (state, action) = state.step(41u32.to_le_bytes());
    assert_eq!(state, Handshake::Failed);
    assert_eq!(action, HandshakeAction::Abort(HandshakeError::VersionMismatch { ours: 40, remote: 41 }));
}

#[test]
fn frame_length_is_big_endian_and_capped() {
    assert_eq!(frame_payload_len([0, 0, 1, 2]), Ok(258));
    assert_eq!(frame_payload_len(MAX_MSG_SIZE.to_be_bytes()), Ok(MAX_MSG_SIZE));
    assert_eq!(
        frame_payload_len((MAX_MSG_SIZE + 1).to_be_bytes()),
        Err(FrameError::TooLarge { len: MAX_MSG_SIZE + 1 })
    );
}

#[test]
fn framed_message_is_received_back() {
    let msg = Message::MonStats { host_id: 1, statmsg: "Name:testhost\nMaxJobs:4\n".into() };
    let framed = msg.encode_framed();
    let len = frame_payload_len([framed[0], framed[1], framed[2], framed[3]]).unwrap() as usize;
    assert_eq!(Message::decode(&framed[4..4 + len]).unwrap(), msg);
}
