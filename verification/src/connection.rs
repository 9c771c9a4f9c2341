//! The monitor's side of the scheduler connection: the version handshake
//! and the framing of received messages. Sockets stay with the caller,
//! which performs each action and hands back what the scheduler sent.
use crate::codec::{be_value, lemma_u32_roundtrip, spec_encode_u32};
use crate::messages::{
    lemma_decode_encode, spec_decode, spec_encode, spec_encode_framed, strings_fit, Message,
    MessageError, MessageModel,
};
use crate::{MAX_MSG_SIZE, MIN_PROTOCOL_VERSION, PROTOCOL_VERSION};
use vstd::prelude::*;
use vstd::utf8::encode_utf8;

verus! {

/// The four little-endian bytes of `v` (the handshake's byte order).
pub open spec fn le_bytes(v: u32) -> Seq<u8> {
    seq![(v & 0xffu32) as u8, ((v >> 8u32) & 0xffu32) as u8, ((v >> 16u32) & 0xffu32) as u8, (v >> 24u32) as u8]
}

/// The `u32` whose little-endian bytes are `b`.
pub open spec fn le_value(b: Seq<u8>) -> u32 {
    (b[0] as u32) | ((b[1] as u32) << 8u32) | ((b[2] as u32) << 16u32) | ((b[3] as u32) << 24u32)
}

/// Reading back little-endian bytes gives the value.
pub proof fn lemma_le_roundtrip(v: u32)
    ensures
        le_value(le_bytes(v)) == v,
{
    let b0 = (v & 0xffu32) as u8;
    let b1 = ((v >> 8u32) & 0xffu32) as u8;
    let b2 = ((v >> 16u32) & 0xffu32) as u8;
    let b3 = (v >> 24u32) as u8;
    assert((b0 as u32) | ((b1 as u32) << 8u32) | ((b2 as u32) << 16u32) | ((b3 as u32) << 24u32)
        == v) by (bit_vector)
        requires
            b0 == (v & 0xffu32) as u8,
            b1 == ((v >> 8u32) & 0xffu32) as u8,
            b2 == ((v >> 16u32) & 0xffu32) as u8,
            b3 == (v >> 24u32) as u8,
    ;
}

fn le_bytes_exec(v: u32) -> (b: Vec<u8>)
    ensures
        b@ == le_bytes(v),
{
    let b = vec![(v & 0xffu32) as u8, ((v >> 8u32) & 0xffu32) as u8, ((v >> 16u32) & 0xffu32) as u8, (v >> 24u32) as u8];
    assert(b@ =~= le_bytes(v));
    b
}

/// Why the handshake was given up.
#[derive(Debug, Clone, Copy, PartialEq, Eq, Structural)]
pub enum HandshakeError {
    /// The version both sides support is below the minimum.
    TooOld { agreed: u32 },
    /// The scheduler confirmed another version than the agreed one.
    VersionMismatch { ours: u32, remote: u32 },
}

/// Where the handshake stands.
#[derive(Debug, Clone, Copy, PartialEq, Eq, Structural)]
pub enum Handshake {
    /// Our version was sent; waiting for the scheduler's.
    AwaitingVersion,
    /// The agreed version was sent; waiting for the scheduler to confirm it.
    AwaitingConfirmation { agreed: u32 },
    /// Both sides use `protocol`; the login message was sent.
    Established { protocol: u32 },
    /// The handshake was given up.
    Failed,
}

/// What the caller does next.
#[derive(Debug, Clone, PartialEq, Eq)]
pub enum HandshakeAction {
    /// Write these bytes, then read the scheduler's next four bytes.
    Send(Vec<u8>),
    /// Write these bytes (the framed login); the connection is up.
    Login(Vec<u8>),
    /// Close the connection.
    Abort(HandshakeError),
}

/// The mathematical value of a [`HandshakeAction`].
pub enum ActionModel {
    Send(Seq<u8>),
    Login(Seq<u8>),
    Abort(HandshakeError),
}

impl View for HandshakeAction {
    type V = ActionModel;

    open spec fn view(&self) -> ActionModel {
        match self {
            HandshakeAction::Send(b) => ActionModel::Send(b@),
            HandshakeAction::Login(b) => ActionModel::Login(b@),
            HandshakeAction::Abort(e) => ActionModel::Abort(*e),
        }
    }
}

/// The smaller of two versions.
pub open spec fn min_version(a: u32, b: u32) -> u32 {
    if a < b {
        a
    } else {
        b
    }
}

impl Handshake {
    /// The state and action after the scheduler sent the version `remote`.
    pub open spec fn spec_step(self, remote: u32) -> (Handshake, ActionModel) {
        match self {
            Handshake::AwaitingVersion => {
                let agreed = min_version(remote, PROTOCOL_VERSION);
                if agreed < MIN_PROTOCOL_VERSION {
                    (Handshake::Failed, ActionModel::Abort(HandshakeError::TooOld { agreed }))
                } else {
                    (Handshake::AwaitingConfirmation { agreed }, ActionModel::Send(le_bytes(agreed)))
                }
            },
            Handshake::AwaitingConfirmation { agreed } => {
                if remote != agreed {
                    (
                        Handshake::Failed,
                        ActionModel::Abort(HandshakeError::VersionMismatch { ours: agreed, remote }),
                    )
                } else {
                    (
                        Handshake::Established { protocol: agreed },
                        ActionModel::Login(spec_encode_framed(MessageModel::MonLogin)),
                    )
                }
            },
            _ => (self, ActionModel::Abort(HandshakeError::TooOld { agreed: 0 })),
        }
    }

    /// Whether the handshake still waits for the scheduler.
    pub open spec fn is_waiting(self) -> bool {
        self is AwaitingVersion || self is AwaitingConfirmation
    }

    /// The opening state and the bytes to send first: our version.
    pub fn start() -> (r: (Handshake, Vec<u8>))
        ensures
            r.0 == Handshake::AwaitingVersion,
            r.1@ == le_bytes(PROTOCOL_VERSION),
    {
        (Handshake::AwaitingVersion, le_bytes_exec(PROTOCOL_VERSION))
    }

    /// Takes the scheduler's next four bytes (a little-endian version).
    pub fn step(self, reply: [u8; 4]) -> (r: (Handshake, HandshakeAction))
        requires
            self.is_waiting(),
        ensures
            (r.0, r.1@) == self.spec_step(le_value(reply@)),
    {
        let remote = (reply[0] as u32) | ((reply[1] as u32) << 8u32) | ((reply[2] as u32) << 16u32)
            | ((reply[3] as u32) << 24u32);
        match self {
            Handshake::AwaitingVersion => {
                let agreed = if remote < PROTOCOL_VERSION {
                    remote
                } else {
                    PROTOCOL_VERSION
                };
                if agreed < MIN_PROTOCOL_VERSION {
                    (Handshake::Failed, HandshakeAction::Abort(HandshakeError::TooOld { agreed }))
                } else {
                    (
                        Handshake::AwaitingConfirmation { agreed },
                        HandshakeAction::Send(le_bytes_exec(agreed)),
                    )
                }
            },
            Handshake::AwaitingConfirmation { agreed } => {
                if remote != agreed {
                    (
                        Handshake::Failed,
                        HandshakeAction::Abort(
                            HandshakeError::VersionMismatch { ours: agreed, remote },
                        ),
                    )
                } else {
                    (
                        Handshake::Established { protocol: agreed },
                        HandshakeAction::Login(Message::MonLogin.encode_framed()),
                    )
                }
            },
            _ => (self, HandshakeAction::Abort(HandshakeError::TooOld { agreed: 0 })),
        }
    }
}

/// Against a scheduler that answers with version `remote` and then
/// confirms with `confirmed`, the handshake sends our version, then the
/// agreed version (the smaller of the two), and establishes that version
/// exactly when it is at least the minimum and the scheduler confirms it.
pub proof fn lemma_handshake_outcome(remote: u32, confirmed: u32)
    ensures
        ({
            let agreed = min_version(remote, PROTOCOL_VERSION);
            let (s1, a1) = Handshake::AwaitingVersion.spec_step(remote);
            &&& agreed < MIN_PROTOCOL_VERSION ==> s1 == Handshake::Failed && a1 == ActionModel::Abort(
                HandshakeError::TooOld { agreed },
            )
            &&& agreed >= MIN_PROTOCOL_VERSION ==> {
                &&& a1 == ActionModel::Send(le_bytes(agreed))
                &&& s1.spec_step(confirmed).0 == if confirmed == agreed {
                    Handshake::Established { protocol: agreed }
                } else {
                    Handshake::Failed
                }
            }
        }),
{
}

/// Why a received frame is refused.
#[derive(Debug, Clone, Copy, PartialEq, Eq, Structural)]
pub enum FrameError {
    /// The announced payload is larger than [`MAX_MSG_SIZE`].
    TooLarge { len: u32 },
}

/// The payload length a frame header announces, if it is acceptable.
pub open spec fn spec_frame_len(header: Seq<u8>) -> Result<u32, FrameError> {
    let len = be_value(header[0], header[1], header[2], header[3]);
    if len > MAX_MSG_SIZE {
        Err(FrameError::TooLarge { len })
    } else {
        Ok(len)
    }
}

/// Reads a frame's big-endian length prefix; payloads above
/// [`MAX_MSG_SIZE`] are refused.
pub fn frame_payload_len(header: [u8; 4]) -> (r: Result<u32, FrameError>)
    ensures
        r == spec_frame_len(header@),
{
    let len = ((header[0] as u32) << 24u32) | ((header[1] as u32) << 16u32) | ((header[2] as u32)
        << 8u32) | (header[3] as u32);
    if len > MAX_MSG_SIZE {
        Err(FrameError::TooLarge { len })
    } else {
        Ok(len)
    }
}

/// A framed message of at most [`MAX_MSG_SIZE`] payload bytes is accepted
/// by the receiver: its header announces the payload length, and the
/// payload decodes to the message.
pub proof fn lemma_frame_roundtrip(m: MessageModel)
    requires
        spec_encode(m).len() <= MAX_MSG_SIZE,
    ensures
        ({
            let framed = spec_encode_framed(m);
            let len = spec_encode(m).len();
            &&& framed.len() == 4 + len
            &&& spec_frame_len(framed.subrange(0, 4)) == Ok::<u32, FrameError>(len as u32)
            &&& spec_decode(framed.subrange(4, 4 + len as int)) == Ok::<MessageModel, MessageError>(m)
        }),
{
    let framed = spec_encode_framed(m);
    let payload = spec_encode(m);
    let len = payload.len();
    assert(len % 0x1_0000_0000 == len);
    assert(framed.subrange(0, 4) =~= spec_encode_u32(len as u32));
    lemma_u32_roundtrip(len as u32, framed, 0);
    assert(framed.subrange(4, 4 + len as int) =~= payload);
    assert(strings_fit(m)) by {
        match m {
            MessageModel::MonGetCs { filename, .. } => {
                assert(payload.len() >= encode_utf8(filename).len() + 5);
            },
            MessageModel::MonLocalJobBegin { file, .. } => {
                assert(payload.len() >= encode_utf8(file).len() + 5);
            },
            MessageModel::MonStats { statmsg, .. } => {
                assert(payload.len() >= encode_utf8(statmsg).len() + 5);
            },
            _ => {},
        }
    }
    lemma_decode_encode(m, Seq::empty());
    assert(payload + Seq::<u8>::empty() =~= payload);
}


/// The version the monitor proposes in its second message is the lower of
/// the scheduler's and its own, and it proposes only versions both sides
/// know and that are at least the minimum; the scheduler's confirmation
/// must repeat it exactly.
pub proof fn lemma_agreed_version(remote: u32, confirmed: u32)
    ensures
        Handshake::AwaitingVersion.spec_step(remote).1 matches ActionModel::Send(bytes) ==> {
            let v = le_value(bytes);
            &&& v <= remote && v <= PROTOCOL_VERSION
            &&& (v == remote || v == PROTOCOL_VERSION)
            &&& v >= MIN_PROTOCOL_VERSION
            &&& Handshake::AwaitingVersion.spec_step(remote).0.spec_step(confirmed).0 is Established
                <==> confirmed == v
        },
        (remote >= MIN_PROTOCOL_VERSION) <==> Handshake::AwaitingVersion.spec_step(remote).1 is Send,
{
    let agreed = min_version(remote, PROTOCOL_VERSION);
    lemma_le_roundtrip(agreed);
}

} // verus!
