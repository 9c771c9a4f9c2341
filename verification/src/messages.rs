//! icecc monitor protocol message types and serialization.
use crate::codec::{
    be_value, decode_string, decode_u32, encode_string, encode_u32, lemma_string_roundtrip,
    lemma_u32_roundtrip, spec_decode_string, spec_decode_u32,
    spec_encode_string, spec_encode_u32, CodecError, Cursor,
};
use vstd::prelude::*;
use vstd::utf8::*;

verus! {

/// Message type IDs (ASCII-based, starting at 'A').
#[derive(Debug, Clone, Copy, PartialEq, Eq, Structural)]
pub enum MessageType {
    Unknown,
    Ping,
    End,
    GetCs,
    JobBegin,
    JobDone,
    JobLocalDone,
    MonLogin,
    MonGetCs,
    MonJobBegin,
    MonJobDone,
    MonLocalJobBegin,
    MonStats,
}

impl MessageType {
    /// The wire ID of a message type.
    pub open spec fn spec_code(self) -> u32 {
        match self {
            MessageType::Unknown => 0x41,
            MessageType::Ping => 0x42,
            MessageType::End => 0x43,
            MessageType::GetCs => 0x47,
            MessageType::JobBegin => 0x4C,
            MessageType::JobDone => 0x4D,
            MessageType::JobLocalDone => 0x4F,
            MessageType::MonLogin => 0x52,
            MessageType::MonGetCs => 0x53,
            MessageType::MonJobBegin => 0x54,
            MessageType::MonJobDone => 0x55,
            MessageType::MonLocalJobBegin => 0x56,
            MessageType::MonStats => 0x57,
        }
    }

    /// The message type with wire ID `v`, if there is one.
    pub open spec fn spec_from_u32(v: u32) -> Option<MessageType> {
        if v == 0x41 {
            Some(MessageType::Unknown)
        } else if v == 0x42 {
            Some(MessageType::Ping)
        } else if v == 0x43 {
            Some(MessageType::End)
        } else if v == 0x47 {
            Some(MessageType::GetCs)
        } else if v == 0x4C {
            Some(MessageType::JobBegin)
        } else if v == 0x4D {
            Some(MessageType::JobDone)
        } else if v == 0x4F {
            Some(MessageType::JobLocalDone)
        } else if v == 0x52 {
            Some(MessageType::MonLogin)
        } else if v == 0x53 {
            Some(MessageType::MonGetCs)
        } else if v == 0x54 {
            Some(MessageType::MonJobBegin)
        } else if v == 0x55 {
            Some(MessageType::MonJobDone)
        } else if v == 0x56 {
            Some(MessageType::MonLocalJobBegin)
        } else if v == 0x57 {
            Some(MessageType::MonStats)
        } else {
            None
        }
    }

    /// The wire ID of this message type.
    pub fn code(&self) -> (c: u32)
        ensures
            c == self.spec_code(),
    {
        match self {
            MessageType::Unknown => 0x41,
            MessageType::Ping => 0x42,
            MessageType::End => 0x43,
            MessageType::GetCs => 0x47,
            MessageType::JobBegin => 0x4C,
            MessageType::JobDone => 0x4D,
            MessageType::JobLocalDone => 0x4F,
            MessageType::MonLogin => 0x52,
            MessageType::MonGetCs => 0x53,
            MessageType::MonJobBegin => 0x54,
            MessageType::MonJobDone => 0x55,
            MessageType::MonLocalJobBegin => 0x56,
            MessageType::MonStats => 0x57,
        }
    }

    /// The message type with wire ID `v`; `None` for an ID no type has.
    pub fn from_u32(v: u32) -> (r: Option<Self>)
        ensures
            r == Self::spec_from_u32(v),
            r matches Some(t) ==> t.spec_code() == v,
            r is None ==> forall|t: MessageType| t.spec_code() != v,
    {
        match v {
            0x41 => Some(Self::Unknown),
            0x42 => Some(Self::Ping),
            0x43 => Some(Self::End),
            0x47 => Some(Self::GetCs),
            0x4C => Some(Self::JobBegin),
            0x4D => Some(Self::JobDone),
            0x4F => Some(Self::JobLocalDone),
            0x52 => Some(Self::MonLogin),
            0x53 => Some(Self::MonGetCs),
            0x54 => Some(Self::MonJobBegin),
            0x55 => Some(Self::MonJobDone),
            0x56 => Some(Self::MonLocalJobBegin),
            0x57 => Some(Self::MonStats),
            _ => None,
        }
    }
}

/// Every message type is found again from its wire ID.
pub proof fn lemma_message_type_code_roundtrip(t: MessageType)
    ensures
        MessageType::spec_from_u32(t.spec_code()) == Some(t),
{
}

/// Compile job language.
#[derive(Debug, Clone, Copy, PartialEq, Eq, Structural)]
pub enum Language {
    C,
    Cxx,
    ObjC,
    ObjCxx,
    Custom,
}

impl Language {
    /// The wire value of a language.
    pub open spec fn spec_code(self) -> u32 {
        match self {
            Language::C => 0,
            Language::Cxx => 1,
            Language::ObjC => 2,
            Language::ObjCxx => 3,
            Language::Custom => 4,
        }
    }

    /// The language read from wire value `v`: values past the known ones
    /// are `Custom`.
    pub open spec fn spec_from_u32(v: u32) -> Language {
        if v == 0 {
            Language::C
        } else if v == 1 {
            Language::Cxx
        } else if v == 2 {
            Language::ObjC
        } else if v == 3 {
            Language::ObjCxx
        } else {
            Language::Custom
        }
    }

    /// The wire value of this language.
    pub fn code(&self) -> (c: u32)
        ensures
            c == self.spec_code(),
    {
        match self {
            Language::C => 0,
            Language::Cxx => 1,
            Language::ObjC => 2,
            Language::ObjCxx => 3,
            Language::Custom => 4,
        }
    }

    /// The language read from wire value `v`.
    pub fn from_u32(v: u32) -> (r: Self)
        ensures
            r == Self::spec_from_u32(v),
            v <= 3 ==> r.spec_code() == v,
            v > 3 ==> r == Language::Custom,
    {
        match v {
            0 => Self::C,
            1 => Self::Cxx,
            2 => Self::ObjC,
            3 => Self::ObjCxx,
            _ => Self::Custom,
        }
    }
}

/// Every language is found again from its wire value.
pub proof fn lemma_language_code_roundtrip(l: Language)
    ensures
        Language::spec_from_u32(l.spec_code()) == l,
{
}

/// All monitor-relevant messages.
#[derive(Debug, Clone, PartialEq, Eq)]
pub enum Message {
    /// Empty login message sent by monitor to scheduler.
    MonLogin,
    /// A client requested a compile server.
    MonGetCs { filename: String, lang: Language, job_id: u32, client_id: u32 },
    /// Remote compile started.
    MonJobBegin { job_id: u32, start_time: u32, host_id: u32 },
    /// Remote compile finished.
    MonJobDone {
        job_id: u32,
        exitcode: u32,
        real_msec: u32,
        user_msec: u32,
        sys_msec: u32,
        pfaults: u32,
        in_compressed: u32,
        in_uncompressed: u32,
        out_compressed: u32,
        out_uncompressed: u32,
        flags: u32,
    },
    /// Local compile started.
    MonLocalJobBegin { host_id: u32, job_id: u32, start_time: u32, file: String },
    /// Local compile finished.
    JobLocalDone { job_id: u32 },
    /// Host stats update.
    MonStats { host_id: u32, statmsg: String },
    /// Ping (keepalive).
    Ping,
    /// Connection end.
    End,
}

/// The mathematical value of a [`Message`]: strings as character sequences.
pub enum MessageModel {
    MonLogin,
    MonGetCs { filename: Seq<char>, lang: Language, job_id: u32, client_id: u32 },
    MonJobBegin { job_id: u32, start_time: u32, host_id: u32 },
    MonJobDone {
        job_id: u32,
        exitcode: u32,
        real_msec: u32,
        user_msec: u32,
        sys_msec: u32,
        pfaults: u32,
        in_compressed: u32,
        in_uncompressed: u32,
        out_compressed: u32,
        out_uncompressed: u32,
        flags: u32,
    },
    MonLocalJobBegin { host_id: u32, job_id: u32, start_time: u32, file: Seq<char> },
    JobLocalDone { job_id: u32 },
    MonStats { host_id: u32, statmsg: Seq<char> },
    Ping,
    End,
}

impl View for Message {
    type V = MessageModel;

    open spec fn view(&self) -> MessageModel {
        match self {
            Message::MonLogin => MessageModel::MonLogin,
            Message::MonGetCs { filename, lang, job_id, client_id } => MessageModel::MonGetCs {
                filename: filename@,
                lang: *lang,
                job_id: *job_id,
                client_id: *client_id,
            },
            Message::MonJobBegin { job_id, start_time, host_id } => MessageModel::MonJobBegin {
                job_id: *job_id,
                start_time: *start_time,
                host_id: *host_id,
            },
            Message::MonJobDone {
                job_id,
                exitcode,
                real_msec,
                user_msec,
                sys_msec,
                pfaults,
                in_compressed,
                in_uncompressed,
                out_compressed,
                out_uncompressed,
                flags,
            } => MessageModel::MonJobDone {
                job_id: *job_id,
                exitcode: *exitcode,
                real_msec: *real_msec,
                user_msec: *user_msec,
                sys_msec: *sys_msec,
                pfaults: *pfaults,
                in_compressed: *in_compressed,
                in_uncompressed: *in_uncompressed,
                out_compressed: *out_compressed,
                out_uncompressed: *out_uncompressed,
                flags: *flags,
            },
            Message::MonLocalJobBegin { host_id, job_id, start_time, file } =>
                MessageModel::MonLocalJobBegin {
                host_id: *host_id,
                job_id: *job_id,
                start_time: *start_time,
                file: file@,
            },
            Message::JobLocalDone { job_id } => MessageModel::JobLocalDone { job_id: *job_id },
            Message::MonStats { host_id, statmsg } => MessageModel::MonStats {
                host_id: *host_id,
                statmsg: statmsg@,
            },
            Message::Ping => MessageModel::Ping,
            Message::End => MessageModel::End,
        }
    }
}

/// Why a message could not be decoded.
#[derive(Debug, Clone, Copy, PartialEq, Eq, Structural)]
pub enum MessageError {
    /// A field could not be read.
    Codec(CodecError),
    /// The type ID names no message, or one the monitor does not decode.
    UnsupportedType { type_id: u32 },
}

/// The wire form of a message (payload only, without length prefix).
pub open spec fn spec_encode(m: MessageModel) -> Seq<u8> {
    match m {
        MessageModel::MonLogin => spec_encode_u32(0x52),
        MessageModel::MonGetCs { filename, lang, job_id, client_id } => spec_encode_u32(0x53)
            + spec_encode_string(filename) + spec_encode_u32(lang.spec_code()) + spec_encode_u32(
            job_id,
        ) + spec_encode_u32(client_id),
        MessageModel::MonJobBegin { job_id, start_time, host_id } => spec_encode_u32(0x54)
            + spec_encode_u32(job_id) + spec_encode_u32(start_time) + spec_encode_u32(host_id),
        MessageModel::MonJobDone {
            job_id,
            exitcode,
            real_msec,
            user_msec,
            sys_msec,
            pfaults,
            in_compressed,
            in_uncompressed,
            out_compressed,
            out_uncompressed,
            flags,
        } => spec_encode_u32(0x55) + spec_encode_u32(job_id) + spec_encode_u32(exitcode)
            + spec_encode_u32(real_msec) + spec_encode_u32(user_msec) + spec_encode_u32(sys_msec)
            + spec_encode_u32(pfaults) + spec_encode_u32(in_compressed) + spec_encode_u32(
            in_uncompressed,
        ) + spec_encode_u32(out_compressed) + spec_encode_u32(out_uncompressed)
            + spec_encode_u32(flags),
        MessageModel::MonLocalJobBegin { host_id, job_id, start_time, file } => spec_encode_u32(
            0x56,
        ) + spec_encode_u32(host_id) + spec_encode_u32(job_id) + spec_encode_u32(start_time)
            + spec_encode_string(file),
        MessageModel::JobLocalDone { job_id } => spec_encode_u32(0x4F) + spec_encode_u32(job_id),
        MessageModel::MonStats { host_id, statmsg } => spec_encode_u32(0x57) + spec_encode_u32(
            host_id,
        ) + spec_encode_string(statmsg),
        MessageModel::Ping => spec_encode_u32(0x42),
        MessageModel::End => spec_encode_u32(0x43),
    }
}

/// The `i`-th of consecutive big-endian `u32` fields starting at `pos`.
pub open spec fn field(data: Seq<u8>, pos: int, i: int) -> u32 {
    be_value(data[pos + 4 * i], data[pos + 4 * i + 1], data[pos + 4 * i + 2], data[pos + 4 * i + 3])
}

/// Whether `n` consecutive `u32` fields fit in `data` from `pos` on.
pub open spec fn fields_fit(data: Seq<u8>, pos: int, n: int) -> bool {
    pos + 4 * n <= data.len()
}

/// The error for a field that runs past the end.
pub open spec fn eof_u32() -> MessageError {
    MessageError::Codec(CodecError::UnexpectedEofU32)
}

/// The body of a `MonGetCs` message: filename, language, job, client.
#[verifier::opaque]
pub open spec fn decode_get_cs(data: Seq<u8>) -> Result<MessageModel, MessageError> {
    match spec_decode_string(data, 4) {
        (Err(e), _) => Err(MessageError::Codec(e)),
        (Ok(filename), p) => if fields_fit(data, p, 3) {
            Ok(
                MessageModel::MonGetCs {
                    filename,
                    lang: Language::spec_from_u32(field(data, p, 0)),
                    job_id: field(data, p, 1),
                    client_id: field(data, p, 2),
                },
            )
        } else {
            Err(eof_u32())
        },
    }
}

/// The body of a `MonJobBegin` message.
#[verifier::opaque]
pub open spec fn decode_job_begin(data: Seq<u8>) -> Result<MessageModel, MessageError> {
    if fields_fit(data, 4, 3) {
        Ok(
            MessageModel::MonJobBegin {
                job_id: field(data, 4, 0),
                start_time: field(data, 4, 1),
                host_id: field(data, 4, 2),
            },
        )
    } else {
        Err(eof_u32())
    }
}

/// The body of a `MonJobDone` message: eleven `u32` fields.
#[verifier::opaque]
pub open spec fn decode_job_done(data: Seq<u8>) -> Result<MessageModel, MessageError> {
    if fields_fit(data, 4, 11) {
        Ok(
            MessageModel::MonJobDone {
                job_id: field(data, 4, 0),
                exitcode: field(data, 4, 1),
                real_msec: field(data, 4, 2),
                user_msec: field(data, 4, 3),
                sys_msec: field(data, 4, 4),
                pfaults: field(data, 4, 5),
                in_compressed: field(data, 4, 6),
                in_uncompressed: field(data, 4, 7),
                out_compressed: field(data, 4, 8),
                out_uncompressed: field(data, 4, 9),
                flags: field(data, 4, 10),
            },
        )
    } else {
        Err(eof_u32())
    }
}

/// The body of a `MonLocalJobBegin` message: host, job, start time, file.
#[verifier::opaque]
pub open spec fn decode_local_job_begin(data: Seq<u8>) -> Result<MessageModel, MessageError> {
    if fields_fit(data, 4, 3) {
        match spec_decode_string(data, 16) {
            (Err(e), _) => Err(MessageError::Codec(e)),
            (Ok(file), _) => Ok(
                MessageModel::MonLocalJobBegin {
                    host_id: field(data, 4, 0),
                    job_id: field(data, 4, 1),
                    start_time: field(data, 4, 2),
                    file,
                },
            ),
        }
    } else {
        Err(eof_u32())
    }
}

/// The body of a `MonStats` message: host, then the statistics text.
#[verifier::opaque]
pub open spec fn decode_stats(data: Seq<u8>) -> Result<MessageModel, MessageError> {
    if fields_fit(data, 4, 1) {
        match spec_decode_string(data, 8) {
            (Err(e), _) => Err(MessageError::Codec(e)),
            (Ok(statmsg), _) => Ok(MessageModel::MonStats { host_id: field(data, 4, 0), statmsg }),
        }
    } else {
        Err(eof_u32())
    }
}

/// The body of a `JobLocalDone` message.
#[verifier::opaque]
pub open spec fn decode_job_local_done(data: Seq<u8>) -> Result<MessageModel, MessageError> {
    if fields_fit(data, 4, 1) {
        Ok(MessageModel::JobLocalDone { job_id: field(data, 4, 0) })
    } else {
        Err(eof_u32())
    }
}

/// The message decoded from a payload. Bytes after the message are ignored.
pub open spec fn spec_decode(data: Seq<u8>) -> Result<MessageModel, MessageError> {
    if !fields_fit(data, 0, 1) {
        Err(eof_u32())
    } else {
        let type_id = field(data, 0, 0);
        match MessageType::spec_from_u32(type_id) {
            Some(MessageType::MonLogin) => Ok(MessageModel::MonLogin),
            Some(MessageType::MonGetCs) => decode_get_cs(data),
            Some(MessageType::MonJobBegin) => decode_job_begin(data),
            Some(MessageType::MonJobDone) => decode_job_done(data),
            Some(MessageType::MonLocalJobBegin) => decode_local_job_begin(data),
            Some(MessageType::MonStats) => decode_stats(data),
            Some(MessageType::JobLocalDone) => decode_job_local_done(data),
            Some(MessageType::Ping) => Ok(MessageModel::Ping),
            Some(MessageType::End) => Ok(MessageModel::End),
            _ => Err(MessageError::UnsupportedType { type_id }),
        }
    }
}

/// The big-endian length prefix followed by the payload; the prefix is the
/// payload length truncated to 32 bits.
pub open spec fn spec_encode_framed(m: MessageModel) -> Seq<u8> {
    spec_encode_u32((spec_encode(m).len() % 0x1_0000_0000) as u32) + spec_encode(m)
}

fn read_u32(cursor: &mut Cursor) -> (r: Result<u32, MessageError>)
    ensures
        final(cursor).data() == old(cursor).data(),
        match spec_decode_u32(old(cursor).data(), old(cursor).pos()) {
            Some((v, p)) => r == Ok::<u32, MessageError>(v) && final(cursor).pos() == p,
            None => r == Err::<u32, MessageError>(eof_u32()),
        },
{
    match decode_u32(cursor) {
        Ok(v) => Ok(v),
        Err(e) => Err(MessageError::Codec(e)),
    }
}

fn read_string(cursor: &mut Cursor) -> (r: Result<String, MessageError>)
    ensures
        final(cursor).data() == old(cursor).data(),
        final(cursor).pos() == spec_decode_string(old(cursor).data(), old(cursor).pos()).1,
        match spec_decode_string(old(cursor).data(), old(cursor).pos()).0 {
            Ok(chars) => r matches Ok(s) && s@ == chars,
            Err(e) => r == Err::<String, MessageError>(MessageError::Codec(e)),
        },
{
    match decode_string(cursor) {
        Ok(s) => Ok(s),
        Err(e) => Err(MessageError::Codec(e)),
    }
}

impl Message {
    /// Encode message to wire format (payload only, without length prefix).
    pub fn encode(&self) -> (buf: Vec<u8>)
        ensures
            buf@ == spec_encode(self@),
    {
        let mut buf = Vec::new();
        match self {
            Message::MonLogin => {
                encode_u32(&mut buf, MessageType::MonLogin.code());
            },
            Message::MonGetCs { filename, lang, job_id, client_id } => {
                encode_u32(&mut buf, MessageType::MonGetCs.code());
                encode_string(&mut buf, filename.as_str());
                encode_u32(&mut buf, lang.code());
                encode_u32(&mut buf, *job_id);
                encode_u32(&mut buf, *client_id);
            },
            Message::MonJobBegin { job_id, start_time, host_id } => {
                encode_u32(&mut buf, MessageType::MonJobBegin.code());
                encode_u32(&mut buf, *job_id);
                encode_u32(&mut buf, *start_time);
                encode_u32(&mut buf, *host_id);
            },
            Message::MonJobDone {
                job_id,
                exitcode,
                real_msec,
                user_msec,
                sys_msec,
                pfaults,
                in_compressed,
                in_uncompressed,
                out_compressed,
                out_uncompressed,
                flags,
            } => {
                encode_u32(&mut buf, MessageType::MonJobDone.code());
                encode_u32(&mut buf, *job_id);
                encode_u32(&mut buf, *exitcode);
                encode_u32(&mut buf, *real_msec);
                encode_u32(&mut buf, *user_msec);
                encode_u32(&mut buf, *sys_msec);
                encode_u32(&mut buf, *pfaults);
                encode_u32(&mut buf, *in_compressed);
                encode_u32(&mut buf, *in_uncompressed);
                encode_u32(&mut buf, *out_compressed);
                encode_u32(&mut buf, *out_uncompressed);
                encode_u32(&mut buf, *flags);
            },
            Message::MonLocalJobBegin { host_id, job_id, start_time, file } => {
                encode_u32(&mut buf, MessageType::MonLocalJobBegin.code());
                encode_u32(&mut buf, *host_id);
                encode_u32(&mut buf, *job_id);
                encode_u32(&mut buf, *start_time);
                encode_string(&mut buf, file.as_str());
            },
            Message::MonStats { host_id, statmsg } => {
                encode_u32(&mut buf, MessageType::MonStats.code());
                encode_u32(&mut buf, *host_id);
                encode_string(&mut buf, statmsg.as_str());
            },
            Message::JobLocalDone { job_id } => {
                encode_u32(&mut buf, MessageType::JobLocalDone.code());
                encode_u32(&mut buf, *job_id);
            },
            Message::Ping => {
                encode_u32(&mut buf, MessageType::Ping.code());
            },
            Message::End => {
                encode_u32(&mut buf, MessageType::End.code());
            },
        }
        assert(buf@ =~= spec_encode(self@));
        buf
    }

    /// Decode message from payload bytes (without length prefix).
    pub fn decode(data: &[u8]) -> (r: Result<Self, MessageError>)
        ensures
            match spec_decode(data@) {
                Ok(m) => r matches Ok(msg) && msg@ == m,
                Err(e) => r == Err::<Message, MessageError>(e),
            },
    {
        let mut cursor = Cursor::new(data);
        let type_id = read_u32(&mut cursor)?;
        let msg_type = MessageType::from_u32(type_id);
        match msg_type {
            Some(MessageType::MonLogin) => Ok(Message::MonLogin),
            Some(MessageType::MonGetCs) => {
                proof {
                    reveal(decode_get_cs);
                }
                let filename = read_string(&mut cursor)?;
                let lang = Language::from_u32(read_u32(&mut cursor)?);
                let job_id = read_u32(&mut cursor)?;
                let client_id = read_u32(&mut cursor)?;
                Ok(Message::MonGetCs { filename, lang, job_id, client_id })
            },
            Some(MessageType::MonJobBegin) => {
                proof {
                    reveal(decode_job_begin);
                }
                let job_id = read_u32(&mut cursor)?;
                let start_time = read_u32(&mut cursor)?;
                let host_id = read_u32(&mut cursor)?;
                Ok(Message::MonJobBegin { job_id, start_time, host_id })
            },
            Some(MessageType::MonJobDone) => {
                proof {
                    reveal(decode_job_done);
                }
                let job_id = read_u32(&mut cursor)?;
                let exitcode = read_u32(&mut cursor)?;
                let real_msec = read_u32(&mut cursor)?;
                let user_msec = read_u32(&mut cursor)?;
                let sys_msec = read_u32(&mut cursor)?;
                let pfaults = read_u32(&mut cursor)?;
                let in_compressed = read_u32(&mut cursor)?;
                let in_uncompressed = read_u32(&mut cursor)?;
                let out_compressed = read_u32(&mut cursor)?;
                let out_uncompressed = read_u32(&mut cursor)?;
                let flags = read_u32(&mut cursor)?;
                Ok(
                    Message::MonJobDone {
                        job_id,
                        exitcode,
                        real_msec,
                        user_msec,
                        sys_msec,
                        pfaults,
                        in_compressed,
                        in_uncompressed,
                        out_compressed,
                        out_uncompressed,
                        flags,
                    },
                )
            },
            Some(MessageType::MonLocalJobBegin) => {
                proof {
                    reveal(decode_local_job_begin);
                }
                let host_id = read_u32(&mut cursor)?;
                let job_id = read_u32(&mut cursor)?;
                let start_time = read_u32(&mut cursor)?;
                let file = read_string(&mut cursor)?;
                Ok(Message::MonLocalJobBegin { host_id, job_id, start_time, file })
            },
            Some(MessageType::MonStats) => {
                proof {
                    reveal(decode_stats);
                }
                let host_id = read_u32(&mut cursor)?;
                let statmsg = read_string(&mut cursor)?;
                Ok(Message::MonStats { host_id, statmsg })
            },
            Some(MessageType::JobLocalDone) => {
                proof {
                    reveal(decode_job_local_done);
                }
                let job_id = read_u32(&mut cursor)?;
                Ok(Message::JobLocalDone { job_id })
            },
            Some(MessageType::Ping) => Ok(Message::Ping),
            Some(MessageType::End) => Ok(Message::End),
            _ => Err(MessageError::UnsupportedType { type_id }),
        }
    }

    /// Encode a full framed message (length prefix + payload).
    pub fn encode_framed(&self) -> (framed: Vec<u8>)
        ensures
            framed@ == spec_encode_framed(self@),
    {
        let payload = self.encode();
        let mut framed = Vec::new();
        let len: u32 = ((payload.len() as u64) % 0x1_0000_0000u64) as u32;
        encode_u32(&mut framed, len);
        let mut i: usize = 0;
        while i < payload.len()
            invariant
                i <= payload@.len(),
                framed@ == spec_encode_u32(len) + payload@.subrange(0, i as int),
            decreases payload@.len() - i,
        {
            framed.push(payload[i]);
            i = i + 1;
            assert(payload@.subrange(0, i as int) == payload@.subrange(0, i - 1) + seq![payload@[i - 1]]);
        }
        assert(payload@.subrange(0, payload@.len() as int) == payload@);
        framed
    }
}

/// Whether every string of a message has a UTF-8 form short enough for its
/// length field (which counts the terminator) to fit in 32 bits.
pub open spec fn strings_fit(m: MessageModel) -> bool {
    match m {
        MessageModel::MonGetCs { filename, .. } => encode_utf8(filename).len() + 1 <= u32::MAX,
        MessageModel::MonLocalJobBegin { file, .. } => encode_utf8(file).len() + 1 <= u32::MAX,
        MessageModel::MonStats { statmsg, .. } => encode_utf8(statmsg).len() + 1 <= u32::MAX,
        _ => true,
    }
}

proof fn lemma_field_at(data: Seq<u8>, pos: int, v: u32)
    requires
        0 <= pos,
        pos + 4 <= data.len(),
        data.subrange(pos, pos + 4) == spec_encode_u32(v),
    ensures
        field(data, pos, 0) == v,
        spec_decode_u32(data, pos) == Some((v, pos + 4)),
{
    lemma_u32_roundtrip(v, data, pos);
}

proof fn lemma_roundtrip_fixed(m: MessageModel, code: u32, rest: Seq<u8>)
    requires
        m is MonLogin || m is Ping || m is End,
        code == (if m is MonLogin { 0x52u32 } else if m is Ping { 0x42u32 } else { 0x43u32 }),
    ensures
        spec_decode(spec_encode(m) + rest) == Ok::<MessageModel, MessageError>(m),
{
    let data = spec_encode(m) + rest;
    assert(spec_encode(m) == spec_encode_u32(code));
    assert(data.subrange(0, 4) =~= spec_encode_u32(code));
    lemma_field_at(data, 0, code);
}

proof fn lemma_roundtrip_job_local_done(job_id: u32, rest: Seq<u8>)
    ensures
        spec_decode(spec_encode(MessageModel::JobLocalDone { job_id }) + rest) == Ok::<
            MessageModel,
            MessageError,
        >(MessageModel::JobLocalDone { job_id }),
{
    reveal(decode_job_local_done);
    let data = spec_encode(MessageModel::JobLocalDone { job_id }) + rest;
    assert(data.subrange(0, 4) =~= spec_encode_u32(0x4F));
    lemma_field_at(data, 0, 0x4F);
    assert(data.subrange(4, 8) =~= spec_encode_u32(job_id));
    lemma_field_at(data, 4, job_id);
}

proof fn lemma_roundtrip_job_begin(job_id: u32, start_time: u32, host_id: u32, rest: Seq<u8>)
    ensures
        spec_decode(spec_encode(MessageModel::MonJobBegin { job_id, start_time, host_id }) + rest)
            == Ok::<MessageModel, MessageError>(MessageModel::MonJobBegin { job_id, start_time, host_id }),
{
    reveal(decode_job_begin);
    let data = spec_encode(MessageModel::MonJobBegin { job_id, start_time, host_id }) + rest;
    assert(data.subrange(0, 4) =~= spec_encode_u32(0x54));
    lemma_field_at(data, 0, 0x54);
    assert(data.subrange(4, 8) =~= spec_encode_u32(job_id));
    lemma_field_at(data, 4, job_id);
    assert(data.subrange(8, 12) =~= spec_encode_u32(start_time));
    lemma_field_at(data, 8, start_time);
    assert(field(data, 4, 1) == field(data, 8, 0));
    assert(data.subrange(12, 16) =~= spec_encode_u32(host_id));
    lemma_field_at(data, 12, host_id);
    assert(field(data, 4, 2) == field(data, 12, 0));
}

proof fn lemma_roundtrip_job_done(m: MessageModel, rest: Seq<u8>)
    requires
        m is MonJobDone,
    ensures
        spec_decode(spec_encode(m) + rest) == Ok::<MessageModel, MessageError>(m),
{
    reveal(decode_job_done);
    let data = spec_encode(m) + rest;
    let vals = seq![0x55u32, m->MonJobDone_job_id, m->exitcode, m->real_msec, m->user_msec,
        m->sys_msec, m->pfaults, m->in_compressed, m->in_uncompressed, m->out_compressed,
        m->out_uncompressed, m->flags];
    assert(data.len() >= 48);
    assert forall|i: int| 0 <= i < 12 implies #[trigger] field(data, 0, i) == vals[i] by {
        assert(data.subrange(4 * i, 4 * i + 4) =~= spec_encode_u32(vals[i]));
        lemma_field_at(data, 4 * i, vals[i]);
    }
    assert(field(data, 0, 0) == 0x55u32);
    assert forall|i: int| 0 <= i < 11 implies #[trigger] field(data, 4, i) == field(data, 0, i + 1) by {
    }
    assert(field(data, 4, 0) == vals[1]);
    assert(field(data, 4, 1) == vals[2]);
    assert(field(data, 4, 2) == vals[3]);
    assert(field(data, 4, 3) == vals[4]);
    assert(field(data, 4, 4) == vals[5]);
    assert(field(data, 4, 5) == vals[6]);
    assert(field(data, 4, 6) == vals[7]);
    assert(field(data, 4, 7) == vals[8]);
    assert(field(data, 4, 8) == vals[9]);
    assert(field(data, 4, 9) == vals[10]);
    assert(field(data, 4, 10) == vals[11]);
}

proof fn lemma_roundtrip_get_cs(
    filename: Seq<char>,
    lang: Language,
    job_id: u32,
    client_id: u32,
    rest: Seq<u8>,
)
    requires
        encode_utf8(filename).len() + 1 <= u32::MAX,
    ensures
        spec_decode(spec_encode(MessageModel::MonGetCs { filename, lang, job_id, client_id }) + rest)
            == Ok::<MessageModel, MessageError>(MessageModel::MonGetCs { filename, lang, job_id, client_id }),
{
    reveal(decode_get_cs);
    let data = spec_encode(MessageModel::MonGetCs { filename, lang, job_id, client_id }) + rest;
    let sw = spec_encode_string(filename);
    let p: int = 4 + sw.len() as int;
    assert(data.subrange(0, 4) =~= spec_encode_u32(0x53));
    lemma_field_at(data, 0, 0x53);
    assert(data.subrange(4, p) =~= sw);
    lemma_string_roundtrip(filename, data, 4);
    assert(data.subrange(p, p + 4) =~= spec_encode_u32(lang.spec_code()));
    lemma_field_at(data, p, lang.spec_code());
    assert(data.subrange(p + 4, p + 8) =~= spec_encode_u32(job_id));
    lemma_field_at(data, p + 4, job_id);
    assert(field(data, p, 1) == field(data, p + 4, 0));
    assert(data.subrange(p + 8, p + 12) =~= spec_encode_u32(client_id));
    lemma_field_at(data, p + 8, client_id);
    assert(field(data, p, 2) == field(data, p + 8, 0));
    lemma_language_code_roundtrip(lang);
}

proof fn lemma_roundtrip_local_job_begin(
    host_id: u32,
    job_id: u32,
    start_time: u32,
    file: Seq<char>,
    rest: Seq<u8>,
)
    requires
        encode_utf8(file).len() + 1 <= u32::MAX,
    ensures
        spec_decode(
            spec_encode(MessageModel::MonLocalJobBegin { host_id, job_id, start_time, file }) + rest,
        ) == Ok::<MessageModel, MessageError>(
            MessageModel::MonLocalJobBegin { host_id, job_id, start_time, file },
        ),
{
    reveal(decode_local_job_begin);
    let data = spec_encode(MessageModel::MonLocalJobBegin { host_id, job_id, start_time, file })
        + rest;
    let sw = spec_encode_string(file);
    assert(data.subrange(0, 4) =~= spec_encode_u32(0x56));
    lemma_field_at(data, 0, 0x56);
    assert(data.subrange(4, 8) =~= spec_encode_u32(host_id));
    lemma_field_at(data, 4, host_id);
    assert(data.subrange(8, 12) =~= spec_encode_u32(job_id));
    lemma_field_at(data, 8, job_id);
    assert(field(data, 4, 1) == field(data, 8, 0));
    assert(data.subrange(12, 16) =~= spec_encode_u32(start_time));
    lemma_field_at(data, 12, start_time);
    assert(field(data, 4, 2) == field(data, 12, 0));
    assert(data.subrange(16, 16 + sw.len() as int) =~= sw);
    lemma_string_roundtrip(file, data, 16);
}

proof fn lemma_roundtrip_stats(host_id: u32, statmsg: Seq<char>, rest: Seq<u8>)
    requires
        encode_utf8(statmsg).len() + 1 <= u32::MAX,
    ensures
        spec_decode(spec_encode(MessageModel::MonStats { host_id, statmsg }) + rest) == Ok::<
            MessageModel,
            MessageError,
        >(MessageModel::MonStats { host_id, statmsg }),
{
    reveal(decode_stats);
    let data = spec_encode(MessageModel::MonStats { host_id, statmsg }) + rest;
    let sw = spec_encode_string(statmsg);
    assert(data.subrange(0, 4) =~= spec_encode_u32(0x57));
    lemma_field_at(data, 0, 0x57);
    assert(data.subrange(4, 8) =~= spec_encode_u32(host_id));
    lemma_field_at(data, 4, host_id);
    assert(data.subrange(8, 8 + sw.len() as int) =~= sw);
    lemma_string_roundtrip(statmsg, data, 8);
}

/// Decoding the wire form of a message gives the message back, whatever
/// bytes follow it, unless one of its strings is too long for its length
/// field (see [`strings_fit`]).
pub proof fn lemma_decode_encode(m: MessageModel, rest: Seq<u8>)
    requires
        strings_fit(m),
    ensures
        spec_decode(spec_encode(m) + rest) == Ok::<MessageModel, MessageError>(m),
{
    match m {
        MessageModel::MonLogin => lemma_roundtrip_fixed(m, 0x52, rest),
        MessageModel::Ping => lemma_roundtrip_fixed(m, 0x42, rest),
        MessageModel::End => lemma_roundtrip_fixed(m, 0x43, rest),
        MessageModel::JobLocalDone { job_id } => lemma_roundtrip_job_local_done(job_id, rest),
        MessageModel::MonJobBegin { job_id, start_time, host_id } => lemma_roundtrip_job_begin(
            job_id,
            start_time,
            host_id,
            rest,
        ),
        MessageModel::MonJobDone { .. } => lemma_roundtrip_job_done(m, rest),
        MessageModel::MonGetCs { filename, lang, job_id, client_id } => lemma_roundtrip_get_cs(
            filename,
            lang,
            job_id,
            client_id,
            rest,
        ),
        MessageModel::MonLocalJobBegin { host_id, job_id, start_time, file } =>
            lemma_roundtrip_local_job_begin(host_id, job_id, start_time, file, rest),
        MessageModel::MonStats { host_id, statmsg } => lemma_roundtrip_stats(
            host_id,
            statmsg,
            rest,
        ),
    }
}

/// A payload whose type ID names no message type is refused with that ID.
pub proof fn lemma_unknown_type_rejected(data: Seq<u8>)
    requires
        data.len() >= 4,
        MessageType::spec_from_u32(field(data, 0, 0)) is None,
    ensures
        spec_decode(data) == Err::<MessageModel, MessageError>(
            MessageError::UnsupportedType { type_id: field(data, 0, 0) },
        ),
{
}


/// The value of a type ID whose top three bytes are zero is its last byte.
proof fn lemma_small_code(b: u8)
    ensures
        be_value(0, 0, 0, b) == b as u32,
{
    assert(((0u8 as u32) << 24u32) | ((0u8 as u32) << 16u32) | ((0u8 as u32) << 8u32) | (b as u32)
        == b as u32) by (bit_vector);
}

/// Whether the payload starts with the type ID `code` (below 256).
pub open spec fn starts_with_type(data: Seq<u8>, code: u8) -> bool {
    data.len() >= 4 && data[0] == 0 && data[1] == 0 && data[2] == 0 && data[3] == code
}

/// The big-endian `u32` at byte `i` of `data`.
pub open spec fn be_at(data: Seq<u8>, i: int) -> u32 {
    be_value(data[i], data[i + 1], data[i + 2], data[i + 3])
}

/// The login, ping and end messages are their type IDs 0x52, 0x42 and 0x43
/// alone; whatever follows is ignored.
pub proof fn lemma_fixed_layouts(data: Seq<u8>)
    ensures
        starts_with_type(data, 0x52) ==> spec_decode(data) == Ok::<MessageModel, MessageError>(
            MessageModel::MonLogin,
        ),
        starts_with_type(data, 0x42) ==> spec_decode(data) == Ok::<MessageModel, MessageError>(
            MessageModel::Ping,
        ),
        starts_with_type(data, 0x43) ==> spec_decode(data) == Ok::<MessageModel, MessageError>(
            MessageModel::End,
        ),
{
    if data.len() >= 4 {
        lemma_small_code(data[3]);
    }
}

/// A `MonJobBegin` payload is type 0x54, then the job ID, the start time and
/// the host ID, each a big-endian `u32`, in that order; it is refused as cut
/// short when fewer than these 16 bytes arrive.
pub proof fn lemma_job_begin_layout(data: Seq<u8>)
    requires
        starts_with_type(data, 0x54),
    ensures
        data.len() >= 16 ==> spec_decode(data) == Ok::<MessageModel, MessageError>(
            MessageModel::MonJobBegin {
                job_id: be_at(data, 4),
                start_time: be_at(data, 8),
                host_id: be_at(data, 12),
            },
        ),
        data.len() < 16 ==> spec_decode(data) == Err::<MessageModel, MessageError>(
            MessageError::Codec(CodecError::UnexpectedEofU32),
        ),
{
    reveal(decode_job_begin);
    lemma_small_code(0x54);
}

/// A `JobLocalDone` payload is type 0x4F, then the job ID.
pub proof fn lemma_job_local_done_layout(data: Seq<u8>)
    requires
        starts_with_type(data, 0x4F),
    ensures
        data.len() >= 8 ==> spec_decode(data) == Ok::<MessageModel, MessageError>(
            MessageModel::JobLocalDone { job_id: be_at(data, 4) },
        ),
        data.len() < 8 ==> spec_decode(data) == Err::<MessageModel, MessageError>(
            MessageError::Codec(CodecError::UnexpectedEofU32),
        ),
{
    reveal(decode_job_local_done);
    lemma_small_code(0x4F);
}

/// A `MonJobDone` payload is type 0x55, then eleven big-endian `u32`s: job
/// ID, exit code, real, user and system milliseconds, page faults, input
/// compressed and uncompressed sizes, output compressed and uncompressed
/// sizes, flags.
pub proof fn lemma_job_done_layout(data: Seq<u8>)
    requires
        starts_with_type(data, 0x55),
    ensures
        data.len() >= 48 ==> spec_decode(data) == Ok::<MessageModel, MessageError>(
            MessageModel::MonJobDone {
                job_id: be_at(data, 4),
                exitcode: be_at(data, 8),
                real_msec: be_at(data, 12),
                user_msec: be_at(data, 16),
                sys_msec: be_at(data, 20),
                pfaults: be_at(data, 24),
                in_compressed: be_at(data, 28),
                in_uncompressed: be_at(data, 32),
                out_compressed: be_at(data, 36),
                out_uncompressed: be_at(data, 40),
                flags: be_at(data, 44),
            },
        ),
        data.len() < 48 ==> spec_decode(data) == Err::<MessageModel, MessageError>(
            MessageError::Codec(CodecError::UnexpectedEofU32),
        ),
{
    reveal(decode_job_done);
    lemma_small_code(0x55);
}

/// A `MonLocalJobBegin` payload is type 0x56, then the host ID, the job ID
/// and the start time, then the file name as a length-prefixed string.
pub proof fn lemma_local_job_begin_layout(data: Seq<u8>)
    requires
        starts_with_type(data, 0x56),
    ensures
        data.len() < 16 ==> spec_decode(data) == Err::<MessageModel, MessageError>(
            MessageError::Codec(CodecError::UnexpectedEofU32),
        ),
        data.len() >= 16 ==> spec_decode(data) == match spec_decode_string(data, 16).0 {
            Ok(file) => Ok::<MessageModel, MessageError>(
                MessageModel::MonLocalJobBegin {
                    host_id: be_at(data, 4),
                    job_id: be_at(data, 8),
                    start_time: be_at(data, 12),
                    file,
                },
            ),
            Err(e) => Err(MessageError::Codec(e)),
        },
{
    reveal(decode_local_job_begin);
    lemma_small_code(0x56);
}

/// A `MonStats` payload is type 0x57, then the host ID, then the statistics
/// text as a length-prefixed string.
pub proof fn lemma_stats_layout(data: Seq<u8>)
    requires
        starts_with_type(data, 0x57),
    ensures
        data.len() < 8 ==> spec_decode(data) == Err::<MessageModel, MessageError>(
            MessageError::Codec(CodecError::UnexpectedEofU32),
        ),
        data.len() >= 8 ==> spec_decode(data) == match spec_decode_string(data, 8).0 {
            Ok(statmsg) => Ok::<MessageModel, MessageError>(
                MessageModel::MonStats { host_id: be_at(data, 4), statmsg },
            ),
            Err(e) => Err(MessageError::Codec(e)),
        },
{
    reveal(decode_stats);
    lemma_small_code(0x57);
}

/// A `MonGetCs` payload is type 0x53, then the file name as a
/// length-prefixed string, then the language, the job ID and the client ID.
/// Language values past 3 read as `Custom`.
pub proof fn lemma_get_cs_layout(data: Seq<u8>)
    requires
        starts_with_type(data, 0x53),
    ensures
        match spec_decode_string(data, 4) {
            (Err(e), _) => spec_decode(data) == Err::<MessageModel, MessageError>(
                MessageError::Codec(e),
            ),
            (Ok(filename), p) => if p + 12 <= data.len() {
                &&& spec_decode(data) matches Ok(MessageModel::MonGetCs { filename: f, lang, job_id, client_id })
                &&& f == filename
                &&& job_id == be_at(data, p + 4)
                &&& client_id == be_at(data, p + 8)
                &&& be_at(data, p) <= 3 ==> lang.spec_code() == be_at(data, p)
                &&& be_at(data, p) > 3 ==> lang == Language::Custom
            } else {
                spec_decode(data) == Err::<MessageModel, MessageError>(
                    MessageError::Codec(CodecError::UnexpectedEofU32),
                )
            },
        },
{
    reveal(decode_get_cs);
    lemma_small_code(0x53);
}

} // verus!
