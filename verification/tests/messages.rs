use icecc_mon::codec::{encode_u32, CodecError};
use icecc_mon::messages::{Language, Message, MessageError, MessageType};

#[test]
fn roundtrip_mon_login() {
    let msg = Message::MonLogin;
    let encoded = msg.encode();
    let decoded = Message::decode(&encoded).unwrap();
    assert_eq!(msg, decoded);
}

#[test]
fn roundtrip_mon_get_cs() {
    let msg = Message::MonGetCs { filename: "test.cpp".into(), lang: Language::Cxx, job_id: 42, client_id: 7 };
    let decoded = Message::decode(&msg.encode()).unwrap();
    assert_eq!(msg, decoded);
}

#[test]
fn roundtrip_mon_job_begin() {
    let msg = Message::MonJobBegin { job_id: 1, start_time: 1000, host_id: 5 };
    let decoded = Message::decode(&msg.encode()).unwrap();
    assert_eq!(msg, decoded);
}

#[test]
fn roundtrip_mon_job_done() {
    let msg = Message::MonJobDone {
        job_id: 1,
        exitcode: 0,
        real_msec: 100,
        user_msec: 80,
        sys_msec: 10,
        pfaults: 0,
        in_compressed: 500,
        in_uncompressed: 1000,
        out_compressed: 200,
        out_uncompressed: 400,
        flags: 0,
    };
    let decoded = Message::decode(&msg.encode()).unwrap();
    assert_eq!(msg, decoded);
}

#[test]
fn roundtrip_mon_local_job_begin() {
    let msg = Message::MonLocalJobBegin { host_id: 3, job_id: 10, start_time: 2000, file: "main.c".into() };
    let decoded = Message::decode(&msg.encode()).unwrap();
    assert_eq!(msg, decoded);
}

#[test]
fn roundtrip_mon_stats() {
    let msg = Message::MonStats { host_id: 1, statmsg: "Name:myhost\nMaxJobs:4\nSpeed:100\n".into() };
    let decoded = Message::decode(&msg.encode()).unwrap();
    assert_eq!(msg, decoded);
}

#[test]
fn roundtrip_ping() {
    let decoded = Message::decode(&Message::Ping.encode()).unwrap();
    assert_eq!(Message::Ping, decoded);
}

#[test]
fn roundtrip_end() {
    let decoded = Message::decode(&Message::End.encode()).unwrap();
    assert_eq!(Message::End, decoded);
}

#[test]
fn roundtrip_job_local_done() {
    let msg = Message::JobLocalDone { job_id: 42 };
    let decoded = Message::decode(&msg.encode()).unwrap();
    assert_eq!(msg, decoded);
}

#[test]
fn framed_encoding() {
    let msg = Message::Ping;
    let framed = msg.encode_framed();
    // 4 bytes length + 4 bytes type
    assert_eq!(framed.len(), 8);
    // length prefix = 4 (just the type u32)
    assert_eq!(&framed[0..4], &[0, 0, 0, 4]);
}

#[test]
fn unknown_type_errors() {
    let mut buf = Vec::new();
    encode_u32(&mut buf, 0xFF);
    assert!(Message::decode(&buf).is_err());
}

#[test]
fn unknown_type_error_names_the_type() {
    let mut buf = Vec::new();
    encode_u32(&mut buf, 0xFF);
    assert_eq!(Message::decode(&buf), Err(MessageError::UnsupportedType { type_id: 0xFF }));
}

#[test]
fn known_but_unsupported_type_errors() {
    let mut buf = Vec::new();
    encode_u32(&mut buf, 0x47);
    assert_eq!(Message::decode(&buf), Err(MessageError::UnsupportedType { type_id: 0x47 }));
}

#[test]
fn empty_payload_is_eof() {
    assert_eq!(Message::decode(&[]), Err(MessageError::Codec(CodecError::UnexpectedEofU32)));
}

#[test]
fn truncated_job_done_is_eof() {
    let msg = Message::MonJobBegin { job_id: 1, start_time: 2, host_id: 3 };
    let bytes = msg.encode();
    assert_eq!(Message::decode(&bytes[..12]), Err(MessageError::Codec(CodecError::UnexpectedEofU32)));
}

#[test]
fn wire_bytes_of_job_local_done() {
    let bytes = Message::JobLocalDone { job_id: 0x0102 }.encode();
    assert_eq!(bytes, vec![0, 0, 0, 0x4F, 0, 0, 1, 2]);
}

#[test]
fn trailing_bytes_are_ignored() {
    let mut bytes = Message::JobLocalDone { job_id: 9 }.encode();
    bytes.extend_from_slice(&[1, 2, 3]);
    assert_eq!(Message::decode(&bytes).unwrap(), Message::JobLocalDone { job_id: 9 });
}

#[test]
fn unknown_language_reads_as_custom() {
    let mut buf = Vec::new();
    encode_u32(&mut buf, 0x53);
    icecc_mon::codec::encode_string(&mut buf, "a.c");
    encode_u32(&mut buf, 17);
    encode_u32(&mut buf, 1);
    encode_u32(&mut buf, 2);
    assert_eq!(
        Message::decode(&buf).unwrap(),
        Message::MonGetCs { filename: "a.c".into(), lang: Language::Custom, job_id: 1, client_id: 2 }
    );
}

#[test]
fn message_type_codes() {
    assert_eq!(MessageType::from_u32(0x57), Some(MessageType::MonStats));
    assert_eq!(MessageType::from_u32(0x44), None);
    assert_eq!(MessageType::MonLogin.code(), 0x52);
    assert_eq!(Language::from_u32(3), Language::ObjCxx);
    assert_eq!(Language::from_u32(99), Language::Custom);
    assert_eq!(Language::Custom.code(), 4);
}

#[test]
fn framed_length_prefix_counts_payload() {
    let msg = Message::MonStats { host_id: 2, statmsg: "Name:h\n".into() };
    let framed = msg.encode_framed();
    let payload = msg.encode();
    assert_eq!(framed.len(), payload.len() + 4);
    assert_eq!(&framed[0..4], &(payload.len() as u32).to_be_bytes());
    assert_eq!(&framed[4..], payload.as_slice());
}
