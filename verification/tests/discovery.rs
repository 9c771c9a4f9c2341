use icecc_mon::discovery::{parse_discovery_reply, DiscoveryError};
use icecc_mon::BROAD_BUFLEN;

fn reply(version: u32, name: &[u8]) -> Vec<u8> {
    let mut buf = vec![0u8; BROAD_BUFLEN];
    buf[0] = 47;
    buf[1..5].copy_from_slice(&version.to_be_bytes());
    buf[13..13 + name.len()].copy_from_slice(name);
    buf
}

#[test]
fn reply_with_matching_netname() {
    let buf = reply(44, b"ICECREAM");
    let r = parse_discovery_reply(&buf, 22, "ICECREAM").unwrap();
    assert_eq!(r.protocol_version, 44);
    assert_eq!(r.netname, "ICECREAM");
}

#[test]
fn reply_netname_used_when_none_asked() {
    let buf = reply(40, b"LAB");
    let r = parse_discovery_reply(&buf, 20, "").unwrap();
    assert_eq!(r.netname, "LAB");
}

#[test]
fn empty_reply_netname_keeps_requested() {
    let buf = reply(40, b"");
    let r = parse_discovery_reply(&buf, 20, "ICECREAM").unwrap();
    assert_eq!(r.netname, "ICECREAM");
}

#[test]
fn mismatching_netname_is_refused() {
    let buf = reply(44, b"OTHER");
    assert_eq!(parse_discovery_reply(&buf, 20, "ICECREAM").unwrap_err(), DiscoveryError::NetnameMismatch);
}

#[test]
fn short_reply_is_refused() {
    let buf = reply(44, b"X");
    assert_eq!(parse_discovery_reply(&buf, 12, "").unwrap_err(), DiscoveryError::TooShort { len: 12 });
}

#[test]
fn old_protocols_are_refused() {
    let mut buf = reply(44, b"X");
    buf[0] = 2;
    assert_eq!(parse_discovery_reply(&buf, 20, "").unwrap_err(), DiscoveryError::PreV38);
    let buf = reply(20, b"X");
    assert_eq!(parse_discovery_reply(&buf, 20, "").unwrap_err(), DiscoveryError::TooOld { version: 20 });
}

#[test]
fn unterminated_netname_runs_to_buffer_end() {
    let mut buf = vec![b'n'; BROAD_BUFLEN];
    buf[0] = 47;
    buf[1..5].copy_from_slice(&44u32.to_be_bytes());
    let r = parse_discovery_reply(&buf, BROAD_BUFLEN, "").unwrap();
    assert_eq!(r.netname.len(), BROAD_BUFLEN - 13);
}

#[test]
fn invalid_utf8_netname_reads_as_empty() {
    let buf = reply(44, &[0xff, 0xfe]);
    let r = parse_discovery_reply(&buf, 20, "ICECREAM").unwrap();
    assert_eq!(r.netname, "ICECREAM");
}
