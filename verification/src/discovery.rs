//! Scheduler discovery: reading the reply to a UDP broadcast.
use crate::codec::{be_value, utf8_str};
use crate::text::text_eq;
use crate::{BROAD_BUFLEN, MIN_PROTOCOL_VERSION};
use vstd::prelude::*;
use vstd::utf8::{decode_utf8, valid_utf8};

verus! {

/// What a scheduler's discovery reply says.
#[derive(Debug, Clone)]
pub struct DiscoveredScheduler {
    pub protocol_version: u32,
    pub netname: String,
}

/// Why a discovery reply is refused.
#[derive(Debug, Clone, Copy, PartialEq, Eq, Structural)]
pub enum DiscoveryError {
    /// Fewer than 13 bytes arrived.
    TooShort { len: usize },
    /// The scheduler speaks a protocol older than version 38.
    PreV38,
    /// The scheduler's protocol version is below the minimum.
    TooOld { version: u32 },
    /// The scheduler serves another network than the one asked for.
    NetnameMismatch,
}

/// Offset of the network name in a reply.
pub const NETNAME_OFFSET: usize = 13;

/// Whether `k` is where the NUL-terminated name in `s` ends: the first zero
/// byte, or the end of `s`.
pub open spec fn is_name_end(s: Seq<u8>, k: int) -> bool {
    &&& 0 <= k <= s.len()
    &&& k < s.len() ==> s[k] == 0
    &&& forall|j: int| 0 <= j < k ==> s[j] != 0
}

/// Where the NUL-terminated name in `s` ends.
pub open spec fn name_end(s: Seq<u8>) -> int {
    choose|k: int| is_name_end(s, k)
}

/// The network name bytes of a reply buffer.
pub open spec fn reply_name_bytes(buf: Seq<u8>) -> Seq<u8> {
    let tail = buf.subrange(NETNAME_OFFSET as int, buf.len() as int);
    tail.subrange(0, name_end(tail))
}

/// The network name a reply carries: its bytes read as UTF-8, empty when
/// they are not UTF-8.
pub open spec fn reply_netname(buf: Seq<u8>) -> Seq<char> {
    if valid_utf8(reply_name_bytes(buf)) {
        decode_utf8(reply_name_bytes(buf))
    } else {
        Seq::empty()
    }
}

/// The outcome of a discovery reply of `len` bytes received into `buf`,
/// when network `netname` was asked for (empty: any network).
pub open spec fn spec_parse_reply(buf: Seq<u8>, len: usize, netname: Seq<char>) -> Result<
    (u32, Seq<char>),
    DiscoveryError,
> {
    if len < 13 {
        Err(DiscoveryError::TooShort { len })
    } else if buf[0] < 3 {
        Err(DiscoveryError::PreV38)
    } else {
        let version = be_value(buf[1], buf[2], buf[3], buf[4]);
        let found = reply_netname(buf);
        if version < MIN_PROTOCOL_VERSION {
            Err(DiscoveryError::TooOld { version })
        } else if netname.len() > 0 && found.len() > 0 && netname != found {
            Err(DiscoveryError::NetnameMismatch)
        } else {
            Ok((version, if found.len() == 0 { netname } else { found }))
        }
    }
}

/// Reads a discovery reply of `len` bytes received into the broadcast
/// buffer `buf`, for the network `netname` (empty: any network).
pub fn parse_discovery_reply(buf: &[u8], len: usize, netname: &str) -> (r: Result<
    DiscoveredScheduler,
    DiscoveryError,
>)
    requires
        buf@.len() == BROAD_BUFLEN,
    ensures
        match spec_parse_reply(buf@, len, netname@) {
            Ok((version, name)) => r matches Ok(d) && d.protocol_version == version && d.netname@
                == name,
            Err(e) => r matches Err(f) && f == e,
        },
{
    if len < 13 {
        return Err(DiscoveryError::TooShort { len });
    }
    let version_byte = buf[0];
    // From protocol 38 on, the first byte is the version plus 3.
    if version_byte < 3 {
        return Err(DiscoveryError::PreV38);
    }
    let version = ((buf[1] as u32) << 24u32) | ((buf[2] as u32) << 16u32) | ((buf[3] as u32) << 8u32)
        | (buf[4] as u32);
    if version < MIN_PROTOCOL_VERSION {
        return Err(DiscoveryError::TooOld { version });
    }
    let ghost tail = buf@.subrange(NETNAME_OFFSET as int, buf@.len() as int);
    let mut end: usize = NETNAME_OFFSET;
    while end < buf.len() && buf[end] != 0
        invariant
            buf@.len() == BROAD_BUFLEN,
            NETNAME_OFFSET <= end <= buf@.len(),
            tail == buf@.subrange(NETNAME_OFFSET as int, buf@.len() as int),
            forall|j: int| NETNAME_OFFSET <= j < end ==> buf@[j] != 0,
        decreases buf@.len() - end,
    {
        end = end + 1;
    }
    let k: Ghost<int> = Ghost(end - NETNAME_OFFSET);
    assert(is_name_end(tail, k@));
    assert(forall|k2: int| is_name_end(tail, k2) ==> k2 == k@) by {
        assert forall|k2: int| is_name_end(tail, k2) implies k2 == k@ by {
            if k2 < k@ {
                assert(tail[k2] == buf@[NETNAME_OFFSET + k2]);
            } else if k2 > k@ {
                assert(tail[k@] == buf@[end as int]);
            }
        }
    }
    let name_bytes = &buf[NETNAME_OFFSET..end];
    assert(name_bytes@ =~= reply_name_bytes(buf@));
    let found: &str = match utf8_str(name_bytes) {
        Some(s) => s,
        None => "",
    };
    proof {
        reveal_strlit("");
    }
    if !netname.is_empty() && !found.is_empty() && !text_eq(netname, found) {
        return Err(DiscoveryError::NetnameMismatch);
    }
    let name = if found.is_empty() {
        netname.to_owned()
    } else {
        found.to_owned()
    };
    Ok(DiscoveredScheduler { protocol_version: version, netname: name })
}


/// The network name of a reply is made of the bytes from offset 13 up to
/// the first zero byte (or the end of the buffer), none of them zero.
pub proof fn lemma_reply_name_bytes(buf: Seq<u8>)
    requires
        buf.len() >= NETNAME_OFFSET,
    ensures
        ({
            let n = reply_name_bytes(buf);
            &&& NETNAME_OFFSET + n.len() <= buf.len()
            &&& forall|j: int| 0 <= j < n.len() ==> #[trigger] n[j] == buf[NETNAME_OFFSET + j] && n[j] != 0
            &&& NETNAME_OFFSET + n.len() < buf.len() ==> buf[NETNAME_OFFSET + n.len()] == 0
        }),
{
    let tail = buf.subrange(NETNAME_OFFSET as int, buf.len() as int);
    let k = lemma_name_end_exists(tail, 0);
    let e = name_end(tail);
    assert(is_name_end(tail, e));
    if e < k {
        assert(tail[e] == 0);
    } else if e > k {
        assert(tail[k] != 0);
    }
}

proof fn lemma_name_end_exists(s: Seq<u8>, k: int) -> (e: int)
    requires
        0 <= k <= s.len(),
        forall|j: int| 0 <= j < k ==> s[j] != 0,
    ensures
        is_name_end(s, e),
    decreases s.len() - k,
{
    if k == s.len() || s[k] == 0 {
        k
    } else {
        lemma_name_end_exists(s, k + 1)
    }
}

/// A reply is accepted only from a scheduler speaking version 38 or later
/// (first byte at least 3) whose version, bytes 1 to 4 big-endian, is at
/// least the minimum; the accepted version is that one. The network name
/// is the reply's own when it has one, else the requested one, and a reply
/// naming another network than a requested one is refused. Any reply that
/// passes the version checks is accepted when no network is requested.
pub proof fn lemma_reply_acceptance(buf: Seq<u8>, len: usize, netname: Seq<char>)
    requires
        buf.len() == BROAD_BUFLEN,
    ensures
        len < 13 ==> spec_parse_reply(buf, len, netname) == Err::<(u32, Seq<char>), DiscoveryError>(
            DiscoveryError::TooShort { len },
        ),
        spec_parse_reply(buf, len, netname) matches Ok((v, name)) ==> {
            &&& len >= 13
            &&& buf[0] >= 3
            &&& v == be_value(buf[1], buf[2], buf[3], buf[4])
            &&& v >= MIN_PROTOCOL_VERSION
            &&& reply_netname(buf).len() > 0 ==> name == reply_netname(buf)
            &&& reply_netname(buf).len() == 0 ==> name == netname
            &&& netname.len() > 0 ==> name == netname
        },
        len >= 13 && buf[0] >= 3 && be_value(buf[1], buf[2], buf[3], buf[4]) >= MIN_PROTOCOL_VERSION
            && netname.len() == 0 ==> spec_parse_reply(buf, len, netname) == Ok::<
            (u32, Seq<char>),
            DiscoveryError,
        >((be_value(buf[1], buf[2], buf[3], buf[4]), reply_netname(buf))),
{
    if netname.len() == 0 && reply_netname(buf).len() == 0 {
        assert(netname =~= reply_netname(buf));
    }
}

} // verus!
