//! Binary codec for icecc wire format primitives.
//!
//! All integers are big-endian (network byte order). Strings are
//! length-prefixed: a `u32` length that counts the NUL terminator, the UTF-8
//! bytes, then the NUL byte.
use vstd::prelude::*;
use vstd::utf8::*;

verus! {

/// The four big-endian bytes of `v`.
pub open spec fn be_bytes(v: u32) -> Seq<u8> {
    seq![(v >> 24u32) as u8, ((v >> 16u32) & 0xffu32) as u8, ((v >> 8u32) & 0xffu32) as u8, (v & 0xffu32) as u8]
}

/// The `u32` whose big-endian bytes are `b0 b1 b2 b3`.
pub open spec fn be_value(b0: u8, b1: u8, b2: u8, b3: u8) -> u32 {
    ((b0 as u32) << 24u32) | ((b1 as u32) << 16u32) | ((b2 as u32) << 8u32) | (b3 as u32)
}

/// Reading back the bytes of a value gives the value.
pub proof fn lemma_be_value_of_bytes(v: u32)
    ensures
        be_value(be_bytes(v)[0], be_bytes(v)[1], be_bytes(v)[2], be_bytes(v)[3]) == v,
{
    let b0 = (v >> 24u32) as u8;
    let b1 = ((v >> 16u32) & 0xffu32) as u8;
    let b2 = ((v >> 8u32) & 0xffu32) as u8;
    let b3 = (v & 0xffu32) as u8;
    assert(((b0 as u32) << 24u32) | ((b1 as u32) << 16u32) | ((b2 as u32) << 8u32) | (b3 as u32)
        == v) by (bit_vector)
        requires
            b0 == (v >> 24u32) as u8,
            b1 == ((v >> 16u32) & 0xffu32) as u8,
            b2 == ((v >> 8u32) & 0xffu32) as u8,
            b3 == (v & 0xffu32) as u8,
    ;
}


/// Why a primitive could not be read.
#[derive(Debug, Clone, Copy, PartialEq, Eq, Structural)]
pub enum CodecError {
    /// Fewer than four bytes remained where a `u32` was expected.
    UnexpectedEofU32,
    /// The string's declared length runs past the end of the data.
    UnexpectedEofString { len: u32 },
    /// The string's bytes are not valid UTF-8.
    InvalidUtf8,
}

/// A read position over a byte slice.
pub struct Cursor<'a> {
    data: &'a [u8],
    pos: usize,
}

impl<'a> Cursor<'a> {
    /// The bytes the cursor reads.
    pub closed spec fn data(&self) -> Seq<u8> {
        self.data@
    }

    /// The index of the next byte to be read.
    pub closed spec fn pos(&self) -> int {
        self.pos as int
    }

    #[verifier::type_invariant]
    spec fn inv(&self) -> bool {
        self.pos <= self.data@.len()
    }

    /// A cursor at the start of `data`.
    pub fn new(data: &'a [u8]) -> (c: Cursor<'a>)
        ensures
            c.data() == data@,
            c.pos() == 0,
    {
        Cursor { data, pos: 0 }
    }

    /// The index of the next byte to be read.
    pub fn position(&self) -> (p: usize)
        ensures
            p == self.pos(),
            p <= self.data().len(),
    {
        proof {
            use_type_invariant(self);
        }
        self.pos
    }
}

/// Writing `val` appends its four big-endian bytes.
pub open spec fn spec_encode_u32(val: u32) -> Seq<u8> {
    be_bytes(val)
}

/// The length field of a string whose UTF-8 form has `n` bytes: `n + 1`,
/// truncated to 32 bits.
pub open spec fn string_len_field(n: nat) -> u32 {
    ((n + 1) % 0x1_0000_0000) as u32
}

/// The wire form of a string: length field, UTF-8 bytes, NUL.
pub open spec fn spec_encode_string(s: Seq<char>) -> Seq<u8> {
    be_bytes(string_len_field(encode_utf8(s).len())) + encode_utf8(s) + seq![0u8]
}

/// Reading a `u32` at `pos`: the value and the position after it.
pub open spec fn spec_decode_u32(data: Seq<u8>, pos: int) -> Option<(u32, int)> {
    if 0 <= pos && pos + 4 <= data.len() {
        Some((be_value(data[pos], data[pos + 1], data[pos + 2], data[pos + 3]), pos + 4))
    } else {
        None
    }
}

/// Reading a string at `pos`: the characters and the position after the
/// string, or why it failed and where the cursor stands then.
///
/// A zero length gives the empty string. Otherwise the last of the `len`
/// bytes (the terminator) is skipped without being looked at.
pub open spec fn spec_decode_string(data: Seq<u8>, pos: int) -> (Result<Seq<char>, CodecError>, int) {
    match spec_decode_u32(data, pos) {
        None => (Err(CodecError::UnexpectedEofU32), pos),
        Some((len, p)) => {
            if len == 0 {
                (Ok(Seq::empty()), p)
            } else if p + len > data.len() {
                (Err(CodecError::UnexpectedEofString { len }), p)
            } else {
                let body = data.subrange(p, p + len - 1);
                if valid_utf8(body) {
                    (Ok(decode_utf8(body)), p + len)
                } else {
                    (Err(CodecError::InvalidUtf8), p)
                }
            }
        },
    }
}

/// A `u32` written at `pos` of a byte sequence is read back from there,
/// whatever bytes follow it.
pub proof fn lemma_u32_roundtrip(v: u32, data: Seq<u8>, pos: int)
    requires
        0 <= pos,
        pos + 4 <= data.len(),
        data.subrange(pos, pos + 4) == spec_encode_u32(v),
    ensures
        spec_decode_u32(data, pos) == Some((v, pos + 4)),
{
    assert(data[pos] == data.subrange(pos, pos + 4)[0]);
    assert(data[pos + 1] == data.subrange(pos, pos + 4)[1]);
    assert(data[pos + 2] == data.subrange(pos, pos + 4)[2]);
    assert(data[pos + 3] == data.subrange(pos, pos + 4)[3]);
    lemma_be_value_of_bytes(v);
}

/// A string written at `pos` of a byte sequence is read back from there,
/// whatever bytes follow it, unless its length field wraps around (a UTF-8
/// form of 2^32 - 1 bytes or more).
pub proof fn lemma_string_roundtrip(s: Seq<char>, data: Seq<u8>, pos: int)
    requires
        0 <= pos,
        encode_utf8(s).len() + 1 <= u32::MAX,
        pos + spec_encode_string(s).len() <= data.len(),
        data.subrange(pos, pos + spec_encode_string(s).len()) == spec_encode_string(s),
    ensures
        spec_decode_string(data, pos) == (Ok::<Seq<char>, CodecError>(s), pos + spec_encode_string(s).len()),
{
    let bytes = encode_utf8(s);
    let n = bytes.len();
    let wire = spec_encode_string(s);
    assert(wire.len() == n + 5);
    assert(string_len_field(n) == n + 1);
    assert(data.subrange(pos, pos + 4) == wire.subrange(0, 4));
    assert(wire.subrange(0, 4) == spec_encode_u32((n + 1) as u32));
    lemma_u32_roundtrip((n + 1) as u32, data, pos);
    assert(data.subrange(pos + 4, pos + 4 + n) == wire.subrange(4, 4 + n as int));
    assert(wire.subrange(4, 4 + n as int) =~= bytes);
    encode_utf8_valid_utf8(s);
    encode_utf8_decode_utf8(s);
}

/// Appends the bytes of `bytes` to `buf`.
fn append_bytes(buf: &mut Vec<u8>, bytes: &[u8])
    ensures
        final(buf)@ == old(buf)@ + bytes@,
{
    let mut i: usize = 0;
    while i < bytes.len()
        invariant
            i <= bytes@.len(),
            buf@ == old(buf)@ + bytes@.subrange(0, i as int),
        decreases bytes@.len() - i,
    {
        buf.push(bytes[i]);
        i = i + 1;
        assert(bytes@.subrange(0, i as int) == bytes@.subrange(0, i - 1) + seq![bytes@[i - 1]]);
    }
    assert(bytes@.subrange(0, bytes@.len() as int) == bytes@);
}

/// Write a u32 in big-endian to a buffer.
pub fn encode_u32(buf: &mut Vec<u8>, val: u32)
    ensures
        final(buf)@ == old(buf)@ + spec_encode_u32(val),
{
    buf.push((val >> 24u32) as u8);
    buf.push(((val >> 16u32) & 0xffu32) as u8);
    buf.push(((val >> 8u32) & 0xffu32) as u8);
    buf.push((val & 0xffu32) as u8);
    assert(final(buf)@ =~= old(buf)@ + spec_encode_u32(val));
}

/// Read a u32 in big-endian from a cursor.
pub fn decode_u32(cursor: &mut Cursor) -> (r: Result<u32, CodecError>)
    ensures
        final(cursor).data() == old(cursor).data(),
        match spec_decode_u32(old(cursor).data(), old(cursor).pos()) {
            Some((v, p)) => r == Ok::<u32, CodecError>(v) && final(cursor).pos() == p,
            None => r == Err::<u32, CodecError>(CodecError::UnexpectedEofU32) && final(cursor).pos()
                == old(cursor).pos(),
        },
{
    proof {
        use_type_invariant(&*cursor);
    }
    let pos = cursor.pos;
    let data = cursor.data;
    if data.len() - pos < 4 {
        return Err(CodecError::UnexpectedEofU32);
    }
    let b0 = data[pos];
    let b1 = data[pos + 1];
    let b2 = data[pos + 2];
    let b3 = data[pos + 3];
    let val = ((b0 as u32) << 24u32) | ((b1 as u32) << 16u32) | ((b2 as u32) << 8u32) | (b3 as u32);
    cursor.pos = pos + 4;
    Ok(val)
}

/// Write a length-prefixed string (the length counts the NUL terminator).
pub fn encode_string(buf: &mut Vec<u8>, s: &str)
    ensures
        final(buf)@ == old(buf)@ + spec_encode_string(s@),
{
    let bytes = s.as_bytes();
    let n = bytes.len() as u64;
    let len: u32 = (((n % 0x1_0000_0000u64) + 1) % 0x1_0000_0000u64) as u32;
    assert(len == string_len_field(encode_utf8(s@).len()));
    encode_u32(buf, len);
    append_bytes(buf, bytes);
    buf.push(0u8);
    assert(final(buf)@ =~= old(buf)@ + spec_encode_string(s@));
}

/// Read a length-prefixed string.
pub fn decode_string(cursor: &mut Cursor) -> (r: Result<String, CodecError>)
    ensures
        final(cursor).data() == old(cursor).data(),
        final(cursor).pos() == spec_decode_string(old(cursor).data(), old(cursor).pos()).1,
        match spec_decode_string(old(cursor).data(), old(cursor).pos()).0 {
            Ok(chars) => r matches Ok(s) && s@ == chars,
            Err(e) => r == Err::<String, CodecError>(e),
        },
{
    let len = decode_u32(cursor)?;
    if len == 0 {
        return Ok(String::new());
    }
    proof {
        use_type_invariant(&*cursor);
    }
    let pos = cursor.pos;
    let data = cursor.data;
    let n = len as usize;
    if n > data.len() - pos {
        return Err(CodecError::UnexpectedEofString { len });
    }
    let body = &data[pos..pos + n - 1];
    match utf8_str(body) {
        Some(text) => {
            let s = text.to_owned();
            cursor.pos = pos + n;
            Ok(s)
        },
        None => Err(CodecError::InvalidUtf8),
    }
}

/// Calls `std::str::from_utf8`. Its documentation: the bytes are returned as a
/// string slice exactly when they are valid UTF-8; the slice holds the
/// characters those bytes encode.
#[verifier::external_body]
pub(crate) fn utf8_str(bytes: &[u8]) -> (r: Option<&str>)
    ensures
        r is Some <==> valid_utf8(bytes@),
        r matches Some(s) ==> s@ == decode_utf8(bytes@),
{
    std::str::from_utf8(bytes).ok()
}


/// A string read at `pos` is the UTF-8 text of the bytes after its length
/// field, minus the last of the `len` counted bytes (the terminator); the
/// cursor then stands after all `len` bytes. A zero length reads as the
/// empty string right after the field.
pub proof fn lemma_decode_string_layout(data: Seq<u8>, pos: int)
    requires
        0 <= pos,
        pos + 4 <= data.len(),
    ensures
        ({
            let len = be_value(data[pos], data[pos + 1], data[pos + 2], data[pos + 3]) as int;
            let r = spec_decode_string(data, pos);
            &&& len == 0 ==> r.0 == Ok::<Seq<char>, CodecError>(Seq::empty()) && r.1 == pos + 4
            &&& len > 0 && pos + 4 + len > data.len() ==> r.0 == Err::<Seq<char>, CodecError>(
                CodecError::UnexpectedEofString { len: len as u32 },
            ) && r.1 == pos + 4
            &&& r.0 is Ok && len > 0 ==> {
                &&& pos + 4 + len <= data.len()
                &&& encode_utf8(r.0->Ok_0) == data.subrange(pos + 4, pos + 4 + len - 1)
                &&& r.1 == pos + 4 + len
            }
        }),
{
    let len = be_value(data[pos], data[pos + 1], data[pos + 2], data[pos + 3]) as int;
    if len > 0 && pos + 4 + len <= data.len() {
        let body = data.subrange(pos + 4, pos + 4 + len - 1);
        if valid_utf8(body) {
            decode_utf8_encode_utf8(body);
        }
    }
}

} // verus!
