use crate::error::DecodeError;
use vstd::prelude::*;

verus! {

/// The logical byte that the escape pair `0x01, b1` stands for.
/// `0x01, 0x02` is `0x00` and `0x01, 0x03` is `0xFF`; `0x01, 0x01` and every
/// unknown second byte give back the introducer `0x01`.
pub open spec fn unescape(b1: u8) -> u8 {
    if b1 == 2 {
        0
    } else if b1 == 3 {
        0xff
    } else {
        1
    }
}

/// One logical byte read at raw position `p` of `s`, with the position after it,
/// or `None` when `s` ends before the byte (or its escape pair) is complete.
pub open spec fn escaped_at(s: Seq<u8>, p: int) -> Option<(u8, int)> {
    if p < 0 || p >= s.len() {
        None
    } else if s[p] != 1 {
        Some((s[p], p + 1))
    } else if p + 1 >= s.len() {
        None
    } else {
        Some((unescape(s[p + 1]), p + 2))
    }
}

/// `n` logical bytes read one after the other from raw position `p`.
pub open spec fn escaped_bytes(s: Seq<u8>, p: int, n: nat) -> Option<(Seq<u8>, int)>
    decreases n,
{
    if n == 0 {
        Some((Seq::empty(), p))
    } else {
        match escaped_bytes(s, p, (n - 1) as nat) {
            Some((b, q)) => match escaped_at(s, q) {
                Some((x, q2)) => Some((b.push(x), q2)),
                None => None,
            },
            None => None,
        }
    }
}

/// The little-endian value of the first four bytes of `b`.
pub open spec fn le_u32_value(b: Seq<u8>) -> int {
    b[0] as int + 256 * b[1] as int + 65536 * b[2] as int + 16777216 * b[3] as int
}

/// The little-endian value of the first two bytes of `b`.
pub open spec fn le_u16_value(b: Seq<u8>) -> int {
    b[0] as int + 256 * b[1] as int
}

/// A 32-bit little-endian integer made of four logical bytes at `p`.
pub open spec fn u32_at(s: Seq<u8>, p: int) -> Option<(u32, int)> {
    match escaped_bytes(s, p, 4) {
        Some((b, q)) => Some((le_u32_value(b) as u32, q)),
        None => None,
    }
}

/// A length-prefixed string at `p`: one logical length byte, then that many
/// logical bytes, read as lossy UTF-8.
pub open spec fn lp_string_at(s: Seq<u8>, p: int) -> Option<(Seq<char>, int)> {
    match escaped_at(s, p) {
        Some((n, q)) => match escaped_bytes(s, q, n as nat) {
            Some((b, q2)) => Some((utf8_lossy(b), q2)),
            None => None,
        },
        None => None,
    }
}

/// The text that lossy UTF-8 decoding makes of a byte sequence.
pub uninterp spec fn utf8_lossy(b: Seq<u8>) -> Seq<char>;

/// Relies on `String::from_utf8_lossy`, which depends on the bytes alone.
#[verifier::external_body]
pub(crate) fn lossy_text(b: &[u8]) -> (r: String)
    ensures
        r@ == utf8_lossy(b@),
{
    String::from_utf8_lossy(b).into_owned()
}

/// Relies on byteorder's `LittleEndian::read_u32`, which reads `b[..4]` as a
/// little-endian integer and panics on fewer than four bytes.
#[verifier::external_body]
pub(crate) fn le_u32(b: &[u8]) -> (r: u32)
    requires
        b@.len() >= 4,
    ensures
        r as int == le_u32_value(b@),
{
    <byteorder::LittleEndian as byteorder::ByteOrder>::read_u32(b)
}

/// Relies on byteorder's `LittleEndian::read_u16`, which reads `b[..2]` as a
/// little-endian integer and panics on fewer than two bytes.
#[verifier::external_body]
pub(crate) fn le_u16(b: &[u8]) -> (r: u16)
    requires
        b@.len() >= 2,
    ensures
        r as int == le_u16_value(b@),
{
    <byteorder::LittleEndian as byteorder::ByteOrder>::read_u16(b)
}

/// A read position over a byte buffer whose contents use the escape scheme.
/// Any position is allowed: one at or past the end reads nothing.
pub struct ByteCursor {
    pub data: Vec<u8>,
    pub pos: usize,
}

impl ByteCursor {
    /// A cursor at the start of `data`.
    pub fn new(data: Vec<u8>) -> (r: ByteCursor)
        ensures
            r.data@ == data@,
            r.pos == 0,
    {
        ByteCursor { data, pos: 0 }
    }
}

/// Reads one logical byte, undoing the escape scheme. On failure the cursor
/// does not move.
pub fn read_byte(c: &mut ByteCursor) -> (r: Result<u8, DecodeError>)
    ensures
        final(c).data@ == old(c).data@,
        match escaped_at(old(c).data@, old(c).pos as int) {
            Some((b, q)) => r == Ok::<u8, DecodeError>(b) && final(c).pos == q,
            None => r == Err::<u8, DecodeError>(DecodeError::UnexpectedEndOfInput)
                && final(c).pos == old(c).pos,
        },
{
    let p = c.pos;
    if p >= c.data.len() {
        return Err(DecodeError::UnexpectedEndOfInput);
    }
    let b0 = c.data[p];
    if b0 != 1 {
        c.pos = p + 1;
        return Ok(b0);
    }
    if p + 1 >= c.data.len() {
        return Err(DecodeError::UnexpectedEndOfInput);
    }
    let b1 = c.data[p + 1];
    c.pos = p + 2;
    if b1 == 2 {
        Ok(0)
    } else if b1 == 3 {
        Ok(0xff)
    } else {
        Ok(1)
    }
}

proof fn lemma_escaped_bytes_stays_none(s: Seq<u8>, p: int, k: nat, n: nat)
    requires
        k <= n,
        escaped_bytes(s, p, k) is None,
    ensures
        escaped_bytes(s, p, n) is None,
    decreases n,
{
    if k < n {
        lemma_escaped_bytes_stays_none(s, p, k, (n - 1) as nat);
    }
}

/// Reads `n` logical bytes.
pub fn read_bytes(c: &mut ByteCursor, n: usize) -> (r: Result<Vec<u8>, DecodeError>)
    ensures
        final(c).data@ == old(c).data@,
        match escaped_bytes(old(c).data@, old(c).pos as int, n as nat) {
            Some((b, q)) => r is Ok && r->Ok_0@ == b && final(c).pos == q,
            None => r == Err::<Vec<u8>, DecodeError>(DecodeError::UnexpectedEndOfInput),
        },
        r is Ok ==> r->Ok_0@.len() == n,
{
    let ghost s = c.data@;
    let ghost p0 = c.pos as int;
    let mut out: Vec<u8> = Vec::new();
    let mut i: usize = 0;
    while i < n
        invariant
            i <= n,
            c.data@ == s,
            s == old(c).data@,
            p0 == old(c).pos,
            out@.len() == i,
            escaped_bytes(s, p0, i as nat) == Some((out@, c.pos as int)),
        decreases n - i,
    {
        match read_byte(c) {
            Ok(b) => {
                out.push(b);
            },
            Err(e) => {
                proof {
                    lemma_escaped_bytes_stays_none(s, p0, (i + 1) as nat, n as nat);
                }
                return Err(e);
            },
        }
        i = i + 1;
    }
    Ok(out)
}

/// Reads a 32-bit little-endian integer made of four logical bytes.
pub fn read_uint4(c: &mut ByteCursor) -> (r: Result<u32, DecodeError>)
    ensures
        final(c).data@ == old(c).data@,
        match u32_at(old(c).data@, old(c).pos as int) {
            Some((v, q)) => r == Ok::<u32, DecodeError>(v) && final(c).pos == q,
            None => r == Err::<u32, DecodeError>(DecodeError::UnexpectedEndOfInput),
        },
{
    match read_bytes(c, 4) {
        Ok(b) => Ok(le_u32(b.as_slice())),
        Err(e) => Err(e),
    }
}

/// Reads a length-prefixed string: one logical length byte, then that many
/// logical bytes, decoded as lossy UTF-8.
pub fn read_string(c: &mut ByteCursor) -> (r: Result<String, DecodeError>)
    ensures
        final(c).data@ == old(c).data@,
        match lp_string_at(old(c).data@, old(c).pos as int) {
            Some((t, q)) => r is Ok && r->Ok_0@ == t && final(c).pos == q,
            None => r == Err::<String, DecodeError>(DecodeError::UnexpectedEndOfInput),
        },
{
    let len = match read_byte(c) {
        Ok(n) => n,
        Err(e) => return Err(e),
    };
    match read_bytes(c, len as usize) {
        Ok(buffer) => Ok(lossy_text(buffer.as_slice())),
        Err(e) => Err(e),
    }
}

/// The stuffed form of a byte: the 2-byte escape pair for `0x00`, `0x01` and
/// `0xFF`, the byte itself otherwise.
pub open spec fn stuffed(v: u8) -> Seq<u8> {
    if v == 0 {
        seq![1u8, 2u8]
    } else if v == 1 {
        seq![1u8, 1u8]
    } else if v == 0xff {
        seq![1u8, 3u8]
    } else {
        seq![v]
    }
}

/// Every byte value reads back from its stuffed form, which is consumed whole:
/// `0x00`, `0x01` and `0xFF` from their escape pairs, every other byte from itself.
pub proof fn lemma_stuffed_round_trip(v: u8)
    ensures
        escaped_at(stuffed(v), 0) == Some((v, stuffed(v).len() as int)),
        v != 0 && v != 1 && v != 0xff ==> stuffed(v) == seq![v],
{
}

} // verus!
