//! Wire-format codec for the remote-console protocol.
//!
//! A packet is `size (4B LE i32) || id (4B LE i32) || type (4B LE i32) ||
//! content bytes || 0x00 0x00`, where `size` counts every byte after the
//! size field itself.

use vstd::prelude::*;
use vstd::bytes::{
    lemma_auto_spec_u32_to_from_le_bytes, spec_u32_from_le_bytes, spec_u32_to_le_bytes,
    u32_from_le_bytes, u32_to_le_bytes,
};
use vstd::slice::slice_subrange;
use vstd::utf8::{decode_utf8, encode_scalar, encode_utf8, valid_utf8};
use crate::rcon::RconRequestError;

verus! {

/// Largest announced packet size for which a short read is still an error.
pub const MAX_PACKET_SIZE: usize = 4096;

/// Bytes of a packet that are not content: size, id, type, terminator.
pub const MIN_PACKET_SIZE: usize = 10;

/// Byte budget for buffered console output: what fits beside the
/// non-content bytes of a maximum-size packet.
pub const MAX_CONTENT_SIZE: usize = 4096 - 10;

/// Request type: authenticate with the server password.
pub const SERVERDATA_AUTH: i32 = 3;

/// Request type: run a command or query buffered console output.
pub const SERVERDATA_EXECCOMMAND: i32 = 2;

/// Response type echoed for an authentication attempt.
pub const SERVERDATA_AUTH_RESPONSE: i32 = 2;

/// Response type carrying command or console output.
pub const SERVERDATA_RESPONSE_VALUE: i32 = 0;

/// The unsigned 32-bit value with the same bit pattern as `x`.
pub open spec fn i32_as_u32(x: i32) -> u32 {
    if x >= 0 {
        x as u32
    } else {
        (x + 0x1_0000_0000) as u32
    }
}

/// The signed 32-bit value with the same bit pattern as `u`.
pub open spec fn u32_as_i32(u: u32) -> i32 {
    if u < 0x8000_0000 {
        u as i32
    } else {
        (u - 0x1_0000_0000) as i32
    }
}

/// The four little-endian bytes of `x`.
pub open spec fn i32_le_bytes(x: i32) -> Seq<u8> {
    spec_u32_to_le_bytes(i32_as_u32(x))
}

/// The signed 32-bit value read from four little-endian bytes.
pub open spec fn le_bytes_i32(b: Seq<u8>) -> i32 {
    u32_as_i32(spec_u32_from_le_bytes(b))
}

pub proof fn lemma_i32_le_bytes_roundtrip(x: i32)
    ensures
        i32_le_bytes(x).len() == 4,
        le_bytes_i32(i32_le_bytes(x)) == x,
{
    lemma_auto_spec_u32_to_from_le_bytes();
    let u = i32_as_u32(x);
    assert(spec_u32_to_le_bytes(u).len() == 4);
    assert(spec_u32_from_le_bytes(spec_u32_to_le_bytes(u)) == u);
    if x >= 0 {
        assert(u == x as int);
        assert(u32_as_i32(u) == x);
    } else {
        assert(u == x + 0x1_0000_0000);
        assert(u >= 0x8000_0000);
        assert(u32_as_i32(u) == x);
    }
}

fn i32_bits_to_u32(x: i32) -> (u: u32)
    ensures
        u == i32_as_u32(x),
{
    if x >= 0 {
        x as u32
    } else {
        (((x + 0x7FFF_FFFF) + 1) as u32) + 0x8000_0000
    }
}

fn u32_bits_to_i32(u: u32) -> (x: i32)
    ensures
        x == u32_as_i32(u),
{
    if u < 0x8000_0000 {
        u as i32
    } else {
        (((u - 0x8000_0000) as i32) - 0x7FFF_FFFF) - 1
    }
}

/// Append the four little-endian bytes of `x` to `out`.
pub fn push_i32_le(out: &mut Vec<u8>, x: i32)
    ensures
        final(out)@ == old(out)@ + i32_le_bytes(x),
{
    let mut b = u32_to_le_bytes(i32_bits_to_u32(x));
    out.append(&mut b);
}

/// Read the signed 32-bit value from four little-endian bytes.
pub fn read_i32_le(b: &[u8]) -> (x: i32)
    requires
        b@.len() == 4,
    ensures
        x == le_bytes_i32(b@),
{
    u32_bits_to_i32(u32_from_le_bytes(b))
}

/// `b` with every NUL byte removed.
pub open spec fn strip_nul(b: Seq<u8>) -> Seq<u8> {
    b.filter(|x: u8| x != 0)
}

/// `s` with every NUL character removed.
pub open spec fn strip_nul_chars(s: Seq<char>) -> Seq<char> {
    s.filter(|c: char| c != '\0')
}

fn strip_nul_bytes(b: &[u8]) -> (r: Vec<u8>)
    ensures
        r@ == strip_nul(b@),
{
    let mut r: Vec<u8> = Vec::new();
    let mut i: usize = 0;
    while i < b.len()
        invariant
            i <= b@.len(),
            r@ == b@.take(i as int).filter(|x: u8| x != 0),
        decreases b@.len() - i,
    {
        let x = *vstd::slice::slice_index_get(b, i);
        proof {
            reveal(Seq::filter);
            assert(b@.take(i + 1).drop_last() =~= b@.take(i as int));
            assert(b@.take(i + 1).last() == b@[i as int]);
        }
        if x != 0 {
            r.push(x);
        }
        i = i + 1;
    }
    proof {
        assert(b@.take(b@.len() as int) =~= b@);
    }
    r
}

/// The characters that the lossy UTF-8 decoding of `bytes` yields;
/// invalid sequences become replacement characters.
pub uninterp spec fn utf8_lossy(bytes: Seq<u8>) -> Seq<char>;

/// Relies on `String::from_utf8_lossy`: decodes valid UTF-8 exactly and
/// depends on the input bytes alone.
#[verifier::external_body]
fn utf8_lossy_to_string(bytes: &[u8]) -> (r: String)
    ensures
        r@ == utf8_lossy(bytes@),
        valid_utf8(bytes@) ==> r@ == decode_utf8(bytes@),
{
    String::from_utf8_lossy(bytes).to_string()
}

/// Everything after the size field of a packet: id, type, content bytes,
/// and the two-NUL terminator.
pub open spec fn packet_body(id: i32, ty: i32, content: Seq<char>) -> Seq<u8> {
    i32_le_bytes(id) + i32_le_bytes(ty) + encode_utf8(content) + seq![0u8, 0u8]
}

/// A byte count as the wire's signed 32-bit size field; counts that do
/// not fit wrap, as a plain narrowing of the machine length does.
pub open spec fn wrapped_size(n: int) -> i32
    recommends
        n >= 0,
{
    u32_as_i32((n % 0x1_0000_0000) as u32)
}

/// The full wire image of a packet: size field, then the body.
pub open spec fn packet_bytes(id: i32, ty: i32, content: Seq<char>) -> Seq<u8> {
    i32_le_bytes(wrapped_size(packet_body(id, ty, content).len() as int)) + packet_body(
        id,
        ty,
        content,
    )
}

/// Encode one packet: `id (4B LE) || ty (4B LE) || content || 0x00 0x00`,
/// prefixed with the byte length of all of that as a 4-byte little-endian
/// signed size field.
pub fn encode_packet(id: i32, ty: i32, content: &str) -> (r: Vec<u8>)
    ensures
        r@ == packet_bytes(id, ty, content@),
{
    let mut body: Vec<u8> = Vec::new();
    push_i32_le(&mut body, id);
    push_i32_le(&mut body, ty);
    body.extend_from_slice(content.as_bytes());
    body.push(0);
    body.push(0);
    proof {
        assert(body@ =~= packet_body(id, ty, content@));
    }
    let low = (body.len() as u64) % 0x1_0000_0000u64;
    let size = u32_bits_to_i32(low as u32);
    let mut r: Vec<u8> = Vec::new();
    push_i32_le(&mut r, size);
    r.append(&mut body);
    r
}

/// Interpret the first read of a packet: exactly four bytes announcing
/// the byte count of everything that follows.
///
/// `size_buf` is the four-byte read buffer and `bytes_read` what the read
/// call reported. Fewer than four bytes is a framing error; a negative
/// announced size cannot be a length.
pub fn decode_size(size_buf: &[u8], bytes_read: usize) -> (r: Result<usize, RconRequestError>)
    requires
        size_buf@.len() == 4,
    ensures
        bytes_read != 4 ==> r == Err::<usize, RconRequestError>(
            RconRequestError::ReadWrongAmount(bytes_read),
        ),
        bytes_read == 4 && le_bytes_i32(size_buf@) < 0 ==> r == Err::<usize, RconRequestError>(
            RconRequestError::IntCastFail,
        ),
        bytes_read == 4 && le_bytes_i32(size_buf@) >= 0 ==> r == Ok::<usize, RconRequestError>(
            le_bytes_i32(size_buf@) as usize,
        ),
{
    if bytes_read != 4 {
        return Err(RconRequestError::ReadWrongAmount(bytes_read));
    }
    let v = read_i32_le(size_buf);
    if v < 0 {
        return Err(RconRequestError::IntCastFail);
    }
    Ok(v as usize)
}

/// Whether a body read of `bytes_read` bytes against a buffer of the
/// announced size is complete enough to parse: short reads are fatal
/// unless the announced size was larger than any packet may be.
pub open spec fn body_read_ok(len: int, bytes_read: int) -> bool {
    bytes_read == len || len > MAX_PACKET_SIZE
}

/// Split a packet body into its fields: the first four bytes as the
/// little-endian client id, the next four as the request type, and the
/// rest lossily decoded as the UTF-8 content, with every NUL character
/// then stripped out of the decoded text.
///
/// `buf` is the body read buffer, sized to the announced packet size and
/// zero beyond what the read filled; `bytes_read` is what the read call
/// reported. A short read fails unless the announced size exceeded
/// [`MAX_PACKET_SIZE`]; a body too small for the two integer fields fails.
pub fn decode_body(buf: &Vec<u8>, bytes_read: usize) -> (r: Result<
    (i32, i32, String),
    RconRequestError,
>)
    ensures
        !body_read_ok(buf@.len() as int, bytes_read as int) ==> r == Err::<
            (i32, i32, String),
            RconRequestError,
        >(RconRequestError::ReadWrongAmount(bytes_read)),
        body_read_ok(buf@.len() as int, bytes_read as int) && buf@.len() < 8 ==> r == Err::<
            (i32, i32, String),
            RconRequestError,
        >(RconRequestError::VecToArrayError),
        r is Ok <==> body_read_ok(buf@.len() as int, bytes_read as int) && buf@.len() >= 8,
        r matches Ok(t) ==> {
            &&& t.0 == le_bytes_i32(buf@.subrange(0, 4))
            &&& t.1 == le_bytes_i32(buf@.subrange(4, 8))
            &&& t.2@ == strip_nul_chars(utf8_lossy(buf@.skip(8)))
            &&& !t.2@.contains('\0')
            &&& valid_utf8(buf@.skip(8)) ==> t.2@ == strip_nul_chars(
                decode_utf8(buf@.skip(8)),
            )
        },
{
    if bytes_read != buf.len() && buf.len() <= MAX_PACKET_SIZE {
        return Err(RconRequestError::ReadWrongAmount(bytes_read));
    }
    if buf.len() < 8 {
        return Err(RconRequestError::VecToArrayError);
    }
    let client_id = read_i32_le(slice_subrange(buf.as_slice(), 0, 4));
    let request_type = read_i32_le(slice_subrange(buf.as_slice(), 4, 8));
    let rest = slice_subrange(buf.as_slice(), 8, buf.len());
    let decoded = utf8_lossy_to_string(rest);
    // The decoded text is valid UTF-8, so dropping its NUL characters is
    // the same as dropping the NUL bytes of its encoding and reading the
    // rest back.
    let stripped = strip_nul_bytes(decoded.as_str().as_bytes());
    let content = utf8_lossy_to_string(stripped.as_slice());
    proof {
        let d = decoded@;
        lemma_strip_nul_encode(d);
        vstd::utf8::encode_utf8_valid_utf8(strip_nul_chars(d));
        vstd::utf8::encode_utf8_decode_utf8(strip_nul_chars(d));
        lemma_strip_nul_chars_no_nul(d);
    }
    Ok((client_id, request_type, content))
}

proof fn lemma_strip_nul_all_nonzero(s: Seq<u8>)
    requires
        forall|i: int| 0 <= i < s.len() ==> s[i] != 0,
    ensures
        strip_nul(s) == s,
    decreases s.len(),
{
    reveal(Seq::filter);
    if s.len() == 0 {
        assert(strip_nul(s) =~= s);
    } else {
        lemma_strip_nul_all_nonzero(s.drop_last());
        assert(strip_nul(s) =~= s);
    }
}

proof fn lemma_strip_nul_chars_clean(s: Seq<char>)
    requires
        !s.contains('\0'),
    ensures
        strip_nul_chars(s) == s,
    decreases s.len(),
{
    reveal(Seq::filter);
    if s.len() == 0 {
        assert(strip_nul_chars(s) =~= s);
    } else {
        assert(!s.drop_last().contains('\0')) by {
            if s.drop_last().contains('\0') {
                let j = choose|j: int|
                    0 <= j < s.drop_last().len() && s.drop_last()[j] == '\0';
                assert(s[j] == '\0');
            }
        }
        assert(s.last() != '\0') by {
            if s.last() == '\0' {
                assert(s[s.len() - 1] == '\0');
            }
        }
        lemma_strip_nul_chars_clean(s.drop_last());
        assert(strip_nul_chars(s) =~= s);
    }
}

proof fn lemma_strip_nul_chars_no_nul(s: Seq<char>)
    ensures
        !strip_nul_chars(s).contains('\0'),
    decreases s.len(),
{
    reveal(Seq::filter);
    if s.len() == 0 {
        assert(strip_nul_chars(s) =~= Seq::<char>::empty());
    } else {
        lemma_strip_nul_chars_no_nul(s.drop_last());
        let front = strip_nul_chars(s.drop_last());
        if strip_nul_chars(s).contains('\0') {
            let i = choose|i: int|
                0 <= i < strip_nul_chars(s).len() && strip_nul_chars(s)[i] == '\0';
            if s.last() != '\0' && i == strip_nul_chars(s).len() - 1 {
                assert(strip_nul_chars(s).last() == s.last());
            } else {
                assert(strip_nul_chars(s)[i] == front[i]);
                assert(front.contains('\0'));
            }
        }
    }
}

proof fn lemma_encode_utf8_snoc(cs: Seq<char>, c: char)
    ensures
        encode_utf8(cs.push(c)) == encode_utf8(cs) + encode_scalar(c as u32),
    decreases cs.len(),
{
    if cs.len() == 0 {
        assert(cs =~= Seq::<char>::empty());
        assert(cs.push(c).first() == c);
        assert(cs.push(c).drop_first() =~= Seq::<char>::empty());
        assert(encode_utf8(Seq::<char>::empty()) =~= Seq::<u8>::empty());
        assert(encode_utf8(cs.push(c)) == encode_scalar(c as u32) + Seq::<u8>::empty());
        assert(encode_scalar(c as u32) + Seq::<u8>::empty() =~= encode_scalar(c as u32));
        assert(encode_utf8(cs) + encode_scalar(c as u32) =~= encode_scalar(c as u32));
    } else {
        assert(cs.push(c).first() == cs.first());
        assert(cs.push(c).drop_first() =~= cs.drop_first().push(c));
        lemma_encode_utf8_snoc(cs.drop_first(), c);
        let head = encode_scalar(cs.first() as u32);
        let mid = encode_utf8(cs.drop_first());
        let tail = encode_scalar(c as u32);
        assert(encode_utf8(cs.push(c)) == head + (mid + tail));
        assert(encode_utf8(cs) == head + mid);
        assert(head + (mid + tail) =~= (head + mid) + tail);
    }
}

proof fn lemma_encode_scalar_nul()
    ensures
        encode_scalar('\0' as u32) == seq![0u8],
{
    assert(('\0' as u32) == 0) by {
        vstd::utf8::char_u32_cast('\0', '\0' as u32);
        if ('\0' as u32) != 0 {
            assert((0u32 as char) == '\0');
        }
    }
    assert(0u32 & 0x7F == 0) by (bit_vector);
    assert(encode_scalar(0u32) =~= seq![0u8]);
}

/// Stripping the NUL bytes out of a UTF-8 encoding is the same as
/// encoding the text with its NUL characters stripped: NUL bytes occur
/// in UTF-8 exactly as the one-byte encoding of the NUL character.
proof fn lemma_strip_nul_encode(cs: Seq<char>)
    ensures
        strip_nul(encode_utf8(cs)) == encode_utf8(strip_nul_chars(cs)),
    decreases cs.len(),
{
    reveal(Seq::filter);
    if cs.len() == 0 {
        assert(strip_nul(encode_utf8(cs)) =~= Seq::<u8>::empty());
        assert(strip_nul_chars(cs) =~= Seq::<char>::empty());
    } else {
        let front = cs.drop_last();
        let c = cs.last();
        lemma_strip_nul_encode(front);
        assert(cs =~= front.push(c));
        lemma_encode_utf8_snoc(front, c);
        Seq::filter_distributes_over_add(encode_utf8(front), encode_scalar(c as u32), |x: u8| x != 0);
        if c == '\0' {
            lemma_encode_scalar_nul();
            assert(seq![0u8].drop_last() =~= Seq::<u8>::empty());
            assert(strip_nul(Seq::<u8>::empty()) =~= Seq::<u8>::empty());
            assert(seq![0u8].last() == 0u8);
            assert(strip_nul(seq![0u8]) =~= Seq::<u8>::empty());
            assert(strip_nul_chars(cs) == strip_nul_chars(front));
            assert(strip_nul(encode_utf8(cs)) =~= encode_utf8(strip_nul_chars(cs)));
        } else {
            lemma_encode_scalar_no_nul(c);
            lemma_strip_nul_all_nonzero(encode_scalar(c as u32));
            assert(strip_nul_chars(cs) == strip_nul_chars(front).push(c));
            lemma_encode_utf8_snoc(strip_nul_chars(front), c);
            assert(strip_nul(encode_utf8(cs)) =~= encode_utf8(strip_nul_chars(cs)));
        }
    }
}

proof fn lemma_encode_scalar_no_nul(c: char)
    requires
        c != '\0',
    ensures
        forall|i: int|
            0 <= i < encode_scalar(c as u32).len() ==> #[trigger] encode_scalar(c as u32)[i]
                != 0,
{
    let s = c as u32;
    vstd::utf8::char_is_scalar(c);
    assert(s != 0) by {
        if s == 0 {
            vstd::utf8::char_u32_cast(c, 0u32);
            assert((0u32 as char) == '\0');
        }
    }
    assert(s <= 0x7F && s != 0 ==> (s & 0x7F) != 0) by (bit_vector);
    assert(forall|x: u8| #[trigger] (0xC0u8 | x) != 0) by (bit_vector);
    assert(forall|x: u8| #[trigger] (0xE0u8 | x) != 0) by (bit_vector);
    assert(forall|x: u8| #[trigger] (0xF0u8 | x) != 0) by (bit_vector);
    assert(forall|x: u8| #[trigger] (0x80u8 | x) != 0) by (bit_vector);
}

proof fn lemma_strip_nul_chars_terminator(content: Seq<char>)
    requires
        !content.contains('\0'),
    ensures
        strip_nul_chars(content.push('\0').push('\0')) == content,
{
    reveal(Seq::filter);
    let t1 = content.push('\0');
    let t2 = t1.push('\0');
    assert(t2.drop_last() =~= t1);
    assert(t2.last() == '\0');
    assert(strip_nul_chars(t2) == strip_nul_chars(t1));
    assert(t1.drop_last() =~= content);
    assert(t1.last() == '\0');
    assert(strip_nul_chars(t1) == strip_nul_chars(content));
    lemma_strip_nul_chars_clean(content);
}

/// Law: encoding a packet and decoding it again gives back the id, the
/// type, and — as long as the content holds no NUL character and fits a
/// packet — the content, exactly.
///
/// The conclusions match what [`decode_size`] and [`decode_body`] promise
/// of the encoded bytes: the size field announces the body exactly, the
/// body parses, its remainder is valid UTF-8, and decoding it and
/// stripping the NUL characters — which here are exactly the two
/// terminator bytes — gives `content` back.
#[verifier::rlimit(50)]
pub proof fn lemma_packet_roundtrip(id: i32, ty: i32, content: Seq<char>)
    requires
        !content.contains('\0'),
        encode_utf8(content).len() + 10 <= 0x7FFF_FFFF,
    ensures
        ({
            let p = packet_bytes(id, ty, content);
            let body = p.skip(4);
            &&& p.len() == encode_utf8(content).len() + 14
            &&& le_bytes_i32(p.subrange(0, 4)) == body.len()
            &&& body.len() >= 8
            &&& body_read_ok(body.len() as int, body.len() as int)
            &&& le_bytes_i32(body.subrange(0, 4)) == id
            &&& le_bytes_i32(body.subrange(4, 8)) == ty
            &&& valid_utf8(body.skip(8))
            &&& strip_nul_chars(decode_utf8(body.skip(8))) == content
        }),
{
    let enc = encode_utf8(content);
    let pb = packet_body(id, ty, content);
    let p = packet_bytes(id, ty, content);
    lemma_i32_le_bytes_roundtrip(id);
    lemma_i32_le_bytes_roundtrip(ty);
    assert(pb.len() == enc.len() + 10);
    let sz = wrapped_size(pb.len() as int);
    lemma_i32_le_bytes_roundtrip(sz);
    assert(pb.len() as int % 0x1_0000_0000 == pb.len() as int);
    assert(sz == pb.len());
    let body = p.skip(4);
    assert(p.subrange(0, 4) =~= i32_le_bytes(sz));
    assert(body =~= pb);
    assert(body.subrange(0, 4) =~= i32_le_bytes(id));
    assert(body.subrange(4, 8) =~= i32_le_bytes(ty));
    assert(body.skip(8) =~= enc + seq![0u8, 0u8]);
    // The terminator is the encoding of two NUL characters, so the whole
    // remainder is the encoding of the content with two NULs appended.
    let terminated = content.push('\0').push('\0');
    lemma_encode_utf8_snoc(content, '\0');
    lemma_encode_utf8_snoc(content.push('\0'), '\0');
    lemma_encode_scalar_nul();
    assert(encode_utf8(terminated) =~= enc + seq![0u8, 0u8]);
    vstd::utf8::encode_utf8_valid_utf8(terminated);
    vstd::utf8::encode_utf8_decode_utf8(terminated);
    assert(decode_utf8(body.skip(8)) == terminated);
    lemma_strip_nul_chars_terminator(content);
}

} // verus!
