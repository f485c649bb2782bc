//! Byte-level building blocks of the Source query wire format: little-endian
//! integers, null-terminated UTF-8 strings, and the decoding error kinds.
//!
//! Decoders work on a whole body and a position in it. Each exec reader has a
//! spec counterpart over `Seq<u8>` and an `int` position, and returns exactly
//! what its counterpart returns.
use vstd::bytes::*;
use vstd::prelude::*;
use vstd::slice::*;
use vstd::utf8::*;

verus! {

broadcast use vstd::seq::group_seq_axioms;

/// Why a body could not be decoded.
#[derive(Debug, Clone, Copy, PartialEq, Eq, Structural)]
pub enum CodecError {
    /// The body ends before the field being read.
    ShortPacket,
    /// The kind byte is not a known kind, or not the one expected.
    BadKind,
    /// A string is not valid UTF-8, a count is negative, or bytes follow
    /// the packet.
    MalformedField,
}

/// A spec-level read: the value and the position just after it.
pub type SpecRead<T> = Result<(T, int), CodecError>;

/// A body holds exactly one packet: a read of the whole body succeeds only if
/// the packet ends at the body's last byte.
pub open spec fn whole<T>(r: SpecRead<T>, len: int) -> SpecRead<T> {
    match r {
        Ok((v, end)) => if end == len {
            Ok((v, end))
        } else {
            Err(CodecError::MalformedField)
        },
        Err(e) => Err(e),
    }
}

/// An exec read seen as a spec-level read.
pub open spec fn lift<T>(r: Result<(T, usize), CodecError>) -> SpecRead<T> {
    match r {
        Ok((v, p)) => Ok((v, p as int)),
        Err(e) => Err(e),
    }
}

/// An exec string read seen as a spec-level read of characters.
pub open spec fn lift_str(r: Result<(String, usize), CodecError>) -> SpecRead<Seq<char>> {
    match r {
        Ok((s, p)) => Ok((s@, p as int)),
        Err(e) => Err(e),
    }
}

/// The value of a spec-level read, without its end position.
pub open spec fn value_of<T>(r: SpecRead<T>) -> Result<T, CodecError> {
    match r {
        Ok((v, _)) => Ok(v),
        Err(e) => Err(e),
    }
}

/// An exec read of a type with a view, seen as a spec-level read of the view.
pub open spec fn lift_view<T: View>(r: Result<(T, usize), CodecError>) -> SpecRead<T::V> {
    match r {
        Ok((v, p)) => Ok((v@, p as int)),
        Err(e) => Err(e),
    }
}

/// A decoding result seen through the view of the decoded value.
pub open spec fn view_result<T: View>(r: Result<T, CodecError>) -> Result<T::V, CodecError> {
    match r {
        Ok(v) => Ok(v@),
        Err(e) => Err(e),
    }
}

/// Where `b` holds `x + y` at `pos`, it holds `x` at `pos` and `y` right after.
pub proof fn lemma_split(b: Seq<u8>, pos: int, x: Seq<u8>, y: Seq<u8>)
    requires
        0 <= pos,
        pos + x.len() + y.len() <= b.len(),
        b.subrange(pos, pos + x.len() + y.len()) == x + y,
    ensures
        b.subrange(pos, pos + x.len()) == x,
        b.subrange(pos + x.len(), pos + x.len() + y.len()) == y,
{
    let whole = b.subrange(pos, pos + x.len() + y.len());
    assert(b.subrange(pos, pos + x.len()) =~= whole.subrange(0, x.len() as int));
    assert((x + y).subrange(0, x.len() as int) =~= x);
    assert(b.subrange(pos + x.len(), pos + x.len() + y.len()) =~= whole.subrange(
        x.len() as int,
        (x.len() + y.len()) as int,
    ));
    assert((x + y).subrange(x.len() as int, (x.len() + y.len()) as int) =~= y);
}

/// Two adjacent ranges of `b` make up the range that spans them.
pub proof fn lemma_join(b: Seq<u8>, a: int, m: int, c: int)
    requires
        0 <= a <= m <= c <= b.len(),
    ensures
        b.subrange(a, m) + b.subrange(m, c) == b.subrange(a, c),
{
    assert(b.subrange(a, m) + b.subrange(m, c) =~= b.subrange(a, c));
}

// ---------------------------------------------------------------------------
// Integers
// ---------------------------------------------------------------------------

/// Little-endian bytes of a signed 16-bit integer.
pub open spec fn i16_bytes(x: i16) -> Seq<u8> {
    spec_u16_to_le_bytes(x as u16)
}

/// Little-endian bytes of a signed 32-bit integer.
pub open spec fn i32_bytes(x: i32) -> Seq<u8> {
    spec_u32_to_le_bytes(x as u32)
}

/// Little-endian bytes of an unsigned 32-bit integer.
pub open spec fn u32_bytes(x: u32) -> Seq<u8> {
    spec_u32_to_le_bytes(x)
}

/// Little-endian bytes of a signed 64-bit integer.
pub open spec fn i64_bytes(x: i64) -> Seq<u8> {
    spec_u64_to_le_bytes(x as u64)
}

pub open spec fn spec_u8_at(b: Seq<u8>, pos: int) -> SpecRead<u8> {
    if 0 <= pos < b.len() {
        Ok((b[pos], pos + 1))
    } else {
        Err(CodecError::ShortPacket)
    }
}

pub open spec fn spec_i16_at(b: Seq<u8>, pos: int) -> SpecRead<i16> {
    if 0 <= pos && pos + 2 <= b.len() {
        Ok((spec_u16_from_le_bytes(b.subrange(pos, pos + 2)) as i16, pos + 2))
    } else {
        Err(CodecError::ShortPacket)
    }
}

pub open spec fn spec_u32_at(b: Seq<u8>, pos: int) -> SpecRead<u32> {
    if 0 <= pos && pos + 4 <= b.len() {
        Ok((spec_u32_from_le_bytes(b.subrange(pos, pos + 4)), pos + 4))
    } else {
        Err(CodecError::ShortPacket)
    }
}

pub open spec fn spec_i32_at(b: Seq<u8>, pos: int) -> SpecRead<i32> {
    match spec_u32_at(b, pos) {
        Ok((u, p)) => Ok((u as i32, p)),
        Err(e) => Err(e),
    }
}

pub open spec fn spec_i64_at(b: Seq<u8>, pos: int) -> SpecRead<i64> {
    if 0 <= pos && pos + 8 <= b.len() {
        Ok((spec_u64_from_le_bytes(b.subrange(pos, pos + 8)) as i64, pos + 8))
    } else {
        Err(CodecError::ShortPacket)
    }
}

pub proof fn lemma_i16_round_trip(x: i16)
    ensures
        i16_bytes(x).len() == 2,
        spec_u16_from_le_bytes(i16_bytes(x)) as i16 == x,
{
    lemma_auto_spec_u16_to_from_le_bytes();
    assert(spec_u16_to_le_bytes(x as u16).len() == 2);
    assert(((x as u16) as i16) == x) by (bit_vector);
}

pub proof fn lemma_i16_bytes_back(s: Seq<u8>)
    requires
        s.len() == 2,
    ensures
        i16_bytes(spec_u16_from_le_bytes(s) as i16) == s,
{
    lemma_auto_spec_u16_to_from_le_bytes();
    let u = spec_u16_from_le_bytes(s);
    assert(((u as i16) as u16) == u) by (bit_vector);
}

pub proof fn lemma_u32_round_trip(x: u32)
    ensures
        u32_bytes(x).len() == 4,
        spec_u32_from_le_bytes(u32_bytes(x)) == x,
{
    lemma_auto_spec_u32_to_from_le_bytes();
    assert(spec_u32_to_le_bytes(x).len() == 4);
}

pub proof fn lemma_u32_bytes_back(s: Seq<u8>)
    requires
        s.len() == 4,
    ensures
        u32_bytes(spec_u32_from_le_bytes(s)) == s,
{
    lemma_auto_spec_u32_to_from_le_bytes();
}

pub proof fn lemma_i32_round_trip(x: i32)
    ensures
        i32_bytes(x).len() == 4,
        spec_u32_from_le_bytes(i32_bytes(x)) as i32 == x,
{
    lemma_auto_spec_u32_to_from_le_bytes();
    assert(spec_u32_to_le_bytes(x as u32).len() == 4);
    assert(((x as u32) as i32) == x) by (bit_vector);
}

pub proof fn lemma_i32_bytes_back(s: Seq<u8>)
    requires
        s.len() == 4,
    ensures
        i32_bytes(spec_u32_from_le_bytes(s) as i32) == s,
{
    lemma_auto_spec_u32_to_from_le_bytes();
    let u = spec_u32_from_le_bytes(s);
    assert(((u as i32) as u32) == u) by (bit_vector);
}

pub proof fn lemma_i64_round_trip(x: i64)
    ensures
        i64_bytes(x).len() == 8,
        spec_u64_from_le_bytes(i64_bytes(x)) as i64 == x,
{
    lemma_auto_spec_u64_to_from_le_bytes();
    assert(spec_u64_to_le_bytes(x as u64).len() == 8);
    assert(((x as u64) as i64) == x) by (bit_vector);
}

pub proof fn lemma_i64_bytes_back(s: Seq<u8>)
    requires
        s.len() == 8,
    ensures
        i64_bytes(spec_u64_from_le_bytes(s) as i64) == s,
{
    lemma_auto_spec_u64_to_from_le_bytes();
    let u = spec_u64_from_le_bytes(s);
    assert(((u as i64) as u64) == u) by (bit_vector);
}

pub fn read_u8(b: &[u8], pos: usize) -> (r: Result<(u8, usize), CodecError>)
    ensures
        lift(r) == spec_u8_at(b@, pos as int),
{
    if pos < b.len() {
        Ok((b[pos], pos + 1))
    } else {
        Err(CodecError::ShortPacket)
    }
}

pub fn read_i16(b: &[u8], pos: usize) -> (r: Result<(i16, usize), CodecError>)
    ensures
        lift(r) == spec_i16_at(b@, pos as int),
{
    if pos <= b.len() && b.len() - pos >= 2 {
        let u = u16_from_le_bytes(slice_subrange(b, pos, pos + 2));
        Ok((u as i16, pos + 2))
    } else {
        Err(CodecError::ShortPacket)
    }
}

pub fn read_u32(b: &[u8], pos: usize) -> (r: Result<(u32, usize), CodecError>)
    ensures
        lift(r) == spec_u32_at(b@, pos as int),
{
    if pos <= b.len() && b.len() - pos >= 4 {
        let u = u32_from_le_bytes(slice_subrange(b, pos, pos + 4));
        Ok((u, pos + 4))
    } else {
        Err(CodecError::ShortPacket)
    }
}

pub fn read_i32(b: &[u8], pos: usize) -> (r: Result<(i32, usize), CodecError>)
    ensures
        lift(r) == spec_i32_at(b@, pos as int),
{
    match read_u32(b, pos) {
        Ok((u, p)) => Ok((u as i32, p)),
        Err(e) => Err(e),
    }
}

pub fn read_i64(b: &[u8], pos: usize) -> (r: Result<(i64, usize), CodecError>)
    ensures
        lift(r) == spec_i64_at(b@, pos as int),
{
    if pos <= b.len() && b.len() - pos >= 8 {
        let u = u64_from_le_bytes(slice_subrange(b, pos, pos + 8));
        Ok((u as i64, pos + 8))
    } else {
        Err(CodecError::ShortPacket)
    }
}

/// Appends `bytes` to `out`.
pub fn write_bytes(out: &mut Vec<u8>, bytes: &[u8])
    ensures
        final(out)@ == old(out)@ + bytes@,
{
    let mut i: usize = 0;
    while i < bytes.len()
        invariant
            i <= bytes@.len(),
            out@ == old(out)@ + bytes@.subrange(0, i as int),
        decreases bytes@.len() - i,
    {
        out.push(bytes[i]);
        i = i + 1;
        assert(bytes@.subrange(0, i as int) =~= bytes@.subrange(0, i - 1) + seq![bytes@[i - 1]]);
    }
    assert(bytes@.subrange(0, i as int) =~= bytes@);
}

pub fn write_i16(out: &mut Vec<u8>, x: i16)
    ensures
        final(out)@ == old(out)@ + i16_bytes(x),
{
    let v = u16_to_le_bytes(x as u16);
    write_bytes(out, v.as_slice());
}

pub fn write_u32(out: &mut Vec<u8>, x: u32)
    ensures
        final(out)@ == old(out)@ + u32_bytes(x),
{
    let v = u32_to_le_bytes(x);
    write_bytes(out, v.as_slice());
}

pub fn write_i32(out: &mut Vec<u8>, x: i32)
    ensures
        final(out)@ == old(out)@ + i32_bytes(x),
{
    write_u32(out, x as u32);
}

pub fn write_i64(out: &mut Vec<u8>, x: i64)
    ensures
        final(out)@ == old(out)@ + i64_bytes(x),
{
    let v = u64_to_le_bytes(x as u64);
    write_bytes(out, v.as_slice());
}

// ---------------------------------------------------------------------------
// Null-terminated strings
// ---------------------------------------------------------------------------

/// No byte of `b` in `[from, to)` is the terminator.
pub open spec fn no_nul_between(b: Seq<u8>, from: int, to: int) -> bool {
    forall|i: int| from <= i < to ==> b[i] != 0
}

/// `e` is the first terminator at or after `pos`.
pub open spec fn first_nul(b: Seq<u8>, pos: int, e: int) -> bool {
    &&& 0 <= pos <= e < b.len()
    &&& b[e] == 0
    &&& no_nul_between(b, pos, e)
}

pub open spec fn has_nul(b: Seq<u8>, pos: int) -> bool {
    exists|e: int| first_nul(b, pos, e)
}

pub open spec fn nul_at(b: Seq<u8>, pos: int) -> int
    recommends
        has_nul(b, pos),
{
    choose|e: int| first_nul(b, pos, e)
}

pub proof fn lemma_first_nul_unique(b: Seq<u8>, pos: int, e1: int, e2: int)
    requires
        first_nul(b, pos, e1),
        first_nul(b, pos, e2),
    ensures
        e1 == e2,
{
}

/// A null-terminated UTF-8 string starting at `pos`: its characters and the
/// position after the terminator.
#[verifier::opaque]
pub open spec fn spec_cstr_at(b: Seq<u8>, pos: int) -> SpecRead<Seq<char>> {
    if has_nul(b, pos) {
        let e = nul_at(b, pos);
        let raw = b.subrange(pos, e);
        if valid_utf8(raw) {
            Ok((decode_utf8(raw), e + 1))
        } else {
            Err(CodecError::MalformedField)
        }
    } else {
        Err(CodecError::ShortPacket)
    }
}

/// The wire form of a string: its UTF-8 bytes and a terminator.
#[verifier::opaque]
pub open spec fn cstr_bytes(s: Seq<char>) -> Seq<u8> {
    encode_utf8(s).push(0u8)
}

/// A string that can travel null-terminated: it holds no null character.
pub open spec fn nul_free(s: Seq<char>) -> bool {
    forall|i: int| 0 <= i < s.len() ==> s[i] != '\0'
}

proof fn lemma_scalar_bytes_nonzero(c: u32)
    requires
        is_scalar(c),
        c != 0,
    ensures
        forall|i: int| 0 <= i < encode_scalar(c).len() ==> encode_scalar(c)[i] != 0,
{
    if has_width_1_encoding(c) {
        assert((c & 0x7F) as u8 != 0) by (bit_vector)
            requires
                1 <= c <= 0x7F,
        ;
    } else {
        assert(0xC0 | ((c >> 6) & 0x1F) as u8 != 0) by (bit_vector);
        assert(0xE0 | ((c >> 12) & 0x0F) as u8 != 0) by (bit_vector);
        assert(0xF0 | ((c >> 18) & 0x7) as u8 != 0) by (bit_vector);
        assert(0x80 | (c & 0x3F) as u8 != 0) by (bit_vector);
        assert(0x80 | ((c >> 6) & 0x3F) as u8 != 0) by (bit_vector);
        assert(0x80 | ((c >> 12) & 0x3F) as u8 != 0) by (bit_vector);
    }
}

/// A string without null characters encodes to bytes without a zero byte.
pub proof fn lemma_nul_free_encoding(s: Seq<char>)
    requires
        nul_free(s),
    ensures
        no_nul_between(encode_utf8(s), 0, encode_utf8(s).len() as int),
    decreases s.len(),
{
    if s.len() > 0 {
        let c = s[0] as u32;
        char_is_scalar(s[0]);
        assert(c != 0) by {
            char_u32_cast(s[0], c);
        }
        lemma_scalar_bytes_nonzero(c);
        let rest = s.drop_first();
        assert(nul_free(rest)) by {
            assert forall|i: int| 0 <= i < rest.len() implies rest[i] != '\0' by {
                assert(rest[i] == s[i + 1]);
            }
        }
        lemma_nul_free_encoding(rest);
        let head = encode_scalar(c);
        let tail = encode_utf8(rest);
        assert(encode_utf8(s) == head + tail);
        assert forall|i: int| 0 <= i < encode_utf8(s).len() implies encode_utf8(s)[i] != 0 by {
            if i < head.len() {
                assert(encode_utf8(s)[i] == head[i]);
            } else {
                assert(encode_utf8(s)[i] == tail[i - head.len()]);
            }
        }
    }
}

/// Reading a string back from its wire form, followed by anything.
pub proof fn lemma_cstr_round_trip(b: Seq<u8>, pos: int, s: Seq<char>)
    requires
        nul_free(s),
        0 <= pos,
        pos + cstr_bytes(s).len() <= b.len(),
        b.subrange(pos, pos + cstr_bytes(s).len()) == cstr_bytes(s),
    ensures
        spec_cstr_at(b, pos) == Ok::<(Seq<char>, int), CodecError>((s, pos + cstr_bytes(s).len())),
{
    reveal(cstr_bytes);
    reveal(spec_cstr_at);
    let enc = encode_utf8(s);
    let e = pos + enc.len();
    lemma_nul_free_encoding(s);
    assert forall|i: int| pos <= i < e implies b[i] != 0 by {
        assert(b[i] == b.subrange(pos, pos + cstr_bytes(s).len())[i - pos]);
        assert(cstr_bytes(s)[i - pos] == enc[i - pos]);
    }
    assert(b[e] == 0) by {
        assert(b[e] == b.subrange(pos, pos + cstr_bytes(s).len())[e - pos]);
    }
    assert(first_nul(b, pos, e));
    lemma_first_nul_unique(b, pos, e, nul_at(b, pos));
    assert(b.subrange(pos, e) =~= enc);
    encode_utf8_valid_utf8(s);
    encode_utf8_decode_utf8(s);
}

/// A string that was read is the wire form of its characters.
pub proof fn lemma_cstr_bytes_back(b: Seq<u8>, pos: int)
    requires
        spec_cstr_at(b, pos) is Ok,
    ensures
        ({
            let (s, end) = spec_cstr_at(b, pos)->Ok_0;
            &&& nul_free(s)
            &&& pos + cstr_bytes(s).len() == end
            &&& end <= b.len()
            &&& b.subrange(pos, end) == cstr_bytes(s)
        }),
{
    reveal(cstr_bytes);
    reveal(spec_cstr_at);
    let e = nul_at(b, pos);
    assert(first_nul(b, pos, e));
    let raw = b.subrange(pos, e);
    let s = decode_utf8(raw);
    decode_utf8_encode_utf8(raw);
    assert(encode_utf8(s) == raw);
    assert(b.subrange(pos, e + 1) =~= raw.push(0u8));
    assert(nul_free(s)) by {
        assert forall|i: int| 0 <= i < s.len() implies s[i] != '\0' by {
            if s[i] == '\0' {
                lemma_nul_char_encodes_zero(s, i);
                let j = choose|j: int| 0 <= j < raw.len() && raw[j] == 0;
                assert(raw[j] == b[pos + j]);
            }
        }
    }
}

/// A null character anywhere in a string puts a zero byte in its encoding.
proof fn lemma_nul_char_encodes_zero(s: Seq<char>, i: int)
    requires
        0 <= i < s.len(),
        s[i] == '\0',
    ensures
        exists|j: int| 0 <= j < encode_utf8(s).len() && encode_utf8(s)[j] == 0,
    decreases s.len(),
{
    let head = encode_scalar(s[0] as u32);
    let rest = s.drop_first();
    assert(encode_utf8(s) == head + encode_utf8(rest));
    if i == 0 {
        assert(('\0' as u32) == 0u32);
        assert(head[0] == 0) by {
            assert((0u32 & 0x7F) as u8 == 0) by (bit_vector);
        }
        assert(encode_utf8(s)[0] == 0);
    } else {
        assert(rest[i - 1] == s[i]);
        lemma_nul_char_encodes_zero(rest, i - 1);
        let j = choose|j: int| 0 <= j < encode_utf8(rest).len() && encode_utf8(rest)[j] == 0;
        assert(encode_utf8(s)[head.len() + j] == 0);
    }
}

/// Relies on `String::from_utf8`: it accepts exactly the valid UTF-8 byte
/// sequences, and the string it returns holds the characters they encode.
#[verifier::external_body]
fn string_from_utf8(bytes: Vec<u8>) -> (r: Option<String>)
    ensures
        r is Some <==> valid_utf8(bytes@),
        r matches Some(s) ==> s@ == decode_utf8(bytes@),
{
    String::from_utf8(bytes).ok()
}

pub fn read_cstr(b: &[u8], pos: usize) -> (r: Result<(String, usize), CodecError>)
    ensures
        lift_str(r) == spec_cstr_at(b@, pos as int),
{
    proof {
        reveal(spec_cstr_at);
    }
    let mut i: usize = pos;
    if pos > b.len() {
        assert(!has_nul(b@, pos as int));
        return Err(CodecError::ShortPacket);
    }
    while i < b.len()
        invariant
            pos <= i <= b@.len(),
            no_nul_between(b@, pos as int, i as int),
        decreases b@.len() - i,
    {
        if b[i] == 0 {
            assert(first_nul(b@, pos as int, i as int));
            proof {
                reveal(spec_cstr_at);
                lemma_first_nul_unique(b@, pos as int, i as int, nul_at(b@, pos as int));
            }
            let raw = slice_to_vec(slice_subrange(b, pos, i));
            return match string_from_utf8(raw) {
                Some(s) => Ok((s, i + 1)),
                None => Err(CodecError::MalformedField),
            };
        }
        i = i + 1;
    }
    assert(!has_nul(b@, pos as int));
    proof {
        reveal(spec_cstr_at);
    }
    Err(CodecError::ShortPacket)
}

pub fn write_cstr(out: &mut Vec<u8>, s: &String)
    ensures
        final(out)@ == old(out)@ + cstr_bytes(s@),
{
    proof {
        reveal(cstr_bytes);
    }
    let bytes = s.as_str().as_bytes();
    write_bytes(out, bytes);
    out.push(0);
    assert(out@ =~= old(out)@ + cstr_bytes(s@));
}

} // verus!
