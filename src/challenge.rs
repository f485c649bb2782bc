//! S2C_CHALLENGE, the reply that hands a client its challenge token, and the
//! four-byte challenge slot of the player and rules requests.
use crate::header::{SourceQueryResponse, read_kind, spec_kind_at, QueryHeader, SourceChallenge, NO_CHALLENGE};
use crate::wire::{whole, 
    i32_bytes, lemma_i32_bytes_back, lemma_i32_round_trip, lift, read_i32, spec_i32_at, value_of,
    write_i32, CodecError, SpecRead,
};
use vstd::prelude::*;

verus! {

broadcast use vstd::seq::group_seq_axioms;

/// A server's answer that carries the challenge token to echo.
#[derive(Debug, Clone, Copy, PartialEq, Eq)]
pub struct S2CChallenge {
    pub header: QueryHeader,
    pub challenge: SourceChallenge,
}

impl S2CChallenge {
    pub open spec fn wf(&self) -> bool {
        self.header == QueryHeader::S2CChallenge
    }

    pub fn new(challenge: SourceChallenge) -> (r: Self)
        ensures
            r == (S2CChallenge { header: QueryHeader::S2CChallenge, challenge }),
    {
        S2CChallenge { header: QueryHeader::S2CChallenge, challenge }
    }


    /// The body: the kind byte, then the token.
    pub open spec fn spec_encode(&self) -> Seq<u8> {
        seq![self.header.spec_byte()] + i32_bytes(self.challenge)
    }

    /// The body, parsed as far as the packet goes.
    pub open spec fn spec_parse(b: Seq<u8>) -> SpecRead<S2CChallenge> {
        match spec_kind_at(b, 0, QueryHeader::S2CChallenge) {
            Err(e) => Err(e),
            Ok((header, p)) => match spec_i32_at(b, p) {
                Err(e) => Err(e),
                Ok((challenge, end)) => Ok((S2CChallenge { header, challenge }, end)),
            },
        }
    }

    /// The body decoded: the packet, which must end at the body's last byte.
    pub open spec fn spec_decode(b: Seq<u8>) -> SpecRead<S2CChallenge> {
        whole(Self::spec_parse(b), b.len() as int)
    }

    /// The body, without the outer header.
    pub fn encode(&self) -> (r: Vec<u8>)
        ensures
            r@ == self.spec_encode(),
    {
        let mut out: Vec<u8> = Vec::new();
        out.push(self.header.to_byte());
        write_i32(&mut out, self.challenge);
        out
    }

    /// Decodes a body (a datagram without its outer header). Bytes after the
    /// packet make it malformed.
    pub fn decode(b: &[u8]) -> (r: Result<S2CChallenge, CodecError>)
        ensures
            r == value_of(Self::spec_decode(b@)),
    {
        match read_kind(b, 0, QueryHeader::S2CChallenge) {
            Err(e) => Err(e),
            Ok((header, p)) => match read_i32(b, p) {
                Err(e) => Err(e),
                Ok((challenge, end)) => if end == b.len() {
                    Ok(S2CChallenge { header, challenge })
                } else {
                    Err(CodecError::MalformedField)
                },
            },
        }
    }
}

/// Decoding the encoding of a well-formed challenge reply gives it back.
pub proof fn lemma_s2c_challenge_decode_encode(v: S2CChallenge)
    requires
        v.wf(),
    ensures
        S2CChallenge::spec_decode(v.spec_encode()) == Ok::<(S2CChallenge, int), CodecError>(
            (v, v.spec_encode().len() as int),
        ),
{
    let b = v.spec_encode();
    lemma_i32_round_trip(v.challenge);
    v.header.lemma_byte_round_trip(b[0]);
    assert(b.subrange(1, 5) =~= i32_bytes(v.challenge));
}

/// A decoded challenge reply is well formed and re-encodes to exactly the bytes
/// it was read from.
pub proof fn lemma_s2c_challenge_encode_decode(b: Seq<u8>)
    requires
        S2CChallenge::spec_decode(b) is Ok,
    ensures
        ({
            let (v, _) = S2CChallenge::spec_decode(b)->Ok_0;
            v.wf() && v.spec_encode() == b
        }),
{
    let (v, end) = S2CChallenge::spec_decode(b)->Ok_0;
    v.header.lemma_byte_round_trip(b[0]);
    lemma_i32_bytes_back(b.subrange(1, 5));
    assert(v.spec_encode() =~= b.subrange(0, end));
    assert(b.subrange(0, end) =~= b);
}

// ---------------------------------------------------------------------------
// The challenge slot of A2S_PLAYER and A2S_RULES requests
// ---------------------------------------------------------------------------

/// The slot always takes four bytes; an absent challenge is sent as `-1`.
pub open spec fn slot_bytes(challenge: Option<SourceChallenge>) -> Seq<u8> {
    match challenge {
        Some(c) => i32_bytes(c),
        None => i32_bytes(NO_CHALLENGE),
    }
}

/// Reads the four-byte slot at `pos`: `-1` means no challenge.
pub open spec fn spec_slot_at(b: Seq<u8>, pos: int) -> SpecRead<Option<SourceChallenge>> {
    match spec_i32_at(b, pos) {
        Err(e) => Err(e),
        Ok((c, end)) => Ok((if c == NO_CHALLENGE { None } else { Some(c) }, end)),
    }
}

/// A challenge that can travel in the slot: `-1` stands for none.
pub open spec fn slot_ok(challenge: Option<SourceChallenge>) -> bool {
    challenge != Some(NO_CHALLENGE)
}

pub fn write_slot(out: &mut Vec<u8>, challenge: Option<SourceChallenge>)
    ensures
        final(out)@ == old(out)@ + slot_bytes(challenge),
{
    match challenge {
        Some(c) => write_i32(out, c),
        None => write_i32(out, NO_CHALLENGE),
    }
}

pub fn read_slot(b: &[u8], pos: usize) -> (r: Result<(Option<SourceChallenge>, usize), CodecError>)
    ensures
        lift(r) == spec_slot_at(b@, pos as int),
{
    match read_i32(b, pos) {
        Err(e) => Err(e),
        Ok((c, end)) => Ok((if c == NO_CHALLENGE { None } else { Some(c) }, end)),
    }
}

pub proof fn lemma_slot_len(challenge: Option<SourceChallenge>)
    ensures
        slot_bytes(challenge).len() == 4,
{
    match challenge {
        Some(c) => lemma_i32_round_trip(c),
        None => lemma_i32_round_trip(NO_CHALLENGE),
    }
}

/// A slot written at `pos`, followed by anything, reads back.
pub proof fn lemma_slot_round_trip(b: Seq<u8>, pos: int, challenge: Option<SourceChallenge>)
    requires
        slot_ok(challenge),
        0 <= pos,
        pos + 4 <= b.len(),
        b.subrange(pos, pos + 4) == slot_bytes(challenge),
    ensures
        spec_slot_at(b, pos) == Ok::<(Option<SourceChallenge>, int), CodecError>(
            (challenge, pos + 4),
        ),
{
    match challenge {
        Some(c) => lemma_i32_round_trip(c),
        None => lemma_i32_round_trip(NO_CHALLENGE),
    }
}

/// A slot that was read is written back as the bytes it was read from.
pub proof fn lemma_slot_bytes_back(b: Seq<u8>, pos: int)
    requires
        0 <= pos,
        spec_slot_at(b, pos) is Ok,
    ensures
        ({
            let (c, end) = spec_slot_at(b, pos)->Ok_0;
            &&& slot_ok(c)
            &&& end == pos + 4
            &&& b.subrange(pos, end) == slot_bytes(c)
        }),
{
    lemma_i32_bytes_back(b.subrange(pos, pos + 4));
}

impl SourceQueryResponse for S2CChallenge {
    open spec fn spec_packet_header() -> QueryHeader {
        QueryHeader::S2CChallenge
    }

    fn packet_header() -> (r: QueryHeader) {
        QueryHeader::S2CChallenge
    }
}

} // verus!
