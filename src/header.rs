//! The one-byte query kinds and the four-byte outer header of a simple packet.
use crate::wire::{lift, read_u8, spec_u8_at, write_bytes, CodecError, SpecRead};
use vstd::prelude::*;

verus! {

broadcast use vstd::seq::group_seq_axioms;

/// The outer header value that starts every simple packet.
pub const SOURCE_PACKET_HEADER: i32 = -1;

/// The largest simple packet, in bytes.
pub const SOURCE_SIMPLE_PACKET_MAX_SIZE: usize = 1400;

/// A challenge token; `-1` asks the server for one.
pub type SourceChallenge = i32;

/// The challenge value a client sends when it has none yet.
pub const NO_CHALLENGE: i32 = -1;

/// The kind byte that follows the outer header.
#[derive(Debug, Clone, Copy, PartialEq, Eq, Structural)]
pub enum QueryHeader {
    S2CChallenge,
    A2SServerQueryGetChallenge,
    A2SPlayer,
    A2SPlayerReply,
    A2SRules,
    A2SRulesReply,
    A2SInfo,
    A2SInfoReply,
    A2APing,
    A2APingReply,
    GSInfo,
    GSInfoReply,
}

impl QueryHeader {
    /// The byte that stands for this kind on the wire.
    pub open spec fn spec_byte(self) -> u8 {
        match self {
            QueryHeader::S2CChallenge => 0x41,
            QueryHeader::A2SServerQueryGetChallenge => 0x57,
            QueryHeader::A2SPlayer => 0x55,
            QueryHeader::A2SPlayerReply => 0x44,
            QueryHeader::A2SRules => 0x56,
            QueryHeader::A2SRulesReply => 0x45,
            QueryHeader::A2SInfo => 0x54,
            QueryHeader::A2SInfoReply => 0x49,
            QueryHeader::A2APing => 0x69,
            QueryHeader::A2APingReply => 0x6A,
            QueryHeader::GSInfo => 0x6D,
            QueryHeader::GSInfoReply => 0x6E,
        }
    }

    /// The kind a byte stands for, if any.
    pub open spec fn spec_from_byte(b: u8) -> Option<QueryHeader> {
        if b == 0x41 {
            Some(QueryHeader::S2CChallenge)
        } else if b == 0x57 {
            Some(QueryHeader::A2SServerQueryGetChallenge)
        } else if b == 0x55 {
            Some(QueryHeader::A2SPlayer)
        } else if b == 0x44 {
            Some(QueryHeader::A2SPlayerReply)
        } else if b == 0x56 {
            Some(QueryHeader::A2SRules)
        } else if b == 0x45 {
            Some(QueryHeader::A2SRulesReply)
        } else if b == 0x54 {
            Some(QueryHeader::A2SInfo)
        } else if b == 0x49 {
            Some(QueryHeader::A2SInfoReply)
        } else if b == 0x69 {
            Some(QueryHeader::A2APing)
        } else if b == 0x6A {
            Some(QueryHeader::A2APingReply)
        } else if b == 0x6D {
            Some(QueryHeader::GSInfo)
        } else if b == 0x6E {
            Some(QueryHeader::GSInfoReply)
        } else {
            None
        }
    }

    pub fn to_byte(self) -> (r: u8)
        ensures
            r == self.spec_byte(),
    {
        match self {
            QueryHeader::S2CChallenge => 0x41,
            QueryHeader::A2SServerQueryGetChallenge => 0x57,
            QueryHeader::A2SPlayer => 0x55,
            QueryHeader::A2SPlayerReply => 0x44,
            QueryHeader::A2SRules => 0x56,
            QueryHeader::A2SRulesReply => 0x45,
            QueryHeader::A2SInfo => 0x54,
            QueryHeader::A2SInfoReply => 0x49,
            QueryHeader::A2APing => 0x69,
            QueryHeader::A2APingReply => 0x6A,
            QueryHeader::GSInfo => 0x6D,
            QueryHeader::GSInfoReply => 0x6E,
        }
    }

    pub fn from_byte(b: u8) -> (r: Option<QueryHeader>)
        ensures
            r == Self::spec_from_byte(b),
    {
        if b == 0x41 {
            Some(QueryHeader::S2CChallenge)
        } else if b == 0x57 {
            Some(QueryHeader::A2SServerQueryGetChallenge)
        } else if b == 0x55 {
            Some(QueryHeader::A2SPlayer)
        } else if b == 0x44 {
            Some(QueryHeader::A2SPlayerReply)
        } else if b == 0x56 {
            Some(QueryHeader::A2SRules)
        } else if b == 0x45 {
            Some(QueryHeader::A2SRulesReply)
        } else if b == 0x54 {
            Some(QueryHeader::A2SInfo)
        } else if b == 0x49 {
            Some(QueryHeader::A2SInfoReply)
        } else if b == 0x69 {
            Some(QueryHeader::A2APing)
        } else if b == 0x6A {
            Some(QueryHeader::A2APingReply)
        } else if b == 0x6D {
            Some(QueryHeader::GSInfo)
        } else if b == 0x6E {
            Some(QueryHeader::GSInfoReply)
        } else {
            None
        }
    }

    /// The byte of a kind reads back as that kind, and a byte that reads as a
    /// kind is that kind's byte.
    pub proof fn lemma_byte_round_trip(self, b: u8)
        ensures
            Self::spec_from_byte(self.spec_byte()) == Some(self),
            Self::spec_from_byte(b) == Some(self) ==> self.spec_byte() == b,
    {
    }
}

/// A packet that answers a query; its kind byte is fixed.
pub trait SourceQueryResponse: Sized {
    spec fn spec_packet_header() -> QueryHeader;

    fn packet_header() -> (r: QueryHeader)
        ensures
            r == Self::spec_packet_header(),
    ;
}

/// A query that can carry a challenge token.
pub trait SourceQueryRequest: Sized {
    /// This request carrying `challenge`, and otherwise the same.
    spec fn spec_with_challenge(self, challenge: SourceChallenge) -> Self;

    fn set_challenge(&mut self, challenge: SourceChallenge)
        ensures
            *final(self) == old(self).spec_with_challenge(challenge),
    ;
}

/// Reads the kind byte at `pos` and accepts it only if it is `want`.
pub open spec fn spec_kind_at(b: Seq<u8>, pos: int, want: QueryHeader) -> SpecRead<QueryHeader> {
    match spec_u8_at(b, pos) {
        Err(e) => Err(e),
        Ok((x, p)) => if QueryHeader::spec_from_byte(x) == Some(want) {
            Ok((want, p))
        } else {
            Err(CodecError::BadKind)
        },
    }
}

pub fn read_kind(b: &[u8], pos: usize, want: QueryHeader) -> (r: Result<(QueryHeader, usize), CodecError>)
    ensures
        lift(r) == spec_kind_at(b@, pos as int, want),
{
    match read_u8(b, pos) {
        Err(e) => Err(e),
        Ok((x, p)) => match QueryHeader::from_byte(x) {
            Some(h) => if h == want {
                Ok((want, p))
            } else {
                Err(CodecError::BadKind)
            },
            None => Err(CodecError::BadKind),
        },
    }
}

/// The four bytes of the outer header: `FF FF FF FF`.
pub open spec fn outer_header() -> Seq<u8> {
    seq![0xFFu8, 0xFFu8, 0xFFu8, 0xFFu8]
}

/// A body framed for the wire.
pub open spec fn spec_frame(body: Seq<u8>) -> Seq<u8> {
    outer_header() + body
}

/// A datagram starts with the outer header.
pub open spec fn has_outer_header(d: Seq<u8>) -> bool {
    d.len() >= 4 && d.subrange(0, 4) == outer_header()
}

/// Puts the outer header in front of a body.
pub fn frame(body: &[u8]) -> (r: Vec<u8>)
    ensures
        r@ == spec_frame(body@),
{
    let mut out: Vec<u8> = Vec::new();
    out.push(0xFF);
    out.push(0xFF);
    out.push(0xFF);
    out.push(0xFF);
    assert(out@ =~= outer_header());
    write_bytes(&mut out, body);
    out
}

/// Whether a datagram starts with the outer header.
pub fn check_outer_header(d: &[u8]) -> (r: bool)
    ensures
        r == has_outer_header(d@),
{
    if d.len() < 4 {
        return false;
    }
    let ok = d[0] == 0xFF && d[1] == 0xFF && d[2] == 0xFF && d[3] == 0xFF;
    assert(ok ==> d@.subrange(0, 4) =~= outer_header());
    ok
}

/// The framed body with the outer header taken off.
pub fn unframe(d: &[u8]) -> (r: &[u8])
    requires
        d@.len() >= 4,
    ensures
        r@ == d@.subrange(4, d@.len() as int),
{
    vstd::slice::slice_subrange(d, 4, d.len())
}

} // verus!
