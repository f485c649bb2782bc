//! What the upstream client decides on each datagram the game server sends
//! back: answer a challenge by resending the request with it, accept the
//! expected reply, or give up.
//!
//! The socket, the five-second receive timeout and the loop around these
//! steps belong to the caller.
use crate::challenge::S2CChallenge;
use crate::header::{SourceQueryRequest, check_outer_header, frame, has_outer_header, spec_frame, unframe, QueryHeader};
use crate::info::{A2SInfo, A2SInfoReply, A2SInfoView, A2S_INFO_REQUEST_PAYLOAD};
use crate::player::{A2SPlayer, A2SPlayerReply};
use crate::rules::{A2SRules, A2SRulesReply};
use crate::wire::{value_of, CodecError};
use vstd::prelude::*;

verus! {

/// The query kinds whose replies are cached.
#[derive(Debug, Clone, Copy, PartialEq, Eq, Structural)]
pub enum QueryKind {
    Info,
    Player,
    Rules,
}

impl QueryKind {
    /// The kind byte of the reply to this query.
    pub open spec fn spec_reply_header(self) -> QueryHeader {
        match self {
            QueryKind::Info => QueryHeader::A2SInfoReply,
            QueryKind::Player => QueryHeader::A2SPlayerReply,
            QueryKind::Rules => QueryHeader::A2SRulesReply,
        }
    }

    pub fn reply_header(self) -> (r: QueryHeader)
        ensures
            r == self.spec_reply_header(),
    {
        match self {
            QueryKind::Info => QueryHeader::A2SInfoReply,
            QueryKind::Player => QueryHeader::A2SPlayerReply,
            QueryKind::Rules => QueryHeader::A2SRulesReply,
        }
    }
}

/// A request to the game server.
#[derive(Debug, Clone, PartialEq, Eq)]
pub enum UpstreamRequest {
    Info(A2SInfo),
    Player(A2SPlayer),
    Rules(A2SRules),
}

/// A reply from the game server.
#[derive(Debug, Clone, PartialEq, Eq)]
pub enum UpstreamReply {
    Info(A2SInfoReply),
    Player(A2SPlayerReply),
    Rules(A2SRulesReply),
}

/// Why a query to the game server failed.
#[derive(Debug, Clone, Copy, PartialEq, Eq, Structural)]
pub enum UpstreamError {
    /// The datagram does not start with the outer header.
    BadFrame,
    /// The datagram is neither a challenge nor the expected reply.
    UnexpectedKind,
    /// The challenge or the reply could not be decoded.
    Malformed(CodecError),
}

/// What to do after a datagram from the game server.
#[derive(Debug)]
pub enum UpstreamStep {
    /// Send these bytes, the request with the challenge it asked for, and wait
    /// again.
    Resend(Vec<u8>),
    /// The query is answered.
    Done(UpstreamReply),
    /// The query failed.
    Failed(UpstreamError),
}

impl UpstreamReply {
    /// The body of the reply.
    pub open spec fn spec_body(&self) -> Seq<u8> {
        match self {
            UpstreamReply::Info(v) => v@.spec_encode(),
            UpstreamReply::Player(v) => v@.spec_encode(),
            UpstreamReply::Rules(v) => v@.spec_encode(),
        }
    }

    /// The datagram that carries the reply: the outer header, then the body.
    pub fn frame(&self) -> (r: Vec<u8>)
        ensures
            r@ == spec_frame(self.spec_body()),
    {
        let body = match self {
            UpstreamReply::Info(v) => v.encode(),
            UpstreamReply::Player(v) => v.encode(),
            UpstreamReply::Rules(v) => v.encode(),
        };
        frame(body.as_slice())
    }
}

/// Whether `r` is the reply of kind `kind` that `body` decodes to.
pub open spec fn decodes_to(r: UpstreamReply, kind: QueryKind, body: Seq<u8>) -> bool {
    match kind {
        QueryKind::Info => r matches UpstreamReply::Info(v) && value_of(A2SInfoReply::spec_decode(body))
            == Ok::<_, CodecError>(v@),
        QueryKind::Player => r matches UpstreamReply::Player(v) && value_of(
            A2SPlayerReply::spec_decode(body),
        ) == Ok::<_, CodecError>(v@),
        QueryKind::Rules => r matches UpstreamReply::Rules(v) && value_of(
            A2SRulesReply::spec_decode(body),
        ) == Ok::<_, CodecError>(v@),
    }
}

/// How decoding `body` as the reply of kind `kind` fails, if it does.
pub open spec fn reply_error(kind: QueryKind, body: Seq<u8>) -> Option<CodecError> {
    match kind {
        QueryKind::Info => match A2SInfoReply::spec_decode(body) {
            Err(e) => Some(e),
            Ok(_) => None,
        },
        QueryKind::Player => match A2SPlayerReply::spec_decode(body) {
            Err(e) => Some(e),
            Ok(_) => None,
        },
        QueryKind::Rules => match A2SRulesReply::spec_decode(body) {
            Err(e) => Some(e),
            Ok(_) => None,
        },
    }
}

/// The kind of the datagram after its outer header, if it has one.
pub open spec fn datagram_kind(d: Seq<u8>) -> Option<QueryHeader> {
    if d.len() > 4 {
        QueryHeader::spec_from_byte(d[4])
    } else {
        None
    }
}

impl UpstreamRequest {
    pub open spec fn spec_kind(&self) -> QueryKind {
        match self {
            UpstreamRequest::Info(_) => QueryKind::Info,
            UpstreamRequest::Player(_) => QueryKind::Player,
            UpstreamRequest::Rules(_) => QueryKind::Rules,
        }
    }

    /// The body of the request.
    pub open spec fn spec_body(&self) -> Seq<u8> {
        match self {
            UpstreamRequest::Info(q) => q@.spec_encode(),
            UpstreamRequest::Player(q) => q.spec_encode(),
            UpstreamRequest::Rules(q) => q.spec_encode(),
        }
    }

    /// The same request carrying `challenge`.
    pub open spec fn with_challenge(self, challenge: i32) -> UpstreamRequest {
        match self {
            UpstreamRequest::Info(q) => UpstreamRequest::Info(q.spec_with_challenge(challenge)),
            UpstreamRequest::Player(q) => UpstreamRequest::Player(q.spec_with_challenge(challenge)),
            UpstreamRequest::Rules(q) => UpstreamRequest::Rules(q.spec_with_challenge(challenge)),
        }
    }

    /// The request for `kind` that carries no challenge yet.
    pub fn new(kind: QueryKind) -> (r: Self)
        ensures
            r.spec_kind() == kind,
            match r {
                UpstreamRequest::Info(q) => q@ == (A2SInfoView {
                    header: QueryHeader::A2SInfo,
                    payload: A2S_INFO_REQUEST_PAYLOAD@,
                    challenge: None,
                }),
                UpstreamRequest::Player(q) => q == (A2SPlayer {
                    header: QueryHeader::A2SPlayer,
                    challenge: None,
                }),
                UpstreamRequest::Rules(q) => q == (A2SRules {
                    header: QueryHeader::A2SRules,
                    challenge: None,
                }),
            },
    {
        match kind {
            QueryKind::Info => UpstreamRequest::Info(A2SInfo::new()),
            QueryKind::Player => UpstreamRequest::Player(A2SPlayer::new()),
            QueryKind::Rules => UpstreamRequest::Rules(A2SRules::new()),
        }
    }

    pub fn kind(&self) -> (r: QueryKind)
        ensures
            r == self.spec_kind(),
    {
        match self {
            UpstreamRequest::Info(_) => QueryKind::Info,
            UpstreamRequest::Player(_) => QueryKind::Player,
            UpstreamRequest::Rules(_) => QueryKind::Rules,
        }
    }

    /// The datagram to send: the outer header, then the body.
    pub fn frame(&self) -> (r: Vec<u8>)
        ensures
            r@ == spec_frame(self.spec_body()),
    {
        let body = match self {
            UpstreamRequest::Info(q) => q.encode(),
            UpstreamRequest::Player(q) => q.encode(),
            UpstreamRequest::Rules(q) => q.encode(),
        };
        frame(body.as_slice())
    }

    pub fn set_challenge(&mut self, challenge: i32)
        ensures
            *final(self) == old(self).with_challenge(challenge),
    {
        match self {
            UpstreamRequest::Info(q) => q.set_challenge(challenge),
            UpstreamRequest::Player(q) => q.set_challenge(challenge),
            UpstreamRequest::Rules(q) => q.set_challenge(challenge),
        }
    }

    /// Takes in a datagram from the game server.
    ///
    /// A challenge is copied into the request and the request is sent again;
    /// the expected reply kind is decoded and returned; anything else fails
    /// the query.
    pub fn on_datagram(&mut self, d: &[u8]) -> (r: UpstreamStep)
        ensures
            !has_outer_header(d@) ==> r == UpstreamStep::Failed(UpstreamError::BadFrame),
            has_outer_header(d@) && d@.len() == 4 ==> r == UpstreamStep::Failed(
                UpstreamError::Malformed(CodecError::ShortPacket),
            ),
            has_outer_header(d@) && datagram_kind(d@) == Some(QueryHeader::S2CChallenge) ==> match
            S2CChallenge::spec_decode(d@.subrange(4, d@.len() as int)) {
                Ok((c, _)) => {
                    &&& *final(self) == old(self).with_challenge(c.challenge)
                    &&& r matches UpstreamStep::Resend(bytes)
                    &&& bytes@ == spec_frame(final(self).spec_body())
                },
                Err(e) => r == UpstreamStep::Failed(UpstreamError::Malformed(e)),
            },
            has_outer_header(d@) && datagram_kind(d@) == Some(
                old(self).spec_kind().spec_reply_header(),
            ) ==> match reply_error(old(self).spec_kind(), d@.subrange(4, d@.len() as int)) {
                None => r matches UpstreamStep::Done(reply) && decodes_to(
                    reply,
                    old(self).spec_kind(),
                    d@.subrange(4, d@.len() as int),
                ),
                Some(e) => r == UpstreamStep::Failed(UpstreamError::Malformed(e)),
            },
            has_outer_header(d@) && d@.len() > 4 && datagram_kind(d@) != Some(
                QueryHeader::S2CChallenge,
            ) && datagram_kind(d@) != Some(old(self).spec_kind().spec_reply_header())
                ==> r == UpstreamStep::Failed(UpstreamError::UnexpectedKind),
            !(r is Resend) ==> *final(self) == *old(self),
    {
        if !check_outer_header(d) {
            return UpstreamStep::Failed(UpstreamError::BadFrame);
        }
        let body = unframe(d);
        if body.len() == 0 {
            return UpstreamStep::Failed(UpstreamError::Malformed(CodecError::ShortPacket));
        }
        let kind = QueryHeader::from_byte(body[0]);
        if kind == Some(QueryHeader::S2CChallenge) {
            return match S2CChallenge::decode(body) {
                Ok(c) => {
                    self.set_challenge(c.challenge);
                    UpstreamStep::Resend(self.frame())
                },
                Err(e) => UpstreamStep::Failed(UpstreamError::Malformed(e)),
            };
        }
        if kind != Some(self.kind().reply_header()) {
            return UpstreamStep::Failed(UpstreamError::UnexpectedKind);
        }
        match self {
            UpstreamRequest::Info(_) => match A2SInfoReply::decode(body) {
                Ok(v) => UpstreamStep::Done(UpstreamReply::Info(v)),
                Err(e) => UpstreamStep::Failed(UpstreamError::Malformed(e)),
            },
            UpstreamRequest::Player(_) => match A2SPlayerReply::decode(body) {
                Ok(v) => UpstreamStep::Done(UpstreamReply::Player(v)),
                Err(e) => UpstreamStep::Failed(UpstreamError::Malformed(e)),
            },
            UpstreamRequest::Rules(_) => match A2SRulesReply::decode(body) {
                Ok(v) => UpstreamStep::Done(UpstreamReply::Rules(v)),
                Err(e) => UpstreamStep::Failed(UpstreamError::Malformed(e)),
            },
        }
    }
}

} // verus!
