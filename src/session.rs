//! What a client session decides on each datagram from its peer.
//!
//! The inbound queue, the five-second idle timeout, the sockets and the fetch
//! from the reply caches belong to the caller, which performs the action
//! returned here.
use crate::challenge::S2CChallenge;
use crate::challenge_cache::{spec_get_challenge, ChallengeCache};
use crate::header::{NO_CHALLENGE, check_outer_header, frame, has_outer_header, spec_frame, unframe, QueryHeader};
use crate::info::A2SInfo;
use crate::player::A2SPlayer;
use crate::rules::A2SRules;
use crate::timed_map::{PeerKey, TimedEntries};
use crate::upstream::QueryKind;
use vstd::prelude::*;

verus! {

/// How a datagram from a client is handled.
#[derive(Debug, Clone, Copy, PartialEq, Eq, Structural)]
pub enum Dispatch {
    /// Not a valid query: end the session without answering.
    Close,
    /// A query served from the cache once its challenge checks out; the
    /// challenge it carries, if any.
    Cached(QueryKind, Option<i32>),
    /// Any other kind: pass the datagram to the game server as it is.
    Proxy,
}

/// The answer to a cached query, before it is put on the wire.
#[derive(Debug, Clone, Copy, PartialEq, Eq, Structural)]
pub enum Answer {
    /// Send an S2C_CHALLENGE carrying this token.
    Challenge(i32),
    /// Send the cached reply of this kind.
    Serve(QueryKind),
}

/// What the session does with a datagram.
#[derive(Debug)]
pub enum SessionAction {
    /// End the session; send nothing.
    Close,
    /// Send these bytes back to the peer.
    Send(Vec<u8>),
    /// Send the peer the cached reply of this kind.
    Serve(QueryKind),
    /// Send the datagram to the game server unchanged and its reply back to
    /// the peer unchanged.
    Proxy,
}

pub open spec fn spec_classify(d: Seq<u8>) -> Dispatch {
    if !has_outer_header(d) || d.len() == 4 {
        Dispatch::Close
    } else {
        let body = d.subrange(4, d.len() as int);
        match QueryHeader::spec_from_byte(d[4]) {
            None => Dispatch::Close,
            Some(QueryHeader::A2SInfo) => match A2SInfo::spec_decode(body) {
                Ok((q, _)) => Dispatch::Cached(QueryKind::Info, q.challenge),
                Err(_) => Dispatch::Close,
            },
            Some(QueryHeader::A2SPlayer) => match A2SPlayer::spec_decode(body) {
                Ok((q, _)) => Dispatch::Cached(QueryKind::Player, q.challenge),
                Err(_) => Dispatch::Close,
            },
            Some(QueryHeader::A2SRules) => match A2SRules::spec_decode(body) {
                Ok((q, _)) => Dispatch::Cached(QueryKind::Rules, q.challenge),
                Err(_) => Dispatch::Close,
            },
            Some(_) => Dispatch::Proxy,
        }
    }
}

/// A cached query is served only when it echoes the token issued to its peer.
pub open spec fn spec_answer(kind: QueryKind, challenge: Option<i32>, expected: i32) -> Answer {
    if challenge == Some(expected) {
        Answer::Serve(kind)
    } else {
        Answer::Challenge(expected)
    }
}

/// The datagram that hands a peer its token.
pub open spec fn challenge_frame(token: i32) -> Seq<u8> {
    spec_frame(S2CChallenge { header: QueryHeader::S2CChallenge, challenge: token }.spec_encode())
}

/// Whether `r` performs answer `a`.
pub open spec fn performs(r: SessionAction, a: Answer) -> bool {
    match a {
        Answer::Challenge(t) => r matches SessionAction::Send(bytes) && bytes@ == challenge_frame(t),
        Answer::Serve(kind) => r == SessionAction::Serve(kind),
    }
}

/// Sorts a datagram from a client.
pub fn classify(d: &[u8]) -> (r: Dispatch)
    ensures
        r == spec_classify(d@),
{
    if !check_outer_header(d) || d.len() == 4 {
        return Dispatch::Close;
    }
    let body = unframe(d);
    match QueryHeader::from_byte(d[4]) {
        None => Dispatch::Close,
        Some(QueryHeader::A2SInfo) => match A2SInfo::decode(body) {
            Ok(q) => Dispatch::Cached(QueryKind::Info, q.challenge),
            Err(_) => Dispatch::Close,
        },
        Some(QueryHeader::A2SPlayer) => match A2SPlayer::decode(body) {
            Ok(q) => Dispatch::Cached(QueryKind::Player, q.challenge),
            Err(_) => Dispatch::Close,
        },
        Some(QueryHeader::A2SRules) => match A2SRules::decode(body) {
            Ok(q) => Dispatch::Cached(QueryKind::Rules, q.challenge),
            Err(_) => Dispatch::Close,
        },
        Some(_) => Dispatch::Proxy,
    }
}

/// Answers a cached query whose peer was issued `expected`.
pub fn answer(kind: QueryKind, challenge: Option<i32>, expected: i32) -> (r: SessionAction)
    ensures
        performs(r, spec_answer(kind, challenge, expected)),
{
    let echoed = match challenge {
        Some(c) => c == expected,
        None => false,
    };
    if echoed {
        SessionAction::Serve(kind)
    } else {
        let body = S2CChallenge::new(expected).encode();
        SessionAction::Send(frame(body.as_slice()))
    }
}

/// Handles a datagram from `peer` at `now`, with `draw` as the token to issue
/// if the peer has no live one.
pub fn on_datagram_with(
    cache: &mut ChallengeCache,
    peer: PeerKey,
    now: u64,
    d: &[u8],
    draw: i32,
) -> (r: SessionAction)
    requires
        old(cache).wf(),
    ensures
        final(cache).wf(),
        match spec_classify(d@) {
            Dispatch::Close => r == SessionAction::Close && final(cache)@ == old(cache)@,
            Dispatch::Proxy => r == SessionAction::Proxy && final(cache)@ == old(cache)@,
            Dispatch::Cached(kind, c) => {
                let (token, after) = spec_get_challenge(old(cache)@, peer, now, draw);
                final(cache)@ == after && token != NO_CHALLENGE && performs(
                        r,
                        spec_answer(kind, c, token),
                    )
            },
        },
{
    match classify(d) {
        Dispatch::Close => SessionAction::Close,
        Dispatch::Proxy => SessionAction::Proxy,
        Dispatch::Cached(kind, c) => {
            let expected = cache.get_challenge_with(peer, now, draw);
            answer(kind, c, expected)
        },
    }
}

/// Handles a datagram from `peer` at `now`. A cached query is checked against
/// the peer's token, drawn at random if the peer has no live one.
pub fn on_datagram(cache: &mut ChallengeCache, peer: PeerKey, now: u64, d: &[u8]) -> (r:
    SessionAction)
    requires
        old(cache).wf(),
    ensures
        final(cache).wf(),
        match spec_classify(d@) {
            Dispatch::Close => r == SessionAction::Close && final(cache)@ == old(cache)@,
            Dispatch::Proxy => r == SessionAction::Proxy && final(cache)@ == old(cache)@,
            Dispatch::Cached(kind, c) => exists|draw: i32|
                #![trigger spec_get_challenge(old(cache)@, peer, now, draw)]
                {
                    let (token, after) = spec_get_challenge(old(cache)@, peer, now, draw);
                    final(cache)@ == after && token != NO_CHALLENGE && performs(
                        r,
                        spec_answer(kind, c, token),
                    )
                },
        },
{
    let draw: i32 = rand::random::<i32>();
    on_datagram_with(cache, peer, now, d, draw)
}

/// The handshake: a cached query that does not echo its peer's token is
/// answered with exactly a challenge carrying that token, and echoing the
/// token before it expires gets the query served.
pub proof fn lemma_challenge_handshake(
    m: TimedEntries,
    peer: PeerKey,
    kind: QueryKind,
    challenge: Option<i32>,
    t1: u64,
    t2: u64,
    draw1: i32,
    draw2: i32,
)
    requires
        t1 <= t2,
        t2 < spec_get_challenge(m, peer, t1, draw1).1[peer].1,
    ensures
        ({
            let (token, m1) = spec_get_challenge(m, peer, t1, draw1);
            let (again, _) = spec_get_challenge(m1, peer, t2, draw2);
            &&& challenge != Some(token) ==> spec_answer(kind, challenge, token) == Answer::Challenge(
                token,
            )
            &&& again == token
            &&& spec_answer(kind, Some(token), again) == Answer::Serve(kind)
        }),
{
}

} // verus!
