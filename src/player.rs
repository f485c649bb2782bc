//! A2S_PLAYER: the request for the player list and its reply.
use crate::challenge::{
    lemma_slot_bytes_back, lemma_slot_len, lemma_slot_round_trip, read_slot, slot_bytes, slot_ok, spec_slot_at,
    write_slot,
};
use crate::header::{SourceQueryRequest, SourceQueryResponse, read_kind, spec_kind_at, QueryHeader, SourceChallenge};
use crate::wire::{whole, 
    cstr_bytes, i32_bytes, lemma_cstr_bytes_back, lemma_cstr_round_trip, lemma_i32_bytes_back,
    lemma_i32_round_trip, lemma_join, lemma_split, lemma_u32_bytes_back, lemma_u32_round_trip,
    lift_view, nul_free, read_cstr, read_i32, read_u32, read_u8, spec_cstr_at, spec_i32_at,
    spec_u32_at, spec_u8_at, u32_bytes, value_of, view_result, write_cstr, write_i32, write_u32,
    CodecError, SpecRead,
};
use vstd::prelude::*;

verus! {

broadcast use vstd::seq::group_seq_axioms;

// ---------------------------------------------------------------------------
// Request
// ---------------------------------------------------------------------------

/// The request for the player list.
#[derive(Debug, Clone, Copy, PartialEq, Eq)]
pub struct A2SPlayer {
    pub header: QueryHeader,
    pub challenge: Option<SourceChallenge>,
}

impl A2SPlayer {
    pub open spec fn wf(&self) -> bool {
        self.header == QueryHeader::A2SPlayer && slot_ok(self.challenge)
    }

    /// A request that asks for a challenge.
    pub fn new() -> (r: Self)
        ensures
            r == (A2SPlayer { header: QueryHeader::A2SPlayer, challenge: None }),
    {
        A2SPlayer { header: QueryHeader::A2SPlayer, challenge: None }
    }

    pub fn with_challenge(challenge: SourceChallenge) -> (r: Self)
        ensures
            r == (A2SPlayer { header: QueryHeader::A2SPlayer, challenge: Some(challenge) }),
    {
        A2SPlayer { header: QueryHeader::A2SPlayer, challenge: Some(challenge) }
    }


    /// The body: the kind byte, then the four-byte challenge slot.
    pub open spec fn spec_encode(&self) -> Seq<u8> {
        seq![self.header.spec_byte()] + slot_bytes(self.challenge)
    }

    /// The body, parsed as far as the packet goes.
    pub open spec fn spec_parse(b: Seq<u8>) -> SpecRead<A2SPlayer> {
        match spec_kind_at(b, 0, QueryHeader::A2SPlayer) {
            Err(e) => Err(e),
            Ok((header, p)) => match spec_slot_at(b, p) {
                Err(e) => Err(e),
                Ok((challenge, end)) => Ok((A2SPlayer { header, challenge }, end)),
            },
        }
    }

    /// The body decoded: the packet, which must end at the body's last byte.
    pub open spec fn spec_decode(b: Seq<u8>) -> SpecRead<A2SPlayer> {
        whole(Self::spec_parse(b), b.len() as int)
    }

    /// The body, without the outer header.
    pub fn encode(&self) -> (r: Vec<u8>)
        ensures
            r@ == self.spec_encode(),
    {
        let mut out: Vec<u8> = Vec::new();
        out.push(self.header.to_byte());
        write_slot(&mut out, self.challenge);
        out
    }

    /// Decodes a body (a datagram without its outer header). Bytes after the
    /// packet make it malformed.
    pub fn decode(b: &[u8]) -> (r: Result<A2SPlayer, CodecError>)
        ensures
            r == value_of(Self::spec_decode(b@)),
    {
        match read_kind(b, 0, QueryHeader::A2SPlayer) {
            Err(e) => Err(e),
            Ok((header, p)) => match read_slot(b, p) {
                Err(e) => Err(e),
                Ok((challenge, end)) => if end == b.len() {
                    Ok(A2SPlayer { header, challenge })
                } else {
                    Err(CodecError::MalformedField)
                },
            },
        }
    }
}

/// Decoding the encoding of a well-formed player request gives it back.
pub proof fn lemma_player_request_decode_encode(v: A2SPlayer)
    requires
        v.wf(),
    ensures
        A2SPlayer::spec_decode(v.spec_encode()) == Ok::<(A2SPlayer, int), CodecError>(
            (v, v.spec_encode().len() as int),
        ),
{
    let b = v.spec_encode();
    v.header.lemma_byte_round_trip(b[0]);
    lemma_slot_len(v.challenge);
    assert(b.subrange(1, 5) =~= slot_bytes(v.challenge));
    lemma_slot_round_trip(b, 1, v.challenge);
}

/// A decoded player request is well formed and re-encodes to exactly the
/// bytes it was read from.
pub proof fn lemma_player_request_encode_decode(b: Seq<u8>)
    requires
        A2SPlayer::spec_decode(b) is Ok,
    ensures
        ({
            let (v, _) = A2SPlayer::spec_decode(b)->Ok_0;
            v.wf() && v.spec_encode() == b
        }),
{
    let (v, end) = A2SPlayer::spec_decode(b)->Ok_0;
    v.header.lemma_byte_round_trip(b[0]);
    lemma_slot_bytes_back(b, 1);
    assert(v.spec_encode() =~= b.subrange(0, end));
    assert(b.subrange(0, end) =~= b);
}

// ---------------------------------------------------------------------------
// Reply
// ---------------------------------------------------------------------------

/// One player of the reply. The time on the server is an `f32` number of
/// seconds on the wire; it is kept here as the bits of that `f32`.
#[derive(Debug, Clone, PartialEq, Eq)]
pub struct A2SPlayerInfo {
    pub index: u8,
    pub name: String,
    pub score: i32,
    pub duration_bits: u32,
}

pub struct A2SPlayerInfoView {
    pub index: u8,
    pub name: Seq<char>,
    pub score: i32,
    pub duration_bits: u32,
}

impl View for A2SPlayerInfo {
    type V = A2SPlayerInfoView;

    open spec fn view(&self) -> A2SPlayerInfoView {
        A2SPlayerInfoView {
            index: self.index,
            name: self.name@,
            score: self.score,
            duration_bits: self.duration_bits,
        }
    }
}

/// The reply with the player list.
#[derive(Debug, Clone, PartialEq, Eq)]
pub struct A2SPlayerReply {
    pub header: QueryHeader,
    pub num_players: u8,
    pub players: Vec<A2SPlayerInfo>,
}

pub struct A2SPlayerReplyView {
    pub header: QueryHeader,
    pub num_players: u8,
    pub players: Seq<A2SPlayerInfoView>,
}

impl View for A2SPlayerReply {
    type V = A2SPlayerReplyView;

    open spec fn view(&self) -> A2SPlayerReplyView {
        A2SPlayerReplyView {
            header: self.header,
            num_players: self.num_players,
            players: self.players@.map_values(|p: A2SPlayerInfo| p@),
        }
    }
}

/// The wire form of one player: index, name, score, then time.
pub open spec fn player_bytes(p: A2SPlayerInfoView) -> Seq<u8> {
    seq![p.index] + cstr_bytes(p.name) + i32_bytes(p.score) + u32_bytes(p.duration_bits)
}

/// The wire form of a list of players, one after another.
pub open spec fn players_bytes(ps: Seq<A2SPlayerInfoView>) -> Seq<u8>
    decreases ps.len(),
{
    if ps.len() == 0 {
        Seq::empty()
    } else {
        players_bytes(ps.drop_last()) + player_bytes(ps.last())
    }
}

pub open spec fn spec_player_at(b: Seq<u8>, pos: int) -> SpecRead<A2SPlayerInfoView> {
    match spec_u8_at(b, pos) {
        Err(e) => Err(e),
        Ok((index, p1)) => match spec_cstr_at(b, p1) {
            Err(e) => Err(e),
            Ok((name, p2)) => match spec_i32_at(b, p2) {
                Err(e) => Err(e),
                Ok((score, p3)) => match spec_u32_at(b, p3) {
                    Err(e) => Err(e),
                    Ok((duration_bits, end)) => Ok(
                        (A2SPlayerInfoView { index, name, score, duration_bits }, end),
                    ),
                },
            },
        },
    }
}

/// `n` players read one after another from `pos`; the first failure wins.
pub open spec fn spec_players_at(b: Seq<u8>, pos: int, n: nat) -> SpecRead<Seq<A2SPlayerInfoView>>
    decreases n,
{
    if n == 0 {
        Ok((Seq::empty(), pos))
    } else {
        match spec_players_at(b, pos, (n - 1) as nat) {
            Err(e) => Err(e),
            Ok((ps, p)) => match spec_player_at(b, p) {
                Err(e) => Err(e),
                Ok((pl, end)) => Ok((ps.push(pl), end)),
            },
        }
    }
}

impl A2SPlayerReplyView {
    pub open spec fn wf(&self) -> bool {
        &&& self.header == QueryHeader::A2SPlayerReply
        &&& self.players.len() == self.num_players
        &&& forall|i: int| 0 <= i < self.players.len() ==> nul_free(#[trigger] self.players[i].name)
    }

    /// The body: the kind byte, the count, then the players.
    pub open spec fn spec_encode(&self) -> Seq<u8> {
        seq![self.header.spec_byte(), self.num_players] + players_bytes(self.players)
    }
}

impl A2SPlayerReply {
    /// The body, parsed as far as the packet goes.
    pub open spec fn spec_parse(b: Seq<u8>) -> SpecRead<A2SPlayerReplyView> {
        match spec_kind_at(b, 0, QueryHeader::A2SPlayerReply) {
            Err(e) => Err(e),
            Ok((header, p1)) => match spec_u8_at(b, p1) {
                Err(e) => Err(e),
                Ok((num_players, p2)) => match spec_players_at(b, p2, num_players as nat) {
                    Err(e) => Err(e),
                    Ok((players, end)) => Ok(
                        (A2SPlayerReplyView { header, num_players, players }, end),
                    ),
                },
            },
        }
    }

    /// The body decoded: the packet, which must end at the body's last byte.
    pub open spec fn spec_decode(b: Seq<u8>) -> SpecRead<A2SPlayerReplyView> {
        whole(Self::spec_parse(b), b.len() as int)
    }


    /// The body, without the outer header.
    pub fn encode(&self) -> (r: Vec<u8>)
        ensures
            r@ == self@.spec_encode(),
    {
        let mut out: Vec<u8> = Vec::new();
        out.push(self.header.to_byte());
        out.push(self.num_players);
        let ghost start = out@;
        let mut i: usize = 0;
        while i < self.players.len()
            invariant
                i <= self.players@.len(),
                start == seq![self.header.spec_byte(), self.num_players],
                out@ == start + players_bytes(self@.players.take(i as int)),
            decreases self.players@.len() - i,
        {
            write_player(&mut out, &self.players[i]);
            proof {
                let ps = self@.players.take(i + 1);
                assert(ps.drop_last() =~= self@.players.take(i as int));
                assert(ps.last() == self.players@[i as int]@);
            }
            i = i + 1;
        }
        assert(self@.players.take(i as int) =~= self@.players);
        out
    }

    /// Decodes a body (a datagram without its outer header). Bytes after the
    /// packet make it malformed.
    pub fn decode(b: &[u8]) -> (r: Result<A2SPlayerReply, CodecError>)
        ensures
            view_result(r) == value_of(Self::spec_decode(b@)),
    {
        let (header, p1) = match read_kind(b, 0, QueryHeader::A2SPlayerReply) {
            Err(e) => return Err(e),
            Ok(x) => x,
        };
        let (num_players, p2) = match read_u8(b, p1) {
            Err(e) => return Err(e),
            Ok(x) => x,
        };
        let mut players: Vec<A2SPlayerInfo> = Vec::new();
        let mut pos: usize = p2;
        let mut i: u8 = 0;
        assert(players@.map_values(|p: A2SPlayerInfo| p@) =~= Seq::<A2SPlayerInfoView>::empty());
        while i < num_players
            invariant
                i <= num_players,
                spec_kind_at(b@, 0, QueryHeader::A2SPlayerReply) == Ok::<(QueryHeader, int), CodecError>(
                    (header, p1 as int),
                ),
                spec_u8_at(b@, p1 as int) == Ok::<(u8, int), CodecError>((num_players, p2 as int)),
                spec_players_at(b@, p2 as int, i as nat) == Ok::<
                    (Seq<A2SPlayerInfoView>, int),
                    CodecError,
                >((players@.map_values(|p: A2SPlayerInfo| p@), pos as int)),
            decreases num_players - i,
        {
            match read_player(b, pos) {
                Err(e) => {
                    proof {
                        assert(((i + 1) as nat - 1) as nat == i as nat);
                        assert(spec_players_at(b@, p2 as int, (i + 1) as nat) == Err::<
                            (Seq<A2SPlayerInfoView>, int),
                            CodecError,
                        >(e));
                        lemma_players_error_stays(b@, p2 as int, (i + 1) as nat, num_players as nat);
                    }
                    return Err(e);
                },
                Ok((pl, next)) => {
                    let ghost before = players@;
                    players.push(pl);
                    assert(players@.map_values(|p: A2SPlayerInfo| p@) =~= before.map_values(
                        |p: A2SPlayerInfo| p@,
                    ).push(pl@));
                    pos = next;
                },
            }
            i = i + 1;
        }
        if pos != b.len() {
            return Err(CodecError::MalformedField);
        }
        Ok(A2SPlayerReply { header, num_players, players })
    }
}

fn write_player(out: &mut Vec<u8>, p: &A2SPlayerInfo)
    ensures
        final(out)@ == old(out)@ + player_bytes(p@),
{
    out.push(p.index);
    write_cstr(out, &p.name);
    write_i32(out, p.score);
    write_u32(out, p.duration_bits);
    assert(out@ =~= old(out)@ + player_bytes(p@));
}

fn read_player(b: &[u8], pos: usize) -> (r: Result<(A2SPlayerInfo, usize), CodecError>)
    ensures
        lift_view(r) == spec_player_at(b@, pos as int),
{
    let (index, p1) = match read_u8(b, pos) {
        Err(e) => return Err(e),
        Ok(x) => x,
    };
    let (name, p2) = match read_cstr(b, p1) {
        Err(e) => return Err(e),
        Ok(x) => x,
    };
    let (score, p3) = match read_i32(b, p2) {
        Err(e) => return Err(e),
        Ok(x) => x,
    };
    let (duration_bits, end) = match read_u32(b, p3) {
        Err(e) => return Err(e),
        Ok(x) => x,
    };
    Ok((A2SPlayerInfo { index, name, score, duration_bits }, end))
}

/// Once reading the first `k` players fails, reading more fails the same way.
proof fn lemma_players_error_stays(b: Seq<u8>, pos: int, k: nat, n: nat)
    requires
        k <= n,
        spec_players_at(b, pos, k) is Err,
    ensures
        spec_players_at(b, pos, n) == spec_players_at(b, pos, k),
    decreases n - k,
{
    if k < n {
        lemma_players_error_stays(b, pos, k, (n - 1) as nat);
    }
}

proof fn lemma_player_round_trip(b: Seq<u8>, pos: int, p: A2SPlayerInfoView)
    requires
        nul_free(p.name),
        0 <= pos,
        pos + player_bytes(p).len() <= b.len(),
        b.subrange(pos, pos + player_bytes(p).len()) == player_bytes(p),
    ensures
        spec_player_at(b, pos) == Ok::<(A2SPlayerInfoView, int), CodecError>(
            (p, pos + player_bytes(p).len()),
        ),
{
    let a = seq![p.index];
    let s = cstr_bytes(p.name);
    let c = i32_bytes(p.score);
    let d = u32_bytes(p.duration_bits);
    lemma_i32_round_trip(p.score);
    lemma_u32_round_trip(p.duration_bits);
    lemma_split(b, pos, a + s + c, d);
    lemma_split(b, pos, a + s, c);
    lemma_split(b, pos, a, s);
    assert(b[pos] == p.index) by {
        assert(b.subrange(pos, pos + 1)[0] == b[pos]);
    }
    lemma_cstr_round_trip(b, pos + 1, p.name);
}

proof fn lemma_player_bytes_back(b: Seq<u8>, pos: int)
    requires
        0 <= pos,
        spec_player_at(b, pos) is Ok,
    ensures
        ({
            let (p, end) = spec_player_at(b, pos)->Ok_0;
            &&& nul_free(p.name)
            &&& pos + player_bytes(p).len() == end
            &&& end <= b.len()
            &&& b.subrange(pos, end) == player_bytes(p)
        }),
{
    let (p, end) = spec_player_at(b, pos)->Ok_0;
    let p1 = pos + 1;
    lemma_cstr_bytes_back(b, p1);
    let p2 = spec_cstr_at(b, p1)->Ok_0.1;
    let p3 = p2 + 4;
    lemma_i32_bytes_back(b.subrange(p2, p3));
    lemma_u32_bytes_back(b.subrange(p3, end));
    assert(b.subrange(pos, p1) =~= seq![p.index]);
    lemma_join(b, pos, p1, p2);
    lemma_join(b, pos, p2, p3);
    lemma_join(b, pos, p3, end);
}

proof fn lemma_players_round_trip(b: Seq<u8>, pos: int, ps: Seq<A2SPlayerInfoView>)
    requires
        forall|i: int| 0 <= i < ps.len() ==> nul_free(#[trigger] ps[i].name),
        0 <= pos,
        pos + players_bytes(ps).len() <= b.len(),
        b.subrange(pos, pos + players_bytes(ps).len()) == players_bytes(ps),
    ensures
        spec_players_at(b, pos, ps.len()) == Ok::<(Seq<A2SPlayerInfoView>, int), CodecError>(
            (ps, pos + players_bytes(ps).len()),
        ),
    decreases ps.len(),
{
    if ps.len() == 0 {
        assert(ps =~= Seq::<A2SPlayerInfoView>::empty());
    } else {
        let init = ps.drop_last();
        let last = ps.last();
        assert(players_bytes(ps) == players_bytes(init) + player_bytes(last));
        assert((ps.len() - 1) as nat == init.len());
        lemma_split(b, pos, players_bytes(init), player_bytes(last));
        assert forall|i: int| 0 <= i < init.len() implies nul_free(#[trigger] init[i].name) by {
            assert(init[i] == ps[i]);
        }
        lemma_players_round_trip(b, pos, init);
        assert(nul_free(ps[ps.len() - 1].name));
        lemma_player_round_trip(b, pos + players_bytes(init).len(), last);
        assert(init.push(last) =~= ps);
    }
}

proof fn lemma_players_bytes_back(b: Seq<u8>, pos: int, n: nat)
    requires
        0 <= pos <= b.len(),
        spec_players_at(b, pos, n) is Ok,
    ensures
        ({
            let (ps, end) = spec_players_at(b, pos, n)->Ok_0;
            &&& ps.len() == n
            &&& forall|i: int| 0 <= i < ps.len() ==> nul_free(#[trigger] ps[i].name)
            &&& pos + players_bytes(ps).len() == end
            &&& end <= b.len()
            &&& b.subrange(pos, end) == players_bytes(ps)
        }),
    decreases n,
{
    if n == 0 {
        assert(b.subrange(pos, pos) =~= Seq::<u8>::empty());
    } else {
        lemma_players_bytes_back(b, pos, (n - 1) as nat);
        let (init, p) = spec_players_at(b, pos, (n - 1) as nat)->Ok_0;
        lemma_player_bytes_back(b, p);
        let (ps, end) = spec_players_at(b, pos, n)->Ok_0;
        assert(ps.drop_last() =~= init);
        lemma_join(b, pos, p, end);
        assert forall|i: int| 0 <= i < ps.len() implies nul_free(#[trigger] ps[i].name) by {
            if i < init.len() {
                assert(ps[i] == init[i]);
            }
        }
    }
}

/// Decoding the encoding of a well-formed player reply gives it back.
pub proof fn lemma_player_reply_decode_encode(v: A2SPlayerReplyView)
    requires
        v.wf(),
    ensures
        A2SPlayerReply::spec_decode(v.spec_encode()) == Ok::<(A2SPlayerReplyView, int), CodecError>(
            (v, v.spec_encode().len() as int),
        ),
{
    let b = v.spec_encode();
    let body = players_bytes(v.players);
    v.header.lemma_byte_round_trip(b[0]);
    assert(b.subrange(2, (2 + body.len()) as int) =~= body);
    lemma_players_round_trip(b, 2, v.players);
}

/// A decoded player reply is well formed and re-encodes to exactly the bytes
/// it was read from.
pub proof fn lemma_player_reply_encode_decode(b: Seq<u8>)
    requires
        A2SPlayerReply::spec_decode(b) is Ok,
    ensures
        ({
            let (v, _) = A2SPlayerReply::spec_decode(b)->Ok_0;
            v.wf() && v.spec_encode() == b
        }),
{
    let (v, end) = A2SPlayerReply::spec_decode(b)->Ok_0;
    v.header.lemma_byte_round_trip(b[0]);
    lemma_players_bytes_back(b, 2, v.num_players as nat);
    assert(b.subrange(0, 2) =~= seq![b[0], b[1]]);
    lemma_join(b, 0, 2, end);
    assert(b.subrange(0, end) =~= b);
}

impl SourceQueryResponse for A2SPlayerReply {
    open spec fn spec_packet_header() -> QueryHeader {
        QueryHeader::A2SPlayerReply
    }

    fn packet_header() -> (r: QueryHeader) {
        QueryHeader::A2SPlayerReply
    }
}

impl SourceQueryRequest for A2SPlayer {
    open spec fn spec_with_challenge(self, challenge: SourceChallenge) -> Self {
        A2SPlayer { challenge: Some(challenge), ..self }
    }

    fn set_challenge(&mut self, challenge: SourceChallenge) {
        self.challenge = Some(challenge);
    }
}

} // verus!
