//! A2S_INFO: the request for the server's description and its reply.
use crate::header::{SourceQueryRequest, SourceQueryResponse, read_kind, spec_kind_at, QueryHeader, SourceChallenge};
use crate::wire::{whole, 
    cstr_bytes, i16_bytes, i32_bytes, i64_bytes, lemma_cstr_bytes_back, lemma_cstr_round_trip,
    lemma_i16_bytes_back, lemma_i16_round_trip, lemma_i32_bytes_back, lemma_i32_round_trip,
    lemma_i64_bytes_back, lemma_i64_round_trip, lemma_join, lemma_split, lift, nul_free, read_cstr,
    read_i16, read_i32, read_i64, read_u8, spec_cstr_at, spec_i16_at, spec_i32_at, spec_i64_at,
    spec_u8_at, value_of, view_result, write_cstr, write_i16, write_i32, write_i64, CodecError,
    SpecRead,
};
use vstd::bytes::spec_u16_from_le_bytes;
use vstd::prelude::*;

verus! {

broadcast use vstd::seq::group_seq_axioms;

/// The text an A2S_INFO request carries before its challenge. On the wire it
/// is null-terminated like every string.
pub const A2S_INFO_REQUEST_PAYLOAD: &'static str = "Source Engine Query";

/// The standard payload can travel null-terminated.
pub proof fn lemma_standard_payload_nul_free()
    ensures
        nul_free(A2S_INFO_REQUEST_PAYLOAD@),
{
    reveal_strlit("Source Engine Query");
}

/// The characters of an optional string.
pub open spec fn opt_str_view(o: Option<String>) -> Option<Seq<char>> {
    match o {
        Some(s) => Some(s@),
        None => None,
    }
}

// ---------------------------------------------------------------------------
// Request
// ---------------------------------------------------------------------------

/// The request for the server's description.
#[derive(Debug, Clone, PartialEq, Eq)]
pub struct A2SInfo {
    pub header: QueryHeader,
    pub payload: String,
    pub challenge: Option<SourceChallenge>,
}

pub struct A2SInfoView {
    pub header: QueryHeader,
    pub payload: Seq<char>,
    pub challenge: Option<SourceChallenge>,
}

impl View for A2SInfo {
    type V = A2SInfoView;

    open spec fn view(&self) -> A2SInfoView {
        A2SInfoView { header: self.header, payload: self.payload@, challenge: self.challenge }
    }
}

impl A2SInfoView {
    pub open spec fn wf(&self) -> bool {
        self.header == QueryHeader::A2SInfo && nul_free(self.payload)
    }

    /// The body: the kind byte, the payload string, then the challenge if
    /// there is one.
    pub open spec fn spec_encode(&self) -> Seq<u8> {
        seq![self.header.spec_byte()] + cstr_bytes(self.payload) + match self.challenge {
            Some(c) => i32_bytes(c),
            None => Seq::empty(),
        }
    }
}

/// The challenge after the payload: four more bytes hold one; fewer hold none.
pub open spec fn spec_info_challenge_at(b: Seq<u8>, pos: int) -> SpecRead<Option<SourceChallenge>> {
    if pos + 4 <= b.len() {
        match spec_i32_at(b, pos) {
            Err(e) => Err(e),
            Ok((c, end)) => Ok((Some(c), end)),
        }
    } else {
        Ok((None, pos))
    }
}

impl A2SInfo {
    /// The body, parsed as far as the packet goes.
    pub open spec fn spec_parse(b: Seq<u8>) -> SpecRead<A2SInfoView> {
        match spec_kind_at(b, 0, QueryHeader::A2SInfo) {
            Err(e) => Err(e),
            Ok((header, p1)) => match spec_cstr_at(b, p1) {
                Err(e) => Err(e),
                Ok((payload, p2)) => match spec_info_challenge_at(b, p2) {
                    Err(e) => Err(e),
                    Ok((challenge, end)) => Ok((A2SInfoView { header, payload, challenge }, end)),
                },
            },
        }
    }

    /// The body decoded: the packet, which must end at the body's last byte.
    pub open spec fn spec_decode(b: Seq<u8>) -> SpecRead<A2SInfoView> {
        whole(Self::spec_parse(b), b.len() as int)
    }

    /// A request without a challenge, carrying the standard payload.
    pub fn new() -> (r: Self)
        ensures
            r@ == (A2SInfoView {
                header: QueryHeader::A2SInfo,
                payload: A2S_INFO_REQUEST_PAYLOAD@,
                challenge: None,
            }),
            r@.wf(),
    {
        proof {
            lemma_standard_payload_nul_free();
        }
        A2SInfo {
            header: QueryHeader::A2SInfo,
            payload: A2S_INFO_REQUEST_PAYLOAD.to_owned(),
            challenge: None,
        }
    }

    /// A request carrying the standard payload and `challenge`.
    pub fn with_challenge(challenge: SourceChallenge) -> (r: Self)
        ensures
            r@ == (A2SInfoView {
                header: QueryHeader::A2SInfo,
                payload: A2S_INFO_REQUEST_PAYLOAD@,
                challenge: Some(challenge),
            }),
            r@.wf(),
    {
        proof {
            lemma_standard_payload_nul_free();
        }
        A2SInfo {
            header: QueryHeader::A2SInfo,
            payload: A2S_INFO_REQUEST_PAYLOAD.to_owned(),
            challenge: Some(challenge),
        }
    }


    /// The body, without the outer header.
    pub fn encode(&self) -> (r: Vec<u8>)
        ensures
            r@ == self@.spec_encode(),
    {
        let mut out: Vec<u8> = Vec::new();
        out.push(self.header.to_byte());
        write_cstr(&mut out, &self.payload);
        match self.challenge {
            Some(c) => write_i32(&mut out, c),
            None => {},
        }
        assert(out@ =~= self@.spec_encode());
        out
    }

    /// Decodes a body (a datagram without its outer header). Bytes after the
    /// packet make it malformed.
    pub fn decode(b: &[u8]) -> (r: Result<A2SInfo, CodecError>)
        ensures
            view_result(r) == value_of(Self::spec_decode(b@)),
    {
        let (header, p1) = match read_kind(b, 0, QueryHeader::A2SInfo) {
            Err(e) => return Err(e),
            Ok(x) => x,
        };
        let (payload, p2) = match read_cstr(b, p1) {
            Err(e) => return Err(e),
            Ok(x) => x,
        };
        let (challenge, end) = if p2 <= b.len() && b.len() - p2 >= 4 {
            match read_i32(b, p2) {
                Err(e) => return Err(e),
                Ok((c, end)) => (Some(c), end),
            }
        } else {
            (None, p2)
        };
        if end != b.len() {
            return Err(CodecError::MalformedField);
        }
        Ok(A2SInfo { header, payload, challenge })
    }
}

/// Decoding the encoding of a well-formed info request gives it back.
pub proof fn lemma_info_request_decode_encode(v: A2SInfoView)
    requires
        v.wf(),
    ensures
        A2SInfo::spec_decode(v.spec_encode()) == Ok::<(A2SInfoView, int), CodecError>(
            (v, v.spec_encode().len() as int),
        ),
{
    let b = v.spec_encode();
    let head = seq![v.header.spec_byte()];
    let s = cstr_bytes(v.payload);
    let tail = match v.challenge {
        Some(c) => i32_bytes(c),
        None => Seq::empty(),
    };
    v.header.lemma_byte_round_trip(b[0]);
    assert(b =~= head + s + tail);
    assert(b.subrange(0, b.len() as int) =~= b);
    lemma_split(b, 0, head + s, tail);
    lemma_split(b, 0, head, s);
    lemma_cstr_round_trip(b, 1, v.payload);
    match v.challenge {
        Some(c) => lemma_i32_round_trip(c),
        None => {},
    }
}

/// A decoded info request is well formed and re-encodes to exactly the bytes
/// it was read from.
pub proof fn lemma_info_request_encode_decode(b: Seq<u8>)
    requires
        A2SInfo::spec_decode(b) is Ok,
    ensures
        ({
            let (v, _) = A2SInfo::spec_decode(b)->Ok_0;
            v.wf() && v.spec_encode() == b
        }),
{
    let (v, end) = A2SInfo::spec_decode(b)->Ok_0;
    v.header.lemma_byte_round_trip(b[0]);
    lemma_cstr_bytes_back(b, 1);
    let p2 = spec_cstr_at(b, 1)->Ok_0.1;
    assert(b.subrange(0, 1) =~= seq![b[0]]);
    lemma_join(b, 0, 1, p2);
    if p2 + 4 <= b.len() {
        lemma_i32_bytes_back(b.subrange(p2, p2 + 4));
        lemma_join(b, 0, p2, end);
    } else {
        assert(b.subrange(p2, p2) =~= Seq::<u8>::empty());
        lemma_join(b, 0, p2, end);
    }
    assert(b.subrange(0, end) =~= b);
}

// ---------------------------------------------------------------------------
// Reply
// ---------------------------------------------------------------------------

/// EDF bit: the game port follows.
pub const EDF_PORT: u8 = 0x80;

/// EDF bit: the server's Steam ID follows.
pub const EDF_STEAM_ID: u8 = 0x10;

/// EDF bit: the SourceTV port and name follow.
pub const EDF_SOURCE_TV: u8 = 0x40;

/// EDF bit: the keywords follow.
pub const EDF_KEYWORDS: u8 = 0x20;

/// EDF bit: the 64-bit game ID follows.
pub const EDF_GAME_ID: u8 = 0x01;

/// The server's description.
#[derive(Debug, Clone, PartialEq, Eq)]
pub struct A2SInfoReply {
    pub header: QueryHeader,
    pub protocol: u8,
    pub name: String,
    pub map: String,
    pub folder: String,
    pub game: String,
    pub id: i16,
    pub players: u8,
    pub max_players: u8,
    pub bots: u8,
    pub server_type: u8,
    pub environment: u8,
    pub visibility: u8,
    pub vac: u8,
    pub version: String,
    pub edf: u8,
    pub port: Option<i16>,
    pub steam_id: Option<i64>,
    pub source_tv_port: Option<i16>,
    pub source_tv_name: Option<String>,
    pub keywords: Option<String>,
    pub game_id: Option<i64>,
}

pub struct A2SInfoReplyView {
    pub header: QueryHeader,
    pub protocol: u8,
    pub name: Seq<char>,
    pub map: Seq<char>,
    pub folder: Seq<char>,
    pub game: Seq<char>,
    pub id: i16,
    pub players: u8,
    pub max_players: u8,
    pub bots: u8,
    pub server_type: u8,
    pub environment: u8,
    pub visibility: u8,
    pub vac: u8,
    pub version: Seq<char>,
    pub edf: u8,
    pub port: Option<i16>,
    pub steam_id: Option<i64>,
    pub source_tv_port: Option<i16>,
    pub source_tv_name: Option<Seq<char>>,
    pub keywords: Option<Seq<char>>,
    pub game_id: Option<i64>,
}

impl View for A2SInfoReply {
    type V = A2SInfoReplyView;

    open spec fn view(&self) -> A2SInfoReplyView {
        A2SInfoReplyView {
            header: self.header,
            protocol: self.protocol,
            name: self.name@,
            map: self.map@,
            folder: self.folder@,
            game: self.game@,
            id: self.id,
            players: self.players,
            max_players: self.max_players,
            bots: self.bots,
            server_type: self.server_type,
            environment: self.environment,
            visibility: self.visibility,
            vac: self.vac,
            version: self.version@,
            edf: self.edf,
            port: self.port,
            steam_id: self.steam_id,
            source_tv_port: self.source_tv_port,
            source_tv_name: opt_str_view(self.source_tv_name),
            keywords: opt_str_view(self.keywords),
            game_id: self.game_id,
        }
    }
}

/// Whether the EDF byte has `bit` set.
pub open spec fn edf_has(edf: u8, bit: u8) -> bool {
    edf & bit != 0
}

#[verifier::opaque]
pub open spec fn opt_i16_bytes(o: Option<i16>) -> Seq<u8> {
    match o {
        Some(x) => i16_bytes(x),
        None => Seq::empty(),
    }
}

#[verifier::opaque]
pub open spec fn opt_i64_bytes(o: Option<i64>) -> Seq<u8> {
    match o {
        Some(x) => i64_bytes(x),
        None => Seq::empty(),
    }
}

#[verifier::opaque]
pub open spec fn opt_cstr_bytes(o: Option<Seq<char>>) -> Seq<u8> {
    match o {
        Some(s) => cstr_bytes(s),
        None => Seq::empty(),
    }
}

pub open spec fn opt_nul_free(o: Option<Seq<char>>) -> bool {
    match o {
        Some(s) => nul_free(s),
        None => true,
    }
}

/// An `i16` that is there only when `present`.
#[verifier::opaque]
pub open spec fn spec_opt_i16_at(b: Seq<u8>, pos: int, present: bool) -> SpecRead<Option<i16>> {
    if present {
        match spec_i16_at(b, pos) {
            Err(e) => Err(e),
            Ok((x, end)) => Ok((Some(x), end)),
        }
    } else {
        Ok((None, pos))
    }
}

/// An `i64` that is there only when `present`.
#[verifier::opaque]
pub open spec fn spec_opt_i64_at(b: Seq<u8>, pos: int, present: bool) -> SpecRead<Option<i64>> {
    if present {
        match spec_i64_at(b, pos) {
            Err(e) => Err(e),
            Ok((x, end)) => Ok((Some(x), end)),
        }
    } else {
        Ok((None, pos))
    }
}

/// A string that is there only when `present`.
#[verifier::opaque]
pub open spec fn spec_opt_cstr_at(b: Seq<u8>, pos: int, present: bool) -> SpecRead<
    Option<Seq<char>>,
> {
    if present {
        match spec_cstr_at(b, pos) {
            Err(e) => Err(e),
            Ok((x, end)) => Ok((Some(x), end)),
        }
    } else {
        Ok((None, pos))
    }
}

/// The optional fields that the EDF byte selects.
pub struct InfoExtra {
    pub port: Option<i16>,
    pub steam_id: Option<i64>,
    pub source_tv_port: Option<i16>,
    pub source_tv_name: Option<Seq<char>>,
    pub keywords: Option<Seq<char>>,
    pub game_id: Option<i64>,
}

/// Reads the optional fields in their fixed order: port, Steam ID, SourceTV
/// port and name, keywords, game ID.
pub open spec fn spec_info_extra_at(b: Seq<u8>, pos: int, edf: u8) -> SpecRead<InfoExtra> {
    match spec_opt_i16_at(b, pos, edf_has(edf, EDF_PORT)) {
        Err(e) => Err(e),
        Ok((port, p1)) => match spec_opt_i64_at(b, p1, edf_has(edf, EDF_STEAM_ID)) {
            Err(e) => Err(e),
            Ok((steam_id, p2)) => match spec_opt_i16_at(b, p2, edf_has(edf, EDF_SOURCE_TV)) {
                Err(e) => Err(e),
                Ok((source_tv_port, p3)) => match spec_opt_cstr_at(
                    b,
                    p3,
                    edf_has(edf, EDF_SOURCE_TV),
                ) {
                    Err(e) => Err(e),
                    Ok((source_tv_name, p4)) => match spec_opt_cstr_at(
                        b,
                        p4,
                        edf_has(edf, EDF_KEYWORDS),
                    ) {
                        Err(e) => Err(e),
                        Ok((keywords, p5)) => match spec_opt_i64_at(
                            b,
                            p5,
                            edf_has(edf, EDF_GAME_ID),
                        ) {
                            Err(e) => Err(e),
                            Ok((game_id, end)) => Ok(
                                (
                                    InfoExtra {
                                        port,
                                        steam_id,
                                        source_tv_port,
                                        source_tv_name,
                                        keywords,
                                        game_id,
                                    },
                                    end,
                                ),
                            ),
                        },
                    },
                },
            },
        },
    }
}

/// The nine fixed bytes after the game: the app ID, then seven one-byte fields.
pub open spec fn fixed_bytes(v: A2SInfoReplyView) -> Seq<u8> {
    i16_bytes(v.id) + seq![
        v.players,
        v.max_players,
        v.bots,
        v.server_type,
        v.environment,
        v.visibility,
        v.vac,
    ]
}

/// The kind byte, the protocol and the four leading strings.
pub open spec fn lead_bytes(v: A2SInfoReplyView) -> Seq<u8> {
    seq![v.header.spec_byte(), v.protocol] + cstr_bytes(v.name) + cstr_bytes(v.map) + cstr_bytes(
        v.folder,
    ) + cstr_bytes(v.game)
}

/// The optional fields that are present, in their fixed order.
pub open spec fn extra_bytes(x: InfoExtra) -> Seq<u8> {
    opt_i16_bytes(x.port) + opt_i64_bytes(x.steam_id) + opt_i16_bytes(x.source_tv_port)
        + opt_cstr_bytes(x.source_tv_name) + opt_cstr_bytes(x.keywords) + opt_i64_bytes(x.game_id)
}

/// Each optional field is there exactly when its EDF bit is set, and its
/// strings can travel null-terminated.
pub open spec fn extra_ok(x: InfoExtra, edf: u8) -> bool {
    &&& (x.port is Some <==> edf_has(edf, EDF_PORT))
    &&& (x.steam_id is Some <==> edf_has(edf, EDF_STEAM_ID))
    &&& (x.source_tv_port is Some <==> edf_has(edf, EDF_SOURCE_TV))
    &&& (x.source_tv_name is Some <==> edf_has(edf, EDF_SOURCE_TV))
    &&& opt_nul_free(x.source_tv_name)
    &&& (x.keywords is Some <==> edf_has(edf, EDF_KEYWORDS))
    &&& opt_nul_free(x.keywords)
    &&& (x.game_id is Some <==> edf_has(edf, EDF_GAME_ID))
}

impl A2SInfoReplyView {
    pub open spec fn wf(&self) -> bool {
        &&& self.header == QueryHeader::A2SInfoReply
        &&& nul_free(self.name)
        &&& nul_free(self.map)
        &&& nul_free(self.folder)
        &&& nul_free(self.game)
        &&& nul_free(self.version)
        &&& extra_ok(self.extra(), self.edf)
    }

    /// The optional fields of this reply.
    pub open spec fn extra(&self) -> InfoExtra {
        InfoExtra {
            port: self.port,
            steam_id: self.steam_id,
            source_tv_port: self.source_tv_port,
            source_tv_name: self.source_tv_name,
            keywords: self.keywords,
            game_id: self.game_id,
        }
    }

    /// The body, field after field; the optional fields go by which of them
    /// are present.
    pub open spec fn spec_encode(&self) -> Seq<u8> {
        lead_bytes(*self) + fixed_bytes(*self) + cstr_bytes(self.version) + seq![self.edf]
            + extra_bytes(self.extra())
    }
}

impl A2SInfoReply {
    /// The body, parsed as far as the packet goes.
    pub open spec fn spec_parse(b: Seq<u8>) -> SpecRead<A2SInfoReplyView> {
        match spec_kind_at(b, 0, QueryHeader::A2SInfoReply) {
            Err(e) => Err(e),
            Ok((header, p0)) => match spec_u8_at(b, p0) {
                Err(e) => Err(e),
                Ok((protocol, p1)) => match spec_cstr_at(b, p1) {
                    Err(e) => Err(e),
                    Ok((name, p2)) => match spec_cstr_at(b, p2) {
                        Err(e) => Err(e),
                        Ok((map, p3)) => match spec_cstr_at(b, p3) {
                            Err(e) => Err(e),
                            Ok((folder, p4)) => match spec_cstr_at(b, p4) {
                                Err(e) => Err(e),
                                Ok((game, p5)) => if p5 + 9 > b.len() {
                                    Err(CodecError::ShortPacket)
                                } else {
                                    let f = b.subrange(p5, p5 + 9);
                                    match spec_cstr_at(b, p5 + 9) {
                                        Err(e) => Err(e),
                                        Ok((version, p6)) => match spec_u8_at(b, p6) {
                                            Err(e) => Err(e),
                                            Ok((edf, p7)) => match spec_info_extra_at(b, p7, edf) {
                                                Err(e) => Err(e),
                                                Ok((x, end)) => Ok(
                                                    (
                                                        A2SInfoReplyView {
                                                            header,
                                                            protocol,
                                                            name,
                                                            map,
                                                            folder,
                                                            game,
                                                            id: spec_u16_from_le_bytes(
                                                                f.subrange(0, 2),
                                                            ) as i16,
                                                            players: f[2],
                                                            max_players: f[3],
                                                            bots: f[4],
                                                            server_type: f[5],
                                                            environment: f[6],
                                                            visibility: f[7],
                                                            vac: f[8],
                                                            version,
                                                            edf,
                                                            port: x.port,
                                                            steam_id: x.steam_id,
                                                            source_tv_port: x.source_tv_port,
                                                            source_tv_name: x.source_tv_name,
                                                            keywords: x.keywords,
                                                            game_id: x.game_id,
                                                        },
                                                        end,
                                                    ),
                                                ),
                                            },
                                        },
                                    }
                                },
                            },
                        },
                    },
                },
            },
        }
    }

    /// The body decoded: the packet, which must end at the body's last byte.
    pub open spec fn spec_decode(b: Seq<u8>) -> SpecRead<A2SInfoReplyView> {
        whole(Self::spec_parse(b), b.len() as int)
    }


    /// The body, without the outer header.
    pub fn encode(&self) -> (r: Vec<u8>)
        ensures
            r@ == self@.spec_encode(),
    {
        let mut out: Vec<u8> = Vec::new();
        self.write_lead(&mut out);
        self.write_fixed(&mut out);
        write_cstr(&mut out, &self.version);
        out.push(self.edf);
        self.write_extra(&mut out);
        out
    }

    fn write_lead(&self, out: &mut Vec<u8>)
        ensures
            final(out)@ == old(out)@ + lead_bytes(self@),
    {
        out.push(self.header.to_byte());
        out.push(self.protocol);
        write_cstr(out, &self.name);
        write_cstr(out, &self.map);
        write_cstr(out, &self.folder);
        write_cstr(out, &self.game);
        assert(out@ =~= old(out)@ + lead_bytes(self@));
    }

    fn write_fixed(&self, out: &mut Vec<u8>)
        ensures
            final(out)@ == old(out)@ + fixed_bytes(self@),
    {
        write_i16(out, self.id);
        out.push(self.players);
        out.push(self.max_players);
        out.push(self.bots);
        out.push(self.server_type);
        out.push(self.environment);
        out.push(self.visibility);
        out.push(self.vac);
        assert(out@ =~= old(out)@ + fixed_bytes(self@));
    }

    fn write_extra(&self, out: &mut Vec<u8>)
        ensures
            final(out)@ == old(out)@ + extra_bytes(self@.extra()),
    {
        write_opt_i16(out, self.port);
        write_opt_i64(out, self.steam_id);
        write_opt_i16(out, self.source_tv_port);
        write_opt_cstr(out, &self.source_tv_name);
        write_opt_cstr(out, &self.keywords);
        write_opt_i64(out, self.game_id);
        assert(out@ =~= old(out)@ + extra_bytes(self@.extra()));
    }

    /// Decodes a body (a datagram without its outer header). Bytes after the
    /// packet make it malformed.
    pub fn decode(b: &[u8]) -> (r: Result<A2SInfoReply, CodecError>)
        ensures
            view_result(r) == value_of(Self::spec_decode(b@)),
    {
        let (header, p0) = match read_kind(b, 0, QueryHeader::A2SInfoReply) {
            Err(e) => return Err(e),
            Ok(x) => x,
        };
        let (protocol, p1) = match read_u8(b, p0) {
            Err(e) => return Err(e),
            Ok(x) => x,
        };
        let (name, p2) = match read_cstr(b, p1) {
            Err(e) => return Err(e),
            Ok(x) => x,
        };
        let (map, p3) = match read_cstr(b, p2) {
            Err(e) => return Err(e),
            Ok(x) => x,
        };
        let (folder, p4) = match read_cstr(b, p3) {
            Err(e) => return Err(e),
            Ok(x) => x,
        };
        let (game, p5) = match read_cstr(b, p4) {
            Err(e) => return Err(e),
            Ok(x) => x,
        };
        if p5 > b.len() || b.len() - p5 < 9 {
            return Err(CodecError::ShortPacket);
        }
        let (id, _) = match read_i16(b, p5) {
            Err(e) => return Err(e),
            Ok(x) => x,
        };
        assert(b@.subrange(p5 as int, p5 + 9).subrange(0, 2) =~= b@.subrange(
            p5 as int,
            p5 + 2,
        ));
        let players = b[p5 + 2];
        let max_players = b[p5 + 3];
        let bots = b[p5 + 4];
        let server_type = b[p5 + 5];
        let environment = b[p5 + 6];
        let visibility = b[p5 + 7];
        let vac = b[p5 + 8];
        let (version, p6) = match read_cstr(b, p5 + 9) {
            Err(e) => return Err(e),
            Ok(x) => x,
        };
        let (edf, p7) = match read_u8(b, p6) {
            Err(e) => return Err(e),
            Ok(x) => x,
        };
        let (port, q1) = match read_opt_i16(b, p7, edf & EDF_PORT != 0) {
            Err(e) => return Err(e),
            Ok(x) => x,
        };
        let (steam_id, q2) = match read_opt_i64(b, q1, edf & EDF_STEAM_ID != 0) {
            Err(e) => return Err(e),
            Ok(x) => x,
        };
        let (source_tv_port, q3) = match read_opt_i16(b, q2, edf & EDF_SOURCE_TV != 0) {
            Err(e) => return Err(e),
            Ok(x) => x,
        };
        let (source_tv_name, q4) = match read_opt_cstr(b, q3, edf & EDF_SOURCE_TV != 0) {
            Err(e) => return Err(e),
            Ok(x) => x,
        };
        let (keywords, q5) = match read_opt_cstr(b, q4, edf & EDF_KEYWORDS != 0) {
            Err(e) => return Err(e),
            Ok(x) => x,
        };
        let (game_id, end) = match read_opt_i64(b, q5, edf & EDF_GAME_ID != 0) {
            Err(e) => return Err(e),
            Ok(x) => x,
        };
        if end != b.len() {
            return Err(CodecError::MalformedField);
        }
        Ok(
            A2SInfoReply {
                header,
                protocol,
                name,
                map,
                folder,
                game,
                id,
                players,
                max_players,
                bots,
                server_type,
                environment,
                visibility,
                vac,
                version,
                edf,
                port,
                steam_id,
                source_tv_port,
                source_tv_name,
                keywords,
                game_id,
            },
        )
    }
}

fn write_opt_i16(out: &mut Vec<u8>, o: Option<i16>)
    ensures
        final(out)@ == old(out)@ + opt_i16_bytes(o),
{
    proof {
        reveal(opt_i16_bytes);
    }
    match o {
        Some(x) => write_i16(out, x),
        None => assert(out@ =~= old(out)@ + opt_i16_bytes(o)),
    }
}

fn write_opt_i64(out: &mut Vec<u8>, o: Option<i64>)
    ensures
        final(out)@ == old(out)@ + opt_i64_bytes(o),
{
    proof {
        reveal(opt_i64_bytes);
    }
    match o {
        Some(x) => write_i64(out, x),
        None => assert(out@ =~= old(out)@ + opt_i64_bytes(o)),
    }
}

fn write_opt_cstr(out: &mut Vec<u8>, o: &Option<String>)
    ensures
        final(out)@ == old(out)@ + opt_cstr_bytes(opt_str_view(*o)),
{
    proof {
        reveal(opt_cstr_bytes);
    }
    match o {
        Some(s) => write_cstr(out, s),
        None => assert(out@ =~= old(out)@ + opt_cstr_bytes(opt_str_view(*o))),
    }
}

fn read_opt_i16(b: &[u8], pos: usize, present: bool) -> (r: Result<(Option<i16>, usize), CodecError>)
    ensures
        lift(r) == spec_opt_i16_at(b@, pos as int, present),
{
    proof {
        reveal(spec_opt_i16_at);
    }
    if present {
        match read_i16(b, pos) {
            Err(e) => Err(e),
            Ok((x, end)) => Ok((Some(x), end)),
        }
    } else {
        Ok((None, pos))
    }
}

fn read_opt_i64(b: &[u8], pos: usize, present: bool) -> (r: Result<(Option<i64>, usize), CodecError>)
    ensures
        lift(r) == spec_opt_i64_at(b@, pos as int, present),
{
    proof {
        reveal(spec_opt_i64_at);
    }
    if present {
        match read_i64(b, pos) {
            Err(e) => Err(e),
            Ok((x, end)) => Ok((Some(x), end)),
        }
    } else {
        Ok((None, pos))
    }
}

fn read_opt_cstr(b: &[u8], pos: usize, present: bool) -> (r: Result<
    (Option<String>, usize),
    CodecError,
>)
    ensures
        match r {
            Ok((s, end)) => spec_opt_cstr_at(b@, pos as int, present) == Ok::<
                (Option<Seq<char>>, int),
                CodecError,
            >((opt_str_view(s), end as int)),
            Err(e) => spec_opt_cstr_at(b@, pos as int, present) == Err::<
                (Option<Seq<char>>, int),
                CodecError,
            >(e),
        },
{
    proof {
        reveal(spec_opt_cstr_at);
    }
    if present {
        match read_cstr(b, pos) {
            Err(e) => Err(e),
            Ok((x, end)) => Ok((Some(x), end)),
        }
    } else {
        Ok((None, pos))
    }
}

proof fn lemma_opt_i16_round_trip(b: Seq<u8>, pos: int, o: Option<i16>, present: bool)
    requires
        o is Some <==> present,
        0 <= pos,
        pos + opt_i16_bytes(o).len() <= b.len(),
        b.subrange(pos, pos + opt_i16_bytes(o).len()) == opt_i16_bytes(o),
    ensures
        spec_opt_i16_at(b, pos, present) == Ok::<(Option<i16>, int), CodecError>(
            (o, pos + opt_i16_bytes(o).len()),
        ),
{
    reveal(opt_i16_bytes);
    reveal(spec_opt_i16_at);
    if let Some(x) = o {
        lemma_i16_round_trip(x);
    }
}

proof fn lemma_opt_i64_round_trip(b: Seq<u8>, pos: int, o: Option<i64>, present: bool)
    requires
        o is Some <==> present,
        0 <= pos,
        pos + opt_i64_bytes(o).len() <= b.len(),
        b.subrange(pos, pos + opt_i64_bytes(o).len()) == opt_i64_bytes(o),
    ensures
        spec_opt_i64_at(b, pos, present) == Ok::<(Option<i64>, int), CodecError>(
            (o, pos + opt_i64_bytes(o).len()),
        ),
{
    reveal(opt_i64_bytes);
    reveal(spec_opt_i64_at);
    if let Some(x) = o {
        lemma_i64_round_trip(x);
    }
}

proof fn lemma_opt_cstr_round_trip(b: Seq<u8>, pos: int, o: Option<Seq<char>>, present: bool)
    requires
        o is Some <==> present,
        opt_nul_free(o),
        0 <= pos,
        pos + opt_cstr_bytes(o).len() <= b.len(),
        b.subrange(pos, pos + opt_cstr_bytes(o).len()) == opt_cstr_bytes(o),
    ensures
        spec_opt_cstr_at(b, pos, present) == Ok::<(Option<Seq<char>>, int), CodecError>(
            (o, pos + opt_cstr_bytes(o).len()),
        ),
{
    reveal(opt_cstr_bytes);
    reveal(spec_opt_cstr_at);
    if let Some(x) = o {
        lemma_cstr_round_trip(b, pos, x);
    }
}

proof fn lemma_opt_i16_bytes_back(b: Seq<u8>, pos: int, present: bool)
    requires
        0 <= pos <= b.len(),
        spec_opt_i16_at(b, pos, present) is Ok,
    ensures
        ({
            let (o, end) = spec_opt_i16_at(b, pos, present)->Ok_0;
            &&& (o is Some <==> present)
            &&& pos + opt_i16_bytes(o).len() == end
            &&& end <= b.len()
            &&& b.subrange(pos, end) == opt_i16_bytes(o)
        }),
{
    reveal(opt_i16_bytes);
    reveal(spec_opt_i16_at);
    if present {
        lemma_i16_bytes_back(b.subrange(pos, pos + 2));
    } else {
        assert(b.subrange(pos, pos) =~= Seq::<u8>::empty());
    }
}

proof fn lemma_opt_i64_bytes_back(b: Seq<u8>, pos: int, present: bool)
    requires
        0 <= pos <= b.len(),
        spec_opt_i64_at(b, pos, present) is Ok,
    ensures
        ({
            let (o, end) = spec_opt_i64_at(b, pos, present)->Ok_0;
            &&& (o is Some <==> present)
            &&& pos + opt_i64_bytes(o).len() == end
            &&& end <= b.len()
            &&& b.subrange(pos, end) == opt_i64_bytes(o)
        }),
{
    reveal(opt_i64_bytes);
    reveal(spec_opt_i64_at);
    if present {
        lemma_i64_bytes_back(b.subrange(pos, pos + 8));
    } else {
        assert(b.subrange(pos, pos) =~= Seq::<u8>::empty());
    }
}

proof fn lemma_opt_cstr_bytes_back(b: Seq<u8>, pos: int, present: bool)
    requires
        0 <= pos <= b.len(),
        spec_opt_cstr_at(b, pos, present) is Ok,
    ensures
        ({
            let (o, end) = spec_opt_cstr_at(b, pos, present)->Ok_0;
            &&& (o is Some <==> present)
            &&& opt_nul_free(o)
            &&& pos + opt_cstr_bytes(o).len() == end
            &&& end <= b.len()
            &&& b.subrange(pos, end) == opt_cstr_bytes(o)
        }),
{
    reveal(opt_cstr_bytes);
    reveal(spec_opt_cstr_at);
    if present {
        lemma_cstr_bytes_back(b, pos);
    } else {
        assert(b.subrange(pos, pos) =~= Seq::<u8>::empty());
    }
}

proof fn lemma_extra_round_trip(b: Seq<u8>, pos: int, x: InfoExtra, edf: u8)
    requires
        extra_ok(x, edf),
        0 <= pos,
        pos + extra_bytes(x).len() <= b.len(),
        b.subrange(pos, pos + extra_bytes(x).len()) == extra_bytes(x),
    ensures
        spec_info_extra_at(b, pos, edf) == Ok::<(InfoExtra, int), CodecError>(
            (x, pos + extra_bytes(x).len()),
        ),
{
    let a = opt_i16_bytes(x.port);
    let c = opt_i64_bytes(x.steam_id);
    let d = opt_i16_bytes(x.source_tv_port);
    let e = opt_cstr_bytes(x.source_tv_name);
    let f = opt_cstr_bytes(x.keywords);
    let g = opt_i64_bytes(x.game_id);
    lemma_split(b, pos, a + c + d + e + f, g);
    lemma_split(b, pos, a + c + d + e, f);
    lemma_split(b, pos, a + c + d, e);
    lemma_split(b, pos, a + c, d);
    lemma_split(b, pos, a, c);
    lemma_opt_i16_round_trip(b, pos, x.port, edf_has(edf, EDF_PORT));
    lemma_opt_i64_round_trip(b, pos + a.len(), x.steam_id, edf_has(edf, EDF_STEAM_ID));
    lemma_opt_i16_round_trip(
        b,
        pos + a.len() + c.len(),
        x.source_tv_port,
        edf_has(edf, EDF_SOURCE_TV),
    );
    lemma_opt_cstr_round_trip(
        b,
        pos + a.len() + c.len() + d.len(),
        x.source_tv_name,
        edf_has(edf, EDF_SOURCE_TV),
    );
    lemma_opt_cstr_round_trip(
        b,
        pos + a.len() + c.len() + d.len() + e.len(),
        x.keywords,
        edf_has(edf, EDF_KEYWORDS),
    );
    lemma_opt_i64_round_trip(
        b,
        pos + a.len() + c.len() + d.len() + e.len() + f.len(),
        x.game_id,
        edf_has(edf, EDF_GAME_ID),
    );
}

proof fn lemma_extra_bytes_back(b: Seq<u8>, pos: int, edf: u8)
    requires
        0 <= pos <= b.len(),
        spec_info_extra_at(b, pos, edf) is Ok,
    ensures
        ({
            let (x, end) = spec_info_extra_at(b, pos, edf)->Ok_0;
            &&& extra_ok(x, edf)
            &&& pos + extra_bytes(x).len() == end
            &&& end <= b.len()
            &&& b.subrange(pos, end) == extra_bytes(x)
        }),
{
    lemma_opt_i16_bytes_back(b, pos, edf_has(edf, EDF_PORT));
    let p1 = spec_opt_i16_at(b, pos, edf_has(edf, EDF_PORT))->Ok_0.1;
    lemma_opt_i64_bytes_back(b, p1, edf_has(edf, EDF_STEAM_ID));
    let p2 = spec_opt_i64_at(b, p1, edf_has(edf, EDF_STEAM_ID))->Ok_0.1;
    lemma_opt_i16_bytes_back(b, p2, edf_has(edf, EDF_SOURCE_TV));
    let p3 = spec_opt_i16_at(b, p2, edf_has(edf, EDF_SOURCE_TV))->Ok_0.1;
    lemma_opt_cstr_bytes_back(b, p3, edf_has(edf, EDF_SOURCE_TV));
    let p4 = spec_opt_cstr_at(b, p3, edf_has(edf, EDF_SOURCE_TV))->Ok_0.1;
    lemma_opt_cstr_bytes_back(b, p4, edf_has(edf, EDF_KEYWORDS));
    let p5 = spec_opt_cstr_at(b, p4, edf_has(edf, EDF_KEYWORDS))->Ok_0.1;
    lemma_opt_i64_bytes_back(b, p5, edf_has(edf, EDF_GAME_ID));
    let end = spec_opt_i64_at(b, p5, edf_has(edf, EDF_GAME_ID))->Ok_0.1;
    lemma_join(b, pos, p1, p2);
    lemma_join(b, pos, p2, p3);
    lemma_join(b, pos, p3, p4);
    lemma_join(b, pos, p4, p5);
    lemma_join(b, pos, p5, end);
}

/// Decoding the encoding of a well-formed info reply gives it back.
pub proof fn lemma_info_reply_decode_encode(v: A2SInfoReplyView)
    requires
        v.wf(),
    ensures
        A2SInfoReply::spec_decode(v.spec_encode()) == Ok::<(A2SInfoReplyView, int), CodecError>(
            (v, v.spec_encode().len() as int),
        ),
{
    let b = v.spec_encode();
    let l0 = seq![v.header.spec_byte(), v.protocol];
    let n = cstr_bytes(v.name);
    let m = cstr_bytes(v.map);
    let f = cstr_bytes(v.folder);
    let g = cstr_bytes(v.game);
    let lead = lead_bytes(v);
    let fixed = fixed_bytes(v);
    let ver = cstr_bytes(v.version);
    let d = seq![v.edf];
    let t = extra_bytes(v.extra());
    assert(b.subrange(0, b.len() as int) =~= b);
    lemma_split(b, 0, lead + fixed + ver + d, t);
    lemma_split(b, 0, lead + fixed + ver, d);
    lemma_split(b, 0, lead + fixed, ver);
    lemma_split(b, 0, lead, fixed);
    lemma_split(b, 0, l0 + n + m + f, g);
    lemma_split(b, 0, l0 + n + m, f);
    lemma_split(b, 0, l0 + n, m);
    lemma_split(b, 0, l0, n);
    v.header.lemma_byte_round_trip(b[0]);
    assert(b[1] == v.protocol) by {
        assert(b.subrange(0, 2)[1] == b[1]);
    }
    lemma_cstr_round_trip(b, 2, v.name);
    lemma_cstr_round_trip(b, (2 + n.len()) as int, v.map);
    lemma_cstr_round_trip(b, (2 + n.len() + m.len()) as int, v.folder);
    lemma_cstr_round_trip(b, (2 + n.len() + m.len() + f.len()) as int, v.game);
    let p5 = lead.len() as int;
    lemma_i16_round_trip(v.id);
    let fx = b.subrange(p5, p5 + 9);
    assert(fx == fixed);
    assert(fx.subrange(0, 2) =~= i16_bytes(v.id));
    lemma_cstr_round_trip(b, p5 + 9, v.version);
    let p6 = p5 + 9 + ver.len();
    assert(b[p6] == v.edf) by {
        assert(b.subrange(p6, p6 + 1)[0] == b[p6]);
    }
    lemma_extra_round_trip(b, p6 + 1, v.extra(), v.edf);
}

/// A decoded info reply is well formed and re-encodes to exactly the bytes
/// it was read from.
pub proof fn lemma_info_reply_encode_decode(b: Seq<u8>)
    requires
        A2SInfoReply::spec_decode(b) is Ok,
    ensures
        ({
            let (v, _) = A2SInfoReply::spec_decode(b)->Ok_0;
            v.wf() && v.spec_encode() == b
        }),
{
    let (v, end) = A2SInfoReply::spec_decode(b)->Ok_0;
    v.header.lemma_byte_round_trip(b[0]);
    lemma_cstr_bytes_back(b, 2);
    let p2 = spec_cstr_at(b, 2)->Ok_0.1;
    lemma_cstr_bytes_back(b, p2);
    let p3 = spec_cstr_at(b, p2)->Ok_0.1;
    lemma_cstr_bytes_back(b, p3);
    let p4 = spec_cstr_at(b, p3)->Ok_0.1;
    lemma_cstr_bytes_back(b, p4);
    let p5 = spec_cstr_at(b, p4)->Ok_0.1;
    let fx = b.subrange(p5, p5 + 9);
    lemma_i16_bytes_back(fx.subrange(0, 2));
    assert(fx =~= fixed_bytes(v));
    lemma_cstr_bytes_back(b, p5 + 9);
    let p6 = spec_cstr_at(b, p5 + 9)->Ok_0.1;
    let p7 = p6 + 1;
    lemma_extra_bytes_back(b, p7, v.edf);
    assert(b.subrange(0, 2) =~= seq![b[0], b[1]]);
    assert(b.subrange(p6, p7) =~= seq![v.edf]);
    lemma_join(b, 0, 2, p2);
    lemma_join(b, 0, p2, p3);
    lemma_join(b, 0, p3, p4);
    lemma_join(b, 0, p4, p5);
    assert(b.subrange(0, p5) == lead_bytes(v));
    lemma_join(b, 0, p5, p5 + 9);
    lemma_join(b, 0, p5 + 9, p6);
    lemma_join(b, 0, p6, p7);
    lemma_join(b, 0, p7, end);
    assert(spec_info_extra_at(b, p7, v.edf)->Ok_0.0 == v.extra());
    assert(b.subrange(0, end) =~= b);
}

impl SourceQueryResponse for A2SInfoReply {
    open spec fn spec_packet_header() -> QueryHeader {
        QueryHeader::A2SInfoReply
    }

    fn packet_header() -> (r: QueryHeader) {
        QueryHeader::A2SInfoReply
    }
}

impl SourceQueryRequest for A2SInfo {
    open spec fn spec_with_challenge(self, challenge: SourceChallenge) -> Self {
        A2SInfo { challenge: Some(challenge), ..self }
    }

    fn set_challenge(&mut self, challenge: SourceChallenge) {
        self.challenge = Some(challenge);
    }
}

} // verus!
