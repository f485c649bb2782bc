use steam_query_cacher::challenge::S2CChallenge;
use steam_query_cacher::info::{A2SInfo, A2SInfoReply, A2S_INFO_REQUEST_PAYLOAD};
use steam_query_cacher::player::{A2SPlayer, A2SPlayerInfo, A2SPlayerReply};
use steam_query_cacher::rules::{A2SRule, A2SRules, A2SRulesReply};
use steam_query_cacher::wire::CodecError;
use steam_query_cacher::header::{SourceQueryRequest, SourceQueryResponse};
use steam_query_cacher::QueryHeader;

fn sample_info_reply(edf: u8) -> A2SInfoReply {
    A2SInfoReply {
        header: QueryHeader::A2SInfoReply,
        protocol: 17,
        name: "Test Server".to_string(),
        map: "de_dust2".to_string(),
        folder: "csgo".to_string(),
        game: "Counter-Strike".to_string(),
        id: 730,
        players: 5,
        max_players: 24,
        bots: 1,
        server_type: b'd',
        environment: b'l',
        visibility: 0,
        vac: 1,
        version: "1.38.7.9".to_string(),
        edf,
        port: if edf & 0x80 != 0 { Some(27015) } else { None },
        steam_id: if edf & 0x10 != 0 { Some(90_071_992_547_409_921) } else { None },
        source_tv_port: if edf & 0x40 != 0 { Some(27020) } else { None },
        source_tv_name: if edf & 0x40 != 0 { Some("tv".to_string()) } else { None },
        keywords: if edf & 0x20 != 0 { Some("secure,ünïcode".to_string()) } else { None },
        game_id: if edf & 0x01 != 0 { Some(-2) } else { None },
    }
}

#[test]
fn query_header_bytes() {
    assert_eq!(QueryHeader::A2SInfo.to_byte(), 0x54);
    assert_eq!(QueryHeader::A2SInfoReply.to_byte(), 0x49);
    assert_eq!(QueryHeader::A2SPlayer.to_byte(), 0x55);
    assert_eq!(QueryHeader::A2SPlayerReply.to_byte(), 0x44);
    assert_eq!(QueryHeader::A2SRules.to_byte(), 0x56);
    assert_eq!(QueryHeader::A2SRulesReply.to_byte(), 0x45);
    assert_eq!(QueryHeader::S2CChallenge.to_byte(), 0x41);
    assert_eq!(QueryHeader::A2SServerQueryGetChallenge.to_byte(), 0x57);
    assert_eq!(QueryHeader::from_byte(0x69), Some(QueryHeader::A2APing));
    assert_eq!(QueryHeader::from_byte(0x6A), Some(QueryHeader::A2APingReply));
    assert_eq!(QueryHeader::from_byte(0x6D), Some(QueryHeader::GSInfo));
    assert_eq!(QueryHeader::from_byte(0x6E), Some(QueryHeader::GSInfoReply));
    assert_eq!(QueryHeader::from_byte(0x00), None);
}

#[test]
fn info_request_without_challenge_bytes() {
    let mut expected = vec![0x54];
    expected.extend_from_slice(b"Source Engine Query\0");
    assert_eq!(A2SInfo::new().encode(), expected);
    assert_eq!(A2S_INFO_REQUEST_PAYLOAD, "Source Engine Query");
}

#[test]
fn info_request_with_challenge_bytes() {
    let mut expected = vec![0x54];
    expected.extend_from_slice(b"Source Engine Query\0");
    expected.extend_from_slice(&[0x78, 0x56, 0x34, 0x12]);
    assert_eq!(A2SInfo::with_challenge(0x1234_5678).encode(), expected);
    let decoded = A2SInfo::decode(&expected).unwrap();
    assert_eq!(decoded, A2SInfo::with_challenge(0x1234_5678));
}

#[test]
fn info_request_round_trip() {
    let mut q = A2SInfo::new();
    assert_eq!(A2SInfo::decode(&q.encode()), Ok(q.clone()));
    q.set_challenge(-7);
    assert_eq!(q.challenge, Some(-7));
    assert_eq!(A2SInfo::decode(&q.encode()), Ok(q));
}

#[test]
fn info_request_trailing_bytes_are_malformed() {
    let mut bytes = A2SInfo::new().encode();
    bytes.extend_from_slice(&[1, 2, 3]);
    assert_eq!(A2SInfo::decode(&bytes), Err(CodecError::MalformedField));
    let mut bytes = A2SInfo::with_challenge(5).encode();
    bytes.push(0);
    assert_eq!(A2SInfo::decode(&bytes), Err(CodecError::MalformedField));
}

#[test]
fn info_request_errors() {
    assert_eq!(A2SInfo::decode(&[]), Err(CodecError::ShortPacket));
    assert_eq!(A2SInfo::decode(&[0x55, 0x00]), Err(CodecError::BadKind));
    assert_eq!(A2SInfo::decode(&[0x01, 0x00]), Err(CodecError::BadKind));
    assert_eq!(A2SInfo::decode(b"\x54Source"), Err(CodecError::ShortPacket));
    assert_eq!(A2SInfo::decode(&[0x54, 0xC3, 0x28, 0x00]), Err(CodecError::MalformedField));
}

#[test]
fn info_reply_round_trip_all_fields() {
    let v = sample_info_reply(0x80 | 0x10 | 0x40 | 0x20 | 0x01);
    let bytes = v.encode();
    assert_eq!(A2SInfoReply::decode(&bytes), Ok(v));
}

#[test]
fn info_reply_round_trip_no_extra() {
    let v = sample_info_reply(0x00);
    let bytes = v.encode();
    assert_eq!(*bytes.last().unwrap(), 0x00);
    assert_eq!(A2SInfoReply::decode(&bytes), Ok(v));
}

#[test]
fn info_reply_exact_bytes() {
    let v = A2SInfoReply {
        header: QueryHeader::A2SInfoReply,
        protocol: 2,
        name: "a".to_string(),
        map: "b".to_string(),
        folder: "c".to_string(),
        game: "d".to_string(),
        id: -2,
        players: 1,
        max_players: 2,
        bots: 3,
        server_type: 4,
        environment: 5,
        visibility: 6,
        vac: 7,
        version: "v".to_string(),
        edf: 0x80 | 0x01,
        port: Some(0x0102),
        steam_id: None,
        source_tv_port: None,
        source_tv_name: None,
        keywords: None,
        game_id: Some(1),
    };
    let expected = vec![
        0x49, 2, b'a', 0, b'b', 0, b'c', 0, b'd', 0, 0xFE, 0xFF, 1, 2, 3, 4, 5, 6, 7, b'v', 0, 0x81,
        0x02, 0x01, 1, 0, 0, 0, 0, 0, 0, 0,
    ];
    assert_eq!(v.encode(), expected);
    assert_eq!(A2SInfoReply::decode(&expected), Ok(v));
}

#[test]
fn info_reply_game_id_bit_is_0x01() {
    let mut bytes = sample_info_reply(0x00).encode();
    let last = bytes.len() - 1;
    bytes[last] = 0x01;
    bytes.extend_from_slice(&42i64.to_le_bytes());
    let v = A2SInfoReply::decode(&bytes).unwrap();
    assert_eq!(v.game_id, Some(42));
    assert_eq!(v.keywords, None);
}

#[test]
fn info_reply_errors() {
    let full = sample_info_reply(0x80 | 0x10 | 0x40 | 0x20 | 0x01).encode();
    assert_eq!(A2SInfoReply::decode(&full[..full.len() - 1]), Err(CodecError::ShortPacket));
    assert_eq!(A2SInfoReply::decode(&[0x49]), Err(CodecError::ShortPacket));
    assert_eq!(A2SInfoReply::decode(&[0x44, 0x00]), Err(CodecError::BadKind));
    let mut bad = vec![0x49, 1, 0xFF, 0x00];
    bad.extend_from_slice(&full[2..]);
    assert_eq!(A2SInfoReply::decode(&bad), Err(CodecError::MalformedField));
}

#[test]
fn player_request_bytes() {
    assert_eq!(A2SPlayer::new().encode(), vec![0x55, 0xFF, 0xFF, 0xFF, 0xFF]);
    assert_eq!(A2SPlayer::with_challenge(1).encode(), vec![0x55, 1, 0, 0, 0]);
    assert_eq!(A2SPlayer::decode(&[0x55, 0xFF, 0xFF, 0xFF, 0xFF]), Ok(A2SPlayer::new()));
    assert_eq!(A2SPlayer::decode(&[0x55]), Err(CodecError::ShortPacket));
    assert_eq!(A2SPlayer::decode(&[0x55, 9, 0, 0, 0, 0]), Err(CodecError::MalformedField));
    assert_eq!(A2SPlayer::decode(&[0x55, 9, 0, 0, 0]), Ok(A2SPlayer::with_challenge(9)));
    let mut q = A2SPlayer::new();
    q.set_challenge(3);
    assert_eq!(q, A2SPlayer::with_challenge(3));
}

#[test]
fn player_request_errors() {
    assert_eq!(A2SPlayer::decode(&[]), Err(CodecError::ShortPacket));
    assert_eq!(A2SPlayer::decode(&[0x55, 1, 2]), Err(CodecError::ShortPacket));
    assert_eq!(A2SPlayer::decode(&[0x56, 1, 2, 3, 4]), Err(CodecError::BadKind));
}

#[test]
fn player_reply_round_trip() {
    let v = A2SPlayerReply {
        header: QueryHeader::A2SPlayerReply,
        num_players: 2,
        players: vec![
            A2SPlayerInfo { index: 0, name: "alice".to_string(), score: 10, duration_bits: 12.5f32.to_bits() },
            A2SPlayerInfo { index: 1, name: "".to_string(), score: -3, duration_bits: 0 },
        ],
    };
    let bytes = v.encode();
    let mut expected = vec![0x44, 2, 0];
    expected.extend_from_slice(b"alice\0");
    expected.extend_from_slice(&10i32.to_le_bytes());
    expected.extend_from_slice(&12.5f32.to_le_bytes());
    expected.extend_from_slice(&[1, 0]);
    expected.extend_from_slice(&(-3i32).to_le_bytes());
    expected.extend_from_slice(&[0, 0, 0, 0]);
    assert_eq!(bytes, expected);
    let back = A2SPlayerReply::decode(&bytes).unwrap();
    assert_eq!(f32::from_bits(back.players[0].duration_bits), 12.5);
    assert_eq!(back, v);
}

#[test]
fn player_reply_errors() {
    assert_eq!(A2SPlayerReply::decode(&[0x44, 1, 0, b'x', 0, 1, 0]), Err(CodecError::ShortPacket));
    assert_eq!(A2SPlayerReply::decode(&[0x44]), Err(CodecError::ShortPacket));
    assert_eq!(A2SPlayerReply::decode(&[0x45, 0]), Err(CodecError::BadKind));
    assert_eq!(
        A2SPlayerReply::decode(&[0x44, 1, 0, 0xFE, 0, 0, 0, 0, 0, 0, 0, 0, 0]),
        Err(CodecError::MalformedField)
    );
    let empty = A2SPlayerReply::decode(&[0x44, 0]).unwrap();
    assert!(empty.players.is_empty());
}

#[test]
fn rules_request_bytes() {
    assert_eq!(A2SRules::new().encode(), vec![0x56, 0xFF, 0xFF, 0xFF, 0xFF]);
    assert_eq!(A2SRules::decode(&[0x56, 0x10, 0, 0, 0]), Ok(A2SRules::with_challenge(16)));
    assert_eq!(A2SRules::decode(&[0x55, 0x10, 0, 0, 0]), Err(CodecError::BadKind));
    let mut q = A2SRules::new();
    q.set_challenge(16);
    assert_eq!(q, A2SRules::with_challenge(16));
}

#[test]
fn rules_reply_round_trip() {
    let v = A2SRulesReply {
        header: QueryHeader::A2SRulesReply,
        num_rules: 2,
        rules: vec![
            A2SRule { name: "mp_timelimit".to_string(), value: "20".to_string() },
            A2SRule { name: "sv_tags".to_string(), value: "".to_string() },
        ],
    };
    let bytes = v.encode();
    let mut expected = vec![0x45, 2, 0];
    expected.extend_from_slice(b"mp_timelimit\x0020\x00sv_tags\x00\x00");
    assert_eq!(bytes, expected);
    assert_eq!(A2SRulesReply::decode(&bytes), Ok(v));
}

#[test]
fn rules_reply_negative_count_is_malformed() {
    assert_eq!(A2SRulesReply::decode(&[0x45, 0xFF, 0xFF]), Err(CodecError::MalformedField));
    assert_eq!(A2SRulesReply::decode(&[0x45, 0x00, 0x80]), Err(CodecError::MalformedField));
}

#[test]
fn replies_with_trailing_bytes_are_malformed() {
    assert_eq!(A2SPlayerReply::decode(&[0x44, 0x00, 0x00]), Err(CodecError::MalformedField));
    assert_eq!(A2SRulesReply::decode(&[0x45, 0x00, 0x00, 0x00]), Err(CodecError::MalformedField));
    let mut info = sample_info_reply(0x20).encode();
    info.push(0);
    assert_eq!(A2SInfoReply::decode(&info), Err(CodecError::MalformedField));
    assert_eq!(S2CChallenge::decode(&[0x41, 1, 0, 0, 0, 9]), Err(CodecError::MalformedField));
    assert_eq!(A2SRules::decode(&[0x56, 1, 0, 0, 0, 9]), Err(CodecError::MalformedField));
    assert_eq!(A2SRulesReply::decode(&[0x45, 0x00, 0x00]).map(|r| r.rules.len()), Ok(0));
}

#[test]
fn rules_reply_errors() {
    assert_eq!(A2SRulesReply::decode(&[0x45, 1]), Err(CodecError::ShortPacket));
    assert_eq!(A2SRulesReply::decode(&[0x45, 1, 0, b'a', 0]), Err(CodecError::ShortPacket));
    assert_eq!(A2SRulesReply::decode(&[0x49, 0, 0]), Err(CodecError::BadKind));
    assert_eq!(A2SRulesReply::decode(&[0x45, 1, 0, 0xC0, 0, 0]), Err(CodecError::MalformedField));
}

#[test]
fn s2c_challenge_bytes() {
    let c = S2CChallenge::new(-2);
    assert_eq!(c.encode(), vec![0x41, 0xFE, 0xFF, 0xFF, 0xFF]);
    assert_eq!(S2CChallenge::decode(&[0x41, 0xFE, 0xFF, 0xFF, 0xFF]), Ok(c));
    assert_eq!(S2CChallenge::decode(&[0x41, 1, 2]), Err(CodecError::ShortPacket));
    assert_eq!(S2CChallenge::decode(&[0x49, 1, 2, 3, 4]), Err(CodecError::BadKind));
    assert_eq!(S2CChallenge::packet_header(), QueryHeader::S2CChallenge);
    assert_eq!(A2SInfoReply::packet_header(), QueryHeader::A2SInfoReply);
    assert_eq!(A2SPlayerReply::packet_header(), QueryHeader::A2SPlayerReply);
    assert_eq!(A2SRulesReply::packet_header(), QueryHeader::A2SRulesReply);
}
