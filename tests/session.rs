use steam_query_cacher::challenge_cache::ChallengeCache;
use steam_query_cacher::info::{A2SInfoReply};
use steam_query_cacher::query_cache::QueryCacheManager;
use steam_query_cacher::rules::{A2SRule, A2SRulesReply};
use steam_query_cacher::session::{answer, classify, on_datagram, on_datagram_with, Dispatch, SessionAction};
use steam_query_cacher::upstream::{QueryKind, UpstreamError, UpstreamReply, UpstreamRequest, UpstreamStep};
use steam_query_cacher::wire::CodecError;
use steam_query_cacher::QueryHeader;

const PEER: (u128, u16) = (0xffff_7f00_0001, 40000);

fn info_query(challenge: Option<i32>) -> Vec<u8> {
    let mut d = vec![0xFF, 0xFF, 0xFF, 0xFF, 0x54];
    d.extend_from_slice(b"Source Engine Query\0");
    if let Some(c) = challenge {
        d.extend_from_slice(&c.to_le_bytes());
    }
    d
}

fn sample_reply() -> A2SInfoReply {
    A2SInfoReply {
        header: QueryHeader::A2SInfoReply,
        protocol: 17,
        name: "srv".to_string(),
        map: "map".to_string(),
        folder: "tf".to_string(),
        game: "Team Fortress".to_string(),
        id: 440,
        players: 3,
        max_players: 24,
        bots: 0,
        server_type: b'd',
        environment: b'l',
        visibility: 0,
        vac: 1,
        version: "1".to_string(),
        edf: 0,
        port: None,
        steam_id: None,
        source_tv_port: None,
        source_tv_name: None,
        keywords: None,
        game_id: None,
    }
}

#[test]
fn challenge_solicited_then_reply_served() {
    let mut cache = ChallengeCache::new();
    let first = on_datagram_with(&mut cache, PEER, 1_000, &info_query(None), 0x0A0B0C0D);
    let token = match first {
        SessionAction::Send(bytes) => {
            assert_eq!(bytes.len(), 9);
            assert_eq!(&bytes[..5], &[0xFF, 0xFF, 0xFF, 0xFF, 0x41]);
            i32::from_le_bytes([bytes[5], bytes[6], bytes[7], bytes[8]])
        },
        other => panic!("expected a challenge, got {:?}", other),
    };
    assert_eq!(token, 0x0A0B0C0D);
    let second = on_datagram_with(&mut cache, PEER, 2_000, &info_query(Some(token)), 99);
    assert!(matches!(second, SessionAction::Serve(QueryKind::Info)));

    let mut caches = QueryCacheManager::new();
    caches.a2s_info.store(sample_reply(), 2_000);
    let reply = caches.a2s_info.lookup(2_000).unwrap().clone();
    let bytes = UpstreamReply::Info(reply.clone()).frame();
    assert_eq!(&bytes[..5], &[0xFF, 0xFF, 0xFF, 0xFF, 0x49]);
    assert_eq!(A2SInfoReply::decode(&bytes[4..]), Ok(reply));
}

#[test]
fn wrong_challenge_gets_the_issued_one() {
    let mut cache = ChallengeCache::new();
    let t = cache.get_challenge_with(PEER, 0, 77);
    let r = on_datagram_with(&mut cache, PEER, 10, &info_query(Some(78)), 5);
    match r {
        SessionAction::Send(bytes) => assert_eq!(bytes, vec![0xFF, 0xFF, 0xFF, 0xFF, 0x41, 77, 0, 0, 0]),
        other => panic!("expected a challenge, got {:?}", other),
    }
    assert_eq!(t, 77);
}

#[test]
fn player_and_rules_are_challenged_too() {
    let mut cache = ChallengeCache::new();
    let r = on_datagram_with(&mut cache, PEER, 0, &[0xFF, 0xFF, 0xFF, 0xFF, 0x55, 0xFF, 0xFF, 0xFF, 0xFF], 5);
    assert!(matches!(r, SessionAction::Send(_)));
    let r = on_datagram_with(&mut cache, PEER, 1, &[0xFF, 0xFF, 0xFF, 0xFF, 0x56, 5, 0, 0, 0], 6);
    assert!(matches!(r, SessionAction::Serve(QueryKind::Rules)));
    let r = on_datagram_with(&mut cache, PEER, 2, &[0xFF, 0xFF, 0xFF, 0xFF, 0x55, 5, 0, 0, 0], 6);
    assert!(matches!(r, SessionAction::Serve(QueryKind::Player)));
}

#[test]
fn random_token_is_kept_per_peer() {
    let mut cache = ChallengeCache::new();
    let r = on_datagram(&mut cache, PEER, 0, &info_query(None));
    let token = match r {
        SessionAction::Send(bytes) => i32::from_le_bytes([bytes[5], bytes[6], bytes[7], bytes[8]]),
        other => panic!("expected a challenge, got {:?}", other),
    };
    assert_ne!(token, -1);
    let r = on_datagram(&mut cache, PEER, 100, &info_query(Some(token)));
    assert!(matches!(r, SessionAction::Serve(QueryKind::Info)));
}

#[test]
fn unknown_kind_passthrough() {
    assert_eq!(classify(&[0xFF, 0xFF, 0xFF, 0xFF, 0x69]), Dispatch::Proxy);
    let mut cache = ChallengeCache::new();
    let r = on_datagram_with(&mut cache, PEER, 0, &[0xFF, 0xFF, 0xFF, 0xFF, 0x69], 1);
    assert!(matches!(r, SessionAction::Proxy));
    assert_eq!(classify(&[0xFF, 0xFF, 0xFF, 0xFF, 0x57, 1, 2]), Dispatch::Proxy);
}

#[test]
fn invalid_frame_closes_session() {
    let mut cache = ChallengeCache::new();
    let r = on_datagram_with(&mut cache, PEER, 0, &[0xFE, 0xFF, 0xFF, 0xFF, 0x54], 1);
    assert!(matches!(r, SessionAction::Close));
    assert_eq!(classify(&[0xFF, 0xFF, 0xFF]), Dispatch::Close);
    assert_eq!(classify(&[0xFF, 0xFF, 0xFF, 0xFF]), Dispatch::Close);
    assert_eq!(classify(&[0xFF, 0xFF, 0xFF, 0xFF, 0x01]), Dispatch::Close);
    assert_eq!(classify(&[0xFF, 0xFF, 0xFF, 0xFF, 0x55, 1]), Dispatch::Close);
}

#[test]
fn classify_reads_the_challenge() {
    assert_eq!(classify(&info_query(None)), Dispatch::Cached(QueryKind::Info, None));
    assert_eq!(classify(&info_query(Some(5))), Dispatch::Cached(QueryKind::Info, Some(5)));
    assert_eq!(
        classify(&[0xFF, 0xFF, 0xFF, 0xFF, 0x55, 0xFF, 0xFF, 0xFF, 0xFF]),
        Dispatch::Cached(QueryKind::Player, None)
    );
}

#[test]
fn answer_serves_only_the_echoed_token() {
    assert!(matches!(answer(QueryKind::Rules, Some(4), 4), SessionAction::Serve(QueryKind::Rules)));
    match answer(QueryKind::Rules, None, 4) {
        SessionAction::Send(b) => assert_eq!(b, vec![0xFF, 0xFF, 0xFF, 0xFF, 0x41, 4, 0, 0, 0]),
        other => panic!("expected a challenge, got {:?}", other),
    }
}

#[test]
fn rules_challenge_handshake_against_upstream() {
    let mut req = UpstreamRequest::new(QueryKind::Rules);
    assert_eq!(req.frame(), vec![0xFF, 0xFF, 0xFF, 0xFF, 0x56, 0xFF, 0xFF, 0xFF, 0xFF]);
    let step = req.on_datagram(&[0xFF, 0xFF, 0xFF, 0xFF, 0x41, 0x11, 0x22, 0x33, 0x44]);
    match step {
        UpstreamStep::Resend(bytes) => {
            assert_eq!(bytes, vec![0xFF, 0xFF, 0xFF, 0xFF, 0x56, 0x11, 0x22, 0x33, 0x44])
        },
        other => panic!("expected a resend, got {:?}", other),
    }
    let reply = A2SRulesReply {
        header: QueryHeader::A2SRulesReply,
        num_rules: 1,
        rules: vec![A2SRule { name: "mp_friendlyfire".to_string(), value: "0".to_string() }],
    };
    let framed = UpstreamReply::Rules(reply.clone()).frame();
    match req.on_datagram(&framed) {
        UpstreamStep::Done(UpstreamReply::Rules(r)) => assert_eq!(r, reply),
        other => panic!("expected the rules, got {:?}", other),
    }
}

#[test]
fn upstream_failures() {
    let mut req = UpstreamRequest::new(QueryKind::Info);
    assert!(matches!(req.on_datagram(&[0, 0, 0, 0, 0x49]), UpstreamStep::Failed(UpstreamError::BadFrame)));
    assert!(matches!(
        req.on_datagram(&[0xFF, 0xFF, 0xFF, 0xFF, 0x44, 0]),
        UpstreamStep::Failed(UpstreamError::UnexpectedKind)
    ));
    assert!(matches!(
        req.on_datagram(&[0xFF, 0xFF, 0xFF, 0xFF, 0x49, 1]),
        UpstreamStep::Failed(UpstreamError::Malformed(CodecError::ShortPacket))
    ));
    assert!(matches!(
        req.on_datagram(&[0xFF, 0xFF, 0xFF, 0xFF, 0x41, 1]),
        UpstreamStep::Failed(UpstreamError::Malformed(CodecError::ShortPacket))
    ));
    assert_eq!(req, UpstreamRequest::new(QueryKind::Info));
}

#[test]
fn upstream_info_challenge_is_appended() {
    let mut req = UpstreamRequest::new(QueryKind::Info);
    match req.on_datagram(&[0xFF, 0xFF, 0xFF, 0xFF, 0x41, 1, 0, 0, 0]) {
        UpstreamStep::Resend(bytes) => {
            let mut expected = vec![0xFF, 0xFF, 0xFF, 0xFF, 0x54];
            expected.extend_from_slice(b"Source Engine Query\0");
            expected.extend_from_slice(&[1, 0, 0, 0]);
            assert_eq!(bytes, expected);
        },
        other => panic!("expected a resend, got {:?}", other),
    }
}
