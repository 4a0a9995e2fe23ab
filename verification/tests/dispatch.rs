use arbitro_raft::dispatch::{TxIds, TxSeeds};
use arbitro_raft::node::dispatch::PendingDispatches;
use arbitro_raft::time::Duration;
use arbitro_raft::{
    encode_dispatch_response, DispatchAckOptions, DispatchAckPolicy, DispatchContextView,
    DispatchEnvelope, DispatchFailOptions, DispatchFailPolicy, DispatchFailure, DispatchOptions,
    DispatchPeerState, DispatchResponse, DispatchResponseKind, DispatchResponseRef,
    DispatchResponseView, DispatchRoute, DispatchScope, DispatchSpec, DispatchTx, DispatchView,
    PeerId, RaftError, RAFT_DISPATCH_FRAME_HEADER_SIZE,
};

type Codec = fn(&[u8]) -> Result<u8, RaftError>;

fn decode(bytes: &[u8]) -> Result<u8, RaftError> {
    match bytes.first() {
        Some(b) => Ok(*b),
        None => Err(RaftError::Dispatch("empty answer".to_string())),
    }
}

fn encode(value: &u8) -> Result<Vec<u8>, RaftError> {
    Ok(vec![*value])
}

fn targets(raw: &[u64]) -> Vec<PeerId> {
    raw.iter().map(|id| PeerId(*id)).collect()
}

fn begin(options: DispatchOptions, peers: &[u64]) -> DispatchTx<u8, Codec> {
    let envelope: DispatchEnvelope<u8, u8> = DispatchEnvelope::seal(7, 1, options, b"p");
    envelope.begin(&targets(peers), decode as Codec)
}

fn options(ack: DispatchAckOptions, fail: DispatchFailOptions) -> DispatchOptions {
    DispatchOptions { ack, fail, ..DispatchOptions::default() }
}

fn dispatch_error(error: RaftError) -> String {
    match error {
        RaftError::Dispatch(words) => words,
        other => panic!("{:?}", other),
    }
}

#[test]
fn quorum_of_accepts_completes_a_dispatch() {
    let mut tx = begin(DispatchOptions::default(), &[1, 2, 3]);
    assert_eq!(tx.handle().tx_id(), 7);
    assert_eq!(tx.handle().command(), 1);
    assert!(!tx.handle().is_ready());
    assert!(tx.handle().try_result().is_none());
    tx.accept(PeerId(1), 42).unwrap();
    assert!(!tx.handle().is_ready());
    tx.accept(PeerId(2), 43).unwrap();
    assert!(tx.handle().is_ready());
    let result = tx.handle().try_result().unwrap().unwrap();
    assert_eq!(result.tx_id, 7);
    assert_eq!(result.accepted_count(), 2);
    assert_eq!(result.failed_count(), 0);
    assert!(matches!(result.peers[0].state, DispatchPeerState::Accepted(42)));
    assert!(matches!(result.peers[1].state, DispatchPeerState::Accepted(43)));
    assert!(matches!(result.peers[2].state, DispatchPeerState::Pending));
}

#[test]
fn ack_policies_need_their_share() {
    // How many accepts out of five complete the command.
    let cases = [
        (DispatchAckOptions { policy: DispatchAckPolicy::All, count: 1, percent: 100 }, 5),
        (DispatchAckOptions { policy: DispatchAckPolicy::Quorum, count: 1, percent: 100 }, 3),
        (DispatchAckOptions { policy: DispatchAckPolicy::AtLeast, count: 4, percent: 100 }, 4),
        (DispatchAckOptions { policy: DispatchAckPolicy::AtLeast, count: 9, percent: 100 }, 5),
        (DispatchAckOptions { policy: DispatchAckPolicy::Percent, count: 1, percent: 41 }, 3),
        (DispatchAckOptions { policy: DispatchAckPolicy::BestEffort, count: 1, percent: 100 }, 1),
    ];
    for (ack, needed) in cases {
        let mut tx = begin(options(ack, DispatchFailOptions::default()), &[1, 2, 3, 4, 5]);
        for n in 1..=5u64 {
            assert_eq!(tx.handle().is_ready(), n > needed, "{:?}", ack);
            tx.accept(PeerId(n), 0).unwrap();
        }
        assert!(tx.handle().is_ready());
    }
}

#[test]
fn fail_policies_tolerate_their_share() {
    let all = DispatchAckOptions { policy: DispatchAckPolicy::BestEffort, count: 1, percent: 100 };
    let none = DispatchFailOptions { policy: DispatchFailPolicy::NoFailures, count: 0, percent: 0 };
    let mut tx = begin(options(all, none), &[1, 2, 3, 4]);
    tx.reject(PeerId(1), b"no".to_vec()).unwrap();
    let error = tx.handle().try_result().unwrap().unwrap_err();
    assert_eq!(
        dispatch_error(error),
        "dispatch failure policy exceeded: failed=1, allowed=0",
    );

    let half =
        DispatchFailOptions { policy: DispatchFailPolicy::MaxFailurePercent, count: 0, percent: 50 };
    let mut tx = begin(options(all, half), &[1, 2, 3, 4]);
    tx.reject(PeerId(1), Vec::new()).unwrap();
    tx.fail(PeerId(2), Vec::new()).unwrap();
    assert!(!tx.handle().is_ready());
    tx.fail(PeerId(3), Vec::new()).unwrap();
    assert!(tx.handle().try_result().unwrap().is_err());

    let one = DispatchFailOptions { policy: DispatchFailPolicy::MaxFailures, count: 1, percent: 0 };
    let mut tx = begin(options(all, one), &[1, 2, 3]);
    tx.fail(PeerId(1), Vec::new()).unwrap();
    assert!(!tx.handle().is_ready());
    tx.accept(PeerId(2), 5).unwrap();
    assert!(tx.handle().try_result().unwrap().is_ok());
}

#[test]
fn unreachable_success_fails_early() {
    let mut tx = begin(DispatchOptions::default(), &[1, 2, 3]);
    tx.fail(PeerId(1), Vec::new()).unwrap();
    tx.fail(PeerId(2), Vec::new()).unwrap();
    let error = tx.handle().try_result().unwrap().unwrap_err();
    assert_eq!(
        dispatch_error(error),
        "dispatch can no longer reach required accepts: accepted=0, pending=1, required=2",
    );
}

#[test]
fn disconnected_targets_are_not_waited_for() {
    let mut tx = begin(DispatchOptions::default(), &[1, 2, 3]);
    tx.disconnect(PeerId(3)).unwrap();
    tx.accept(PeerId(1), 1).unwrap();
    assert!(!tx.handle().is_ready());
    tx.accept(PeerId(2), 1).unwrap();
    assert!(tx.handle().try_result().unwrap().is_ok());
    assert_eq!(tx.handle().try_result().unwrap().unwrap().disconnected_count(), 1);
    let nobody = begin(DispatchOptions::default(), &[]);
    assert!(nobody.handle().try_result().unwrap().is_ok());
}

#[test]
fn giving_up_settles_once() {
    let mut tx = begin(DispatchOptions::default(), &[1, 2, 3]);
    tx.progress(PeerId(1), b"half".to_vec()).unwrap();
    tx.state.time_out();
    let error = tx.handle().try_result().unwrap().unwrap_err();
    assert_eq!(dispatch_error(error), "dispatch timed out");
    tx.state.abort_lost_leadership();
    let error = tx.handle().try_result().unwrap().unwrap_err();
    assert_eq!(dispatch_error(error), "dispatch timed out");

    let mut tx = begin(DispatchOptions::default(), &[1, 2, 3]);
    tx.state.abort_lost_leadership();
    let error = tx.handle().try_result().unwrap().unwrap_err();
    assert_eq!(dispatch_error(error), "dispatch aborted: leadership lost");
    assert_eq!(dispatch_error(DispatchFailure::Timeout.to_error()), "dispatch timed out");
    assert_eq!(dispatch_error(DispatchFailure::Failed("f".to_string()).to_error()), "f");
}

#[test]
fn answers_from_strangers_are_refused() {
    let mut tx = begin(DispatchOptions::default(), &[1, 2]);
    assert!(matches!(tx.accept(PeerId(9), 1), Err(RaftError::PeerUnknown(PeerId(9)))));
}

#[test]
fn undecodable_answers_are_errors_and_leave_no_trace() {
    let mut tx = begin(DispatchOptions::default(), &[1, 2, 3]);
    assert!(tx.accept_raw(PeerId(1), vec![6]).is_ok());
    assert!(matches!(tx.handle().state.result.peers[0].state, DispatchPeerState::Accepted(6)));
    let error = tx.accept_raw(PeerId(2), Vec::new()).unwrap_err();
    assert_eq!(dispatch_error(error), "empty answer");
    assert!(matches!(tx.handle().state.result.peers[1].state, DispatchPeerState::Pending));
    assert!(!tx.handle().is_ready());
    // The peer may still answer.
    assert!(tx.accept_raw(PeerId(2), vec![7]).is_ok());
    assert!(tx.handle().is_ready());
}

#[test]
fn requests_read_back() {
    let spec = DispatchSpec::new(9, encode, decode, encode, decode)
        .with_scope(DispatchScope::Followers)
        .with_ack_policy(DispatchAckPolicy::Percent)
        .with_ack_percent(60)
        .with_fail_policy(DispatchFailPolicy::MaxFailures)
        .with_fail_count(2)
        .with_timeout(Duration::from_millis(750))
        .with_trace(true);
    let mut seeds = TxSeeds::new();
    let mut tx_ids = TxIds::new(9, &mut seeds);
    let envelope = spec.dispatch(200).build(&mut tx_ids).unwrap();
    assert_eq!(envelope.bytes().len(), RAFT_DISPATCH_FRAME_HEADER_SIZE + 1);
    let view = DispatchView::parse(envelope.bytes()).unwrap();
    assert_eq!(view.command(), 9);
    assert_eq!(view.tx_id(), envelope.tx_id());
    assert_eq!(view.scope(), DispatchScope::Followers);
    assert_eq!(view.ack_policy(), DispatchAckPolicy::Percent);
    assert_eq!(view.fail_policy(), DispatchFailPolicy::MaxFailures);
    assert_eq!(view.timeout_ms(), 750);
    assert!(view.trace());
    assert_eq!(view.body(), &[200]);
    assert_eq!(view.params(&spec).unwrap(), 200);
    let other = DispatchSpec::new(8, encode, decode, encode, decode);
    let error = view.params(&other).unwrap_err();
    assert_eq!(dispatch_error(error), "dispatch command mismatch: got 9, expected 8");
}

#[test]
fn timeouts_travel_in_whole_milliseconds() {
    for (timeout, sent) in [
        (Duration::new(0, 999_999), 0),
        (Duration::new(1, 2_999_999), 1_002),
        (Duration::from_millis(u32::MAX as u64), u32::MAX),
        (Duration::from_secs(u64::MAX), u32::MAX),
    ] {
        let spec = DispatchSpec::new(9, encode, decode, encode, decode).with_timeout(timeout);
        let mut seeds = TxSeeds::new();
        let mut tx_ids = TxIds::new(9, &mut seeds);
        let envelope = spec.dispatch(1).build(&mut tx_ids).unwrap();
        assert_eq!(envelope.options().timeout, timeout);
        assert_eq!(DispatchView::parse(envelope.bytes()).unwrap().timeout_ms(), sent);
    }
    assert_eq!(DispatchOptions::default().timeout, Duration::from_millis(2_000));
}

#[test]
fn builder_overrides_the_defaults_of_its_command() {
    let spec = DispatchSpec::new(3, encode, decode, encode, decode);
    assert_eq!(spec.defaults(), DispatchOptions::default());
    let mut seeds = TxSeeds::new();
    let mut tx_ids = TxIds::new(3, &mut seeds);
    let envelope = spec
        .dispatch(1)
        .scope(DispatchScope::Leader)
        .ack_policy(DispatchAckPolicy::AtLeast)
        .ack_count(0)
        .ack_percent(150)
        .fail_policy(DispatchFailPolicy::FailFast)
        .timeout(Duration::from_millis(5))
        .trace(true)
        .build(&mut tx_ids)
        .unwrap();
    let made = envelope.options();
    assert_eq!(made.scope, DispatchScope::Leader);
    // A count is at least one, and a share is at most all.
    assert_eq!(
        made.ack,
        DispatchAckOptions { policy: DispatchAckPolicy::AtLeast, count: 1, percent: 100 },
    );
    assert_eq!(made.fail.policy, DispatchFailPolicy::FailFast);
    assert_eq!(made.timeout, Duration::from_millis(5));
    assert!(made.trace);
}

#[test]
fn malformed_requests_are_refused() {
    let envelope: DispatchEnvelope<u8, u8> =
        DispatchEnvelope::seal(1, 2, DispatchOptions::default(), b"abc");
    let good = envelope.into_bytes();
    let fault = |bytes: &[u8]| match DispatchView::parse(bytes) {
        Err(error) => error.message(),
        Ok(_) => panic!("parsed"),
    };
    assert!(fault(&good[..27]).ends_with("short dispatch frame header"));
    assert!(fault(&good[..30]).ends_with("dispatch body length mismatch"));
    let mut bad = good.clone();
    bad[0] ^= 1;
    assert!(fault(&bad).ends_with("invalid dispatch magic"));
    let mut bad = good.clone();
    bad[4] = 3;
    assert!(fault(&bad).ends_with("unsupported dispatch version 3"));
    let mut bad = good.clone();
    bad[6] = 99;
    assert!(fault(&bad).ends_with("unknown dispatch scope"));
    let mut bad = good.clone();
    bad[7] = 99;
    assert!(fault(&bad).ends_with("unknown dispatch ack policy"));
    let mut bad = good.clone();
    bad[8] = 99;
    assert!(fault(&bad).ends_with("unknown dispatch fail policy"));
    assert!(DispatchView::parse(&good).is_ok());
}

#[test]
fn responses_read_back() {
    let context = DispatchContextView::new(11, 4);
    for kind in [
        DispatchResponseKind::Accepted,
        DispatchResponseKind::Rejected,
        DispatchResponseKind::Progress,
        DispatchResponseKind::Failed,
    ] {
        let response = context.answer(kind, b"body".to_vec());
        let bytes = encode_dispatch_response(&response);
        assert_eq!(bytes.len(), 20 + 4);
        let view = DispatchResponseView::parse(bytes.clone()).unwrap();
        assert_eq!((view.tx_id(), view.command(), view.kind()), (11, 4, kind));
        assert_eq!(view.body(), b"body");
        assert_eq!(view.body_bytes().as_ref(), b"body");
        assert_eq!(view.frame_bytes(), &bytes);
        let back = DispatchResponseRef::parse(&bytes).unwrap().to_response();
        assert_eq!((back.tx_id, back.command, back.kind), (11, 4, kind));
        assert_eq!(back.payload, b"body".to_vec());
        let spec = DispatchSpec::new(4, encode, decode, encode, decode);
        assert_eq!(view.decode_with(&spec).unwrap(), b'b');
        let other = DispatchSpec::new(5, encode, decode, encode, decode);
        assert!(view.decode_with(&other).is_err());
        assert!(DispatchResponseRef::parse(&bytes[..23]).is_err());
        let mut longer = bytes.to_vec();
        longer.push(0);
        assert!(DispatchResponseRef::parse(&longer).is_err());
        assert!(DispatchResponseRef::parse(&bytes[..19]).is_err());
    }
}

#[test]
fn answers_carry_the_numbers_of_their_command() {
    let context = DispatchContextView::new(11, 4);
    let spec = DispatchSpec::new(4, encode, decode, encode, decode);
    let accepted = context.accept_with(&spec, &9).unwrap();
    assert_eq!((accepted.tx_id, accepted.command), (11, 4));
    assert_eq!(accepted.kind, DispatchResponseKind::Accepted);
    assert_eq!(accepted.payload, vec![9]);
    let rejected = context.reject("caf\u{e9}");
    assert_eq!((rejected.tx_id, rejected.command), (11, 4));
    assert_eq!(rejected.kind, DispatchResponseKind::Rejected);
    assert_eq!(rejected.payload, vec![b'c', b'a', b'f', 0xc3, 0xa9]);
    let failed = context.fail("no");
    assert_eq!(failed.kind, DispatchResponseKind::Failed);
    assert_eq!(failed.payload, b"no".to_vec());
    let mute = |_: &u8| Err(RaftError::Dispatch("no value".to_string()));
    let broken = DispatchSpec::new(4, encode, decode, mute, decode);
    assert_eq!(dispatch_error(context.accept_with(&broken, &9).unwrap_err()), "no value");
}

#[test]
fn responses_reach_their_command() {
    let mut pending: PendingDispatches<u8, Codec> = PendingDispatches::new();
    pending.insert(begin(DispatchOptions::default(), &[1, 2, 3]));
    let accepted = DispatchResponse {
        tx_id: 7,
        command: 1,
        kind: DispatchResponseKind::Accepted,
        payload: vec![9],
    };
    let bytes = encode_dispatch_response(&accepted);
    pending.handle_custom_response(PeerId(1), &bytes).unwrap();
    assert_eq!(pending.map[&7].handle().state.result.accepted_count(), 1);
    // An answer to nobody's command changes nothing.
    let stray = DispatchResponse { tx_id: 8, ..accepted };
    pending.handle_custom_response(PeerId(2), &encode_dispatch_response(&stray)).unwrap();
    assert_eq!(pending.map[&7].handle().state.result.accepted_count(), 1);
}

#[test]
fn transaction_numbers_hold_their_command() {
    let mut seeds = TxSeeds::new();
    let mut first = TxIds::new(1, &mut seeds);
    let mut second = TxIds::new(1, &mut seeds);
    assert_eq!(first.next_tx_id(), 0x0100_0000_0000_0000);
    assert_eq!(first.next_tx_id(), 0x0100_0000_0000_0001);
    assert_eq!(second.next_tx_id(), 0x0137_79B9_7F4A_7C15);
    let mut third = TxIds::new(0xFF, &mut seeds);
    assert_eq!(third.next_tx_id() >> 56, 0xFF);
}

#[test]
fn scopes_allow_their_routes() {
    let here = DispatchRoute::leader(true);
    let leader = DispatchRoute::leader(false);
    let follower = DispatchRoute::follower(false);
    assert!(DispatchScope::All.allows(here) && DispatchScope::All.allows(follower));
    assert!(!DispatchScope::Others.allows(here) && DispatchScope::Others.allows(leader));
    assert!(DispatchScope::Followers.allows(follower) && !DispatchScope::Followers.allows(leader));
    assert!(DispatchScope::Leader.allows(leader) && !DispatchScope::Leader.allows(follower));
    assert!(DispatchScope::LocalOnly.allows(here) && !DispatchScope::LocalOnly.allows(follower));
}
