//! The handshake, negotiation and receiver-session state machines, one
//! packet at a time.

use sfshare::recv::{RecvOutcome, RecvSession};
use sfshare::send::{
    handle_ack_reply, handshake_reply, handshake_start, needs_confirmation, offer_request,
    HandshakeState,
};
use sfshare::transport::{FileMeta, Parsed, ProtoError, PONG};

fn meta(name: &str, size: u64) -> FileMeta {
    FileMeta::new(name.as_bytes().to_vec(), size, None)
}

#[test]
fn handshake_ping_draws_pong_and_connection_stays_open() {
    let mut session = RecvSession::new();
    let r = session.handle(Parsed::Ping, false);
    assert_eq!(r, RecvOutcome::Reply(Parsed::Pong));
    // the session is untouched: a second ping is answered just the same
    let r2 = session.handle(Parsed::Ping, false);
    assert_eq!(r2, RecvOutcome::Reply(Parsed::Pong));
}

#[test]
fn handshake_sender_states() {
    let (st, ping) = handshake_start(HandshakeState::Disconnected);
    assert_eq!(st, HandshakeState::AwaitingPong);
    assert_eq!(ping, Parsed::Ping);
    assert_eq!(handshake_reply(st, PONG), Ok(HandshakeState::Live));
}

#[test]
fn handshake_wrong_reply_is_peer_unreachable() {
    let (st, _) = handshake_start(HandshakeState::Disconnected);
    assert_eq!(handshake_reply(st, 0x05), Err(ProtoError::PeerUnreachable));
}

#[test]
fn stray_pong_is_ignored() {
    let mut session = RecvSession::new();
    assert_eq!(session.handle(Parsed::Pong, false), RecvOutcome::Ignore);
}

#[test]
fn negotiation_decline_path() {
    let metas = vec![meta("a.bin", 3000)];
    let offer = offer_request(&metas).unwrap();

    // the receiver's operator says no: AckRes(false) goes back, nothing is
    // awaited
    let mut session = RecvSession::new();
    let r = session.handle(offer, false);
    assert_eq!(r, RecvOutcome::Reply(Parsed::AckRes(false)));

    // the sender reads the decline as RequestDeclined
    assert_eq!(
        handle_ack_reply(&Parsed::AckRes(false)),
        Err(ProtoError::RequestDeclined)
    );

    // the same connection still answers a fresh ping
    assert_eq!(
        session.handle(Parsed::Ping, false),
        RecvOutcome::Reply(Parsed::Pong)
    );
}

#[test]
fn negotiation_accept_begins_transfer() {
    let metas = vec![meta("a.bin", 4)];
    let id = metas[0].id;
    let offer = offer_request(&metas).unwrap();

    let mut session = RecvSession::new();
    let r = session.handle(offer, true);
    assert_eq!(r, RecvOutcome::Reply(Parsed::AckRes(true)));
    assert!(session.in_transfer());

    // the sender reads the acceptance and starts streaming at once
    assert_eq!(handle_ack_reply(&Parsed::AckRes(true)), Ok(()));

    let r = session.handle(
        Parsed::FileBlock {
            id,
            data: vec![1, 2, 3, 4],
        },
        false,
    );
    match r {
        RecvOutcome::Open { meta: m, data } => {
            assert_eq!(m.name, b"a.bin".to_vec());
            assert_eq!(data, vec![1, 2, 3, 4]);
        }
        other => panic!("{:?}", other),
    }
}

#[test]
fn sender_rejects_unexpected_packet_instead_of_ack() {
    assert_eq!(
        handle_ack_reply(&Parsed::Ping),
        Err(ProtoError::UnexpectedPacket)
    );
    assert_eq!(
        handle_ack_reply(&Parsed::FileEnd(0)),
        Err(ProtoError::UnexpectedPacket)
    );
}

#[test]
fn empty_offer_is_no_files_found() {
    assert_eq!(offer_request(&vec![]), Err(ProtoError::NoFilesFound));
}

#[test]
fn confirmation_thresholds() {
    assert!(!needs_confirmation(&vec![meta("a", 1_000_000)]));
    assert!(needs_confirmation(&vec![meta("a", 1_000_001)]));
    let five: Vec<FileMeta> = (0..5).map(|i| meta(&format!("f{}", i), 1)).collect();
    assert!(!needs_confirmation(&five));
    let six: Vec<FileMeta> = (0..6).map(|i| meta(&format!("f{}", i), 1)).collect();
    assert!(needs_confirmation(&six));
}

#[test]
fn unrequested_block_is_discarded_and_session_lives_on() {
    let metas = vec![meta("a.bin", 2)];
    let id = metas[0].id;
    let stray_id = id.wrapping_add(1);

    let mut session = RecvSession::new();
    session.handle(offer_request(&metas).unwrap(), true);

    // a block for a file never offered: discarded, not fatal
    let r = session.handle(
        Parsed::FileBlock {
            id: stray_id,
            data: vec![0xEE],
        },
        false,
    );
    assert_eq!(r, RecvOutcome::Discard { id: stray_id });

    // the correctly addressed block is still served
    let r = session.handle(
        Parsed::FileBlock {
            id,
            data: vec![5, 6],
        },
        false,
    );
    match r {
        RecvOutcome::Open { meta: m, .. } => assert_eq!(m.id, id),
        other => panic!("{:?}", other),
    }
}

#[test]
fn block_for_other_file_while_one_is_open_is_fatal() {
    let metas = vec![meta("a.bin", 2), meta("b.bin", 2)];
    let id_a = metas[0].id;
    let id_b = metas[1].id;

    let mut session = RecvSession::new();
    session.handle(offer_request(&metas).unwrap(), true);
    session.handle(
        Parsed::FileBlock {
            id: id_a,
            data: vec![1],
        },
        false,
    );
    // b is still pending, but a is open: interleaving is not supported
    let r = session.handle(
        Parsed::FileBlock {
            id: id_b,
            data: vec![2],
        },
        false,
    );
    assert_eq!(r, RecvOutcome::Violation(ProtoError::WrongFileId));
}

#[test]
fn packets_out_of_place_are_violations() {
    // a block before any negotiation
    let mut idle = RecvSession::new();
    let r = idle.handle(
        Parsed::FileBlock {
            id: 1,
            data: vec![],
        },
        false,
    );
    assert_eq!(r, RecvOutcome::Violation(ProtoError::UnexpectedPacket));

    // a ping in the middle of a transfer
    let metas = vec![meta("a.bin", 1)];
    let mut session = RecvSession::new();
    session.handle(offer_request(&metas).unwrap(), true);
    let r = session.handle(Parsed::Ping, false);
    assert_eq!(r, RecvOutcome::Violation(ProtoError::UnexpectedPacket));
}

#[test]
fn colliding_ids_share_one_pending_slot() {
    // two files with the same base name collide on id: the later offer wins
    let metas = vec![meta("same.bin", 1), meta("same.bin", 9)];
    let id = metas[0].id;
    assert_eq!(id, metas[1].id);

    let mut session = RecvSession::new();
    session.handle(offer_request(&metas).unwrap(), true);
    let r = session.handle(Parsed::FileBlock { id, data: vec![7] }, false);
    match r {
        RecvOutcome::Open { meta: m, .. } => assert_eq!(m.size, 9),
        other => panic!("{:?}", other),
    }
    // the one slot is gone now: the transfer completes with the next FileEnd
    let r = session.handle(Parsed::FileEnd(7), false);
    assert_eq!(
        r,
        RecvOutcome::FileDone {
            matched: true,
            expected: 7,
            computed: 7,
            transfer_complete: true,
        }
    );
    assert!(!session.in_transfer());
}
