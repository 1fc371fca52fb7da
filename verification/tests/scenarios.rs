//! Whole transfers, run through the wire codec on both sides.

use sfshare::recv::{RecvOutcome, RecvSession};
use sfshare::send::{file_packets, handle_ack_reply, offer_request, FileSender};
use sfshare::transport::{parse, FileMeta, Parsed};

fn meta(name: &str, size: u64) -> FileMeta {
    FileMeta::new(name.as_bytes().to_vec(), size, None)
}

/// Encode on the sender, decode on the receiver: one packet over the wire.
fn over_wire(p: &Parsed) -> Parsed {
    let wire = p.to_buf();
    let (back, used) = parse(&wire).unwrap();
    assert_eq!(used, wire.len());
    back
}

fn contents_3000() -> Vec<u8> {
    (0..3000u32).map(|i| (i % 251) as u8).collect()
}

#[test]
fn end_to_end_single_file() {
    let data = contents_3000();
    let metas = vec![meta("a.bin", data.len() as u64)];
    let id = metas[0].id;

    let mut session = RecvSession::new();

    // handshake
    let r = session.handle(over_wire(&Parsed::Ping), false);
    assert_eq!(r, RecvOutcome::Reply(Parsed::Pong));

    // negotiation: offer accepted
    let offer = offer_request(&metas).unwrap();
    let r = session.handle(over_wire(&offer), true);
    assert_eq!(r, RecvOutcome::Reply(Parsed::AckRes(true)));
    assert_eq!(handle_ack_reply(&over_wire(&Parsed::AckRes(true))), Ok(()));

    // streaming: blocks of at most 1300 bytes, then FileEnd
    let packets = file_packets(id, &data);
    assert_eq!(packets.len(), 4); // 1300 + 1300 + 400, then FileEnd

    let mut written: Vec<u8> = Vec::new();
    let mut mismatch_logged = false;
    for p in &packets {
        if let Parsed::FileBlock { data: block, .. } = p {
            assert!(block.len() <= 1300);
        }
        match session.handle(over_wire(p), false) {
            RecvOutcome::Open { meta: m, data: d } => {
                assert_eq!(m.name, b"a.bin".to_vec());
                written.extend(d);
            }
            RecvOutcome::Append { id: bid, data: d } => {
                assert_eq!(bid, id);
                written.extend(d);
            }
            RecvOutcome::FileDone {
                matched,
                transfer_complete,
                ..
            } => {
                mismatch_logged = !matched;
                assert!(transfer_complete);
            }
            other => panic!("{:?}", other),
        }
    }

    // the receiver reconstructed the file byte for byte, with no mismatch
    assert_eq!(written, data);
    assert!(!mismatch_logged);
    assert!(!session.in_transfer());
}

#[test]
fn corrupted_block_reports_mismatch_but_keeps_file() {
    let data = contents_3000();
    let metas = vec![meta("a.bin", data.len() as u64)];
    let id = metas[0].id;

    let mut session = RecvSession::new();
    session.handle(offer_request(&metas).unwrap(), true);

    let packets = file_packets(id, &data);
    let mut written: Vec<u8> = Vec::new();
    let mut outcome_of_end = None;
    for (k, p) in packets.iter().enumerate() {
        // flip one payload byte of the second block after the sender has
        // accumulated its checksum, as corruption in transit would
        let mut wire = p.to_buf();
        if k == 1 {
            let last = wire.len() - 1;
            wire[last] ^= 0xFF;
        }
        let (arrived, _) = parse(&wire).unwrap();
        match session.handle(arrived, false) {
            RecvOutcome::Open { data: d, .. } => written.extend(d),
            RecvOutcome::Append { data: d, .. } => written.extend(d),
            r @ RecvOutcome::FileDone { .. } => outcome_of_end = Some(r),
            other => panic!("{:?}", other),
        }
    }

    // the mismatch is reported ...
    match outcome_of_end.unwrap() {
        RecvOutcome::FileDone {
            matched,
            expected,
            computed,
            transfer_complete,
        } => {
            assert!(!matched);
            assert_ne!(expected, computed);
            assert!(transfer_complete);
        }
        _ => unreachable!(),
    }
    // ... and the corrupted file is retained as written, not dropped
    assert_eq!(written.len(), data.len());
    assert_ne!(written, data);
    let mut expected_written = data.clone();
    expected_written[2599] ^= 0xFF;
    assert_eq!(written, expected_written);
}

#[test]
fn zero_length_file_is_one_empty_block() {
    let packets = file_packets(5, &[]);
    assert_eq!(packets.len(), 2);
    assert_eq!(
        packets[0],
        Parsed::FileBlock {
            id: 5,
            data: vec![]
        }
    );
    assert_eq!(packets[1], Parsed::FileEnd(0));
}

#[test]
fn block_boundary_file_ends_with_empty_block() {
    let data = vec![1u8; 2600];
    let packets = file_packets(9, &data);
    assert_eq!(packets.len(), 4);
    match &packets[2] {
        Parsed::FileBlock { id, data } => {
            assert_eq!(*id, 9);
            assert!(data.is_empty());
        }
        other => panic!("{:?}", other),
    }
    assert_eq!(packets[3], Parsed::FileEnd(2600 % 2147483647));
}

#[test]
fn chunked_sender_matches_whole_file_checksum() {
    // stream the same bytes under two different chunkings: the FileEnd
    // checksum is the same
    let data = contents_3000();

    let mut one = FileSender::begin(1, data.len() as u64);
    let mut off = 0;
    while !one.done {
        let n = one.next_block_size() as usize;
        one.next_block(data[off..off + n].to_vec());
        off += n;
    }
    let end_chunked = one.finish();

    let packets = file_packets(1, &data);
    assert_eq!(*packets.last().unwrap(), end_chunked);

    // and a transfer of the whole file as blocks agrees with a direct sum
    let total: u64 = data.iter().map(|b| *b as u64).sum::<u64>() % 2147483647;
    assert_eq!(end_chunked, Parsed::FileEnd(total));
}

#[test]
fn multi_file_transfer_completes() {
    let a = vec![7u8; 10];
    let b: Vec<u8> = (0..20u8).collect();
    let metas = vec![meta("a.bin", 10), meta("b.bin", 20)];
    let (id_a, id_b) = (metas[0].id, metas[1].id);

    let mut session = RecvSession::new();
    session.handle(offer_request(&metas).unwrap(), true);

    for (id, contents) in [(id_a, &a), (id_b, &b)] {
        let mut done = false;
        for p in file_packets(id, contents) {
            match session.handle(p, false) {
                RecvOutcome::Open { .. } | RecvOutcome::Append { .. } => {}
                RecvOutcome::FileDone {
                    matched,
                    transfer_complete,
                    ..
                } => {
                    assert!(matched);
                    done = transfer_complete;
                }
                other => panic!("{:?}", other),
            }
        }
        assert_eq!(done, id == id_b);
    }
    assert!(!session.in_transfer());
}
