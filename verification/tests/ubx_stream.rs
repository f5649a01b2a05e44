use gnss_clock::ubx::{checksum, UbxFrame, UbxStream};

const UBX_FRAME1: [u8; 10] = [
    0xb5, 0x62, // header
    0x05, 0x01, // class/id
    0x02, 0x00, // length
    0x06, 0x8a, // payload
    0x98, // ck_a
    0xc1, // ck_b
];

const UBX_FRAME2: [u8; 12] = [
    0xb5, 0x62, // header
    0xab, 0xcd, // class/id
    0x04, 0x00, // length
    0xde, 0xad, 0xbe, 0xef, // payload
    0xb4, // ck_a
    0xf5, // ck_b
];

#[test]
fn test_checksum() {
    assert_eq!(
        checksum(&[0x05, 0x01, 0x02, 0x00, 0x06, 0x8a]),
        (0x98_u8, 0xc1_u8)
    );
    assert_eq!(
        checksum(&[0xab, 0xcd, 0x04, 0x00, 0xde, 0xad, 0xbe, 0xef]),
        (0xb4_u8, 0xf5_u8)
    );
}

#[test]
fn test_empty() {
    let mut buf = UbxStream::<16>::new();
    assert_eq!(buf.buf_filled().len(), 0);
    assert_eq!(buf.buf_unused_len(), 16);
    assert_eq!(buf.pop(), None);
}

#[test]
fn test_commit_and_pop() {
    let mut buf = UbxStream::<32>::new();

    buf.buf_unused_mut(&UBX_FRAME1);
    buf.commit(UBX_FRAME1.len());

    assert_eq!(buf.buf_filled(), UBX_FRAME1);
    assert_eq!(buf.buf_unused_len(), 22);

    assert_eq!(
        buf.pop(),
        Some(UbxFrame {
            class: 0x05,
            id: 0x01,
            payload: vec![0x06, 0x8a],
        })
    );
    assert_eq!(buf.buf_filled(), &[]);
    assert_eq!(buf.buf_unused_len(), 22);

    assert_eq!(buf.pop(), None);
    assert_eq!(buf.buf_filled(), &[]);
    assert_eq!(buf.buf_unused_len(), 22);

    buf.buf_unused_mut(&UBX_FRAME2);
    buf.commit(UBX_FRAME2.len());

    buf.buf_unused_mut(&UBX_FRAME1);
    buf.commit(UBX_FRAME1.len());

    assert_eq!(buf.buf_filled()[..UBX_FRAME2.len()], UBX_FRAME2);
    assert_eq!(buf.buf_filled()[UBX_FRAME2.len()..], UBX_FRAME1);
    assert_eq!(buf.buf_unused_len(), 0);

    assert_eq!(
        buf.pop(),
        Some(UbxFrame {
            class: 0xab,
            id: 0xcd,
            payload: vec![0xde, 0xad, 0xbe, 0xef],
        })
    );
    assert_eq!(buf.buf_filled(), UBX_FRAME1);
    assert_eq!(buf.buf_unused_len(), 10);

    assert_eq!(
        buf.pop(),
        Some(UbxFrame {
            class: 0x05,
            id: 0x01,
            payload: vec![0x06, 0x8a],
        })
    );
    assert_eq!(buf.buf_filled(), &[]);
    assert_eq!(buf.buf_unused_len(), 10);

    assert_eq!(buf.pop(), None);
    assert_eq!(buf.buf_filled(), &[]);
    assert_eq!(buf.buf_unused_len(), 10);
}

#[test]
fn test_interrupted() {
    let mut buf = UbxStream::<32>::new();

    buf.buf_unused_mut(&UBX_FRAME1[..5]);
    buf.commit(5);

    assert_eq!(buf.buf_filled(), &UBX_FRAME1[..5]);
    assert_eq!(buf.buf_unused_len(), 27);

    assert_eq!(buf.pop(), None);
    assert_eq!(buf.buf_filled(), &UBX_FRAME1[..5]);
    assert_eq!(buf.buf_unused_len(), 27);

    buf.buf_unused_mut(&UBX_FRAME1[5..]);
    buf.commit(UBX_FRAME1.len() - 5);

    assert_eq!(
        buf.pop(),
        Some(UbxFrame {
            class: 0x05,
            id: 0x01,
            payload: vec![0x06, 0x8a],
        })
    );
    assert_eq!(buf.buf_filled(), &[]);
    assert_eq!(buf.buf_unused_len(), 22);

    buf.buf_unused_mut(&UBX_FRAME1[..1]);
    buf.commit(1);

    assert_eq!(buf.buf_filled(), &UBX_FRAME1[..1]);
    assert_eq!(buf.buf_unused_len(), 21);

    assert_eq!(buf.pop(), None);
    assert_eq!(buf.buf_filled(), &UBX_FRAME1[..1]);
    assert_eq!(buf.buf_unused_len(), 21);

    buf.buf_unused_mut(&UBX_FRAME1[1..]);
    buf.commit(UBX_FRAME1.len() - 1);

    assert_eq!(
        buf.pop(),
        Some(UbxFrame {
            class: 0x05,
            id: 0x01,
            payload: vec![0x06, 0x8a],
        })
    );
    assert_eq!(buf.buf_filled(), &[]);
    assert_eq!(buf.buf_unused_len(), 12);
}

#[test]
fn test_garble() {
    let mut buf = UbxStream::<32>::new();

    buf.buf_unused_mut(b"abcd");
    buf.commit(4);

    assert_eq!(buf.buf_filled(), b"abcd");
    assert_eq!(buf.buf_unused_len(), 28);

    assert_eq!(buf.pop(), None);
    assert_eq!(buf.buf_filled(), &[]);
    assert_eq!(buf.buf_unused_len(), 28);

    buf.buf_unused_mut(b"abcd");
    buf.commit(4);

    buf.buf_unused_mut(&UBX_FRAME1);
    buf.commit(UBX_FRAME1.len());

    assert_eq!(
        buf.pop(),
        Some(UbxFrame {
            class: 0x05,
            id: 0x01,
            payload: vec![0x06, 0x8a],
        })
    );
    assert_eq!(buf.buf_filled(), &[]);
    assert_eq!(buf.buf_unused_len(), 14);
}

#[test]
fn test_consume() {
    let mut buf = UbxStream::<16>::new();

    buf.buf_unused_mut(b"abcdef\r\n");
    buf.commit(8);

    assert_eq!(buf.buf_filled(), b"abcdef\r\n");
    assert_eq!(buf.buf_unused_len(), 8);

    buf.consume(3);

    assert_eq!(buf.buf_filled(), b"def\r\n");
    assert_eq!(buf.buf_unused_len(), 8);

    buf.consume(1234);

    assert_eq!(buf.buf_filled(), &[]);
    assert_eq!(buf.buf_unused_len(), 8);
}

#[test]
fn test_avoid_no_room() {
    let mut buf = UbxStream::<16>::new();

    buf.buf_unused_mut(&UBX_FRAME2);
    buf.commit(UBX_FRAME2.len());

    assert_eq!(buf.buf_filled(), UBX_FRAME2);
    assert_eq!(buf.buf_unused_len(), 4);

    buf.buf_unused_mut(&UBX_FRAME1[..4]);
    buf.commit(4);

    assert_eq!(buf.buf_filled()[..UBX_FRAME2.len()], UBX_FRAME2);
    assert_eq!(
        &buf.buf_filled()[UBX_FRAME2.len()..UBX_FRAME2.len() + 4],
        &UBX_FRAME1[..4]
    );
    assert_eq!(buf.buf_unused_len(), 0);

    assert_eq!(
        buf.pop(),
        Some(UbxFrame {
            class: 0xab,
            id: 0xcd,
            payload: vec![0xde, 0xad, 0xbe, 0xef],
        })
    );
    assert_eq!(buf.buf_filled(), &UBX_FRAME1[..4]);
    assert_eq!(buf.buf_unused_len(), 0);

    assert_eq!(buf.pop(), None);
    assert_eq!(buf.buf_filled(), &UBX_FRAME1[..4]);
    assert_ne!(buf.buf_unused_len(), 0);
}

#[test]
fn checksum_rejection_consumes_frame() {
    let mut corrupted = UBX_FRAME1;
    corrupted[9] ^= 0x01;

    let mut buf = UbxStream::<32>::new();
    buf.buf_unused_mut(&corrupted);
    buf.commit(corrupted.len());

    assert_eq!(buf.pop(), None);
    assert_eq!(buf.buf_filled(), &[]);
}

#[test]
fn corrupted_then_valid_frame_in_one_pop() {
    let mut corrupted = UBX_FRAME2;
    corrupted[11] ^= 0xff;

    let mut buf = UbxStream::<32>::new();
    buf.buf_unused_mut(&corrupted);
    buf.commit(corrupted.len());
    buf.buf_unused_mut(&UBX_FRAME1);
    buf.commit(UBX_FRAME1.len());

    assert_eq!(
        buf.pop(),
        Some(UbxFrame {
            class: 0x05,
            id: 0x01,
            payload: vec![0x06, 0x8a],
        })
    );
    assert_eq!(buf.buf_filled(), &[]);
}

#[test]
fn idempotent_rescan() {
    let mut buf = UbxStream::<32>::new();

    buf.buf_unused_mut(&UBX_FRAME1[..7]);
    buf.commit(7);

    assert_eq!(buf.pop(), None);
    let after_first: Vec<u8> = buf.buf_filled().to_vec();
    assert_eq!(after_first, &UBX_FRAME1[..7]);

    assert_eq!(buf.pop(), None);
    assert_eq!(buf.buf_filled(), &after_first[..]);
    assert_eq!(buf.pop(), None);
    assert_eq!(buf.buf_filled(), &after_first[..]);
}

#[test]
fn compaction_keeps_split_frame() {
    // Fill a small window to capacity without a complete frame, then add
    // the rest: the frame must still come out whole.
    let mut buf = UbxStream::<16>::new();

    buf.buf_unused_mut(b"abcdefgh");
    buf.commit(8);
    buf.buf_unused_mut(&UBX_FRAME1[..8]);
    buf.commit(8);
    assert_eq!(buf.buf_unused_len(), 0);

    // First pop drops the garbage and keeps the incomplete candidate.
    assert_eq!(buf.pop(), None);
    assert_eq!(buf.buf_filled(), &UBX_FRAME1[..8]);

    // Second pop compacts the still-full window, freeing room.
    assert_eq!(buf.pop(), None);
    assert_eq!(buf.buf_filled(), &UBX_FRAME1[..8]);
    assert_eq!(buf.buf_unused_len(), 8);

    buf.buf_unused_mut(&UBX_FRAME1[8..]);
    buf.commit(2);

    assert_eq!(
        buf.pop(),
        Some(UbxFrame {
            class: 0x05,
            id: 0x01,
            payload: vec![0x06, 0x8a],
        })
    );
    assert_eq!(buf.buf_filled(), &[]);
}
