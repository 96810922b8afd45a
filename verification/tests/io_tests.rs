use ksana::io::{IOError, Loader, Saver, CURRENT_VERSION};

#[test]
fn test_single_frame() {
    let mut saver = Saver::new(30, *b"irac");
    saver.save(b"hello world").unwrap();
    saver.flush().unwrap();
    let buffer = saver.data().clone();

    let mut loader = Loader::new(buffer).unwrap();
    assert_eq!(loader.fps(), 30);
    assert_eq!(&loader.id(), b"irac");

    let frame = loader.load().unwrap();
    assert_eq!(frame, Some(b"hello world".to_vec()));

    // EOF
    assert_eq!(loader.load().unwrap(), None);
}

#[test]
fn test_multiple_frames() {
    let frames: Vec<Vec<u8>> = vec![
        vec![1, 2, 3, 4],
        vec![5, 6, 7, 8, 9, 10],
        vec![0; 1000], // larger frame to test compression
    ];

    let mut saver = Saver::new(60, *b"acsa");
    for frame in &frames {
        saver.save(frame).unwrap();
    }
    saver.flush().unwrap();
    let buffer = saver.data().clone();

    let mut loader = Loader::new(buffer).unwrap();
    assert_eq!(loader.version(), CURRENT_VERSION);
    assert_eq!(loader.fps(), 60);
    assert_eq!(&loader.id(), b"acsa");

    for expected in &frames {
        let frame = loader.load().unwrap();
        assert_eq!(frame.as_ref(), Some(expected));
    }

    // EOF
    assert_eq!(loader.load().unwrap(), None);
}

#[test]
fn test_invalid_magic() {
    let buffer = b"BADMAGIC".to_vec();
    let result = Loader::new(buffer);
    assert!(matches!(result, Err(IOError::InvalidMagic)));
}

#[test]
fn io_test_header_size() {
    let mut saver = Saver::new(5, *b"test");
    saver.flush().unwrap();

    // Header should be exactly 72 bytes:
    // - 8 magic
    // - 4 file version
    // - 4 fps
    // - 4 id
    // - padding
    assert_eq!(saver.data().len(), 72);
}

#[test]
fn header_size_does_not_depend_on_values() {
    for (fps, id) in [(1, *b"aaaa"), (60, *b"zzzz"), (-7, [0u8; 4]), (i32::MAX, [255u8; 4])] {
        let saver = Saver::new(fps, id);
        assert_eq!(saver.data().len(), 72);
    }
}

#[test]
fn empty_payload_round_trips() {
    let mut saver = Saver::new(10, *b"irac");
    saver.save(b"").unwrap();
    saver.flush().unwrap();
    let mut loader = Loader::new(saver.data().clone()).unwrap();
    assert_eq!(loader.load().unwrap(), Some(Vec::new()));
    assert_eq!(loader.load().unwrap(), None);
}

#[test]
fn incompressible_payload_round_trips() {
    // a payload with little structure, large enough to cross block sizes
    let payload: Vec<u8> = (0..4096u32)
        .map(|i| (i.wrapping_mul(2654435761) >> 13) as u8)
        .collect();
    let mut saver = Saver::new(60, *b"irac");
    saver.save(&payload).unwrap();
    saver.flush().unwrap();
    let mut loader = Loader::new(saver.data().clone()).unwrap();
    assert_eq!(loader.load().unwrap(), Some(payload));
    assert_eq!(loader.load().unwrap(), None);
}

#[test]
fn compression_shrinks_redundant_payloads() {
    // a kilobyte of zeros must not be stored byte for byte
    let mut saver = Saver::new(60, *b"acsa");
    saver.save(&[0u8; 1000]).unwrap();
    assert!(saver.data().len() < 72 + 12 + 1000);
}

#[test]
fn eof_stays_eof() {
    let mut saver = Saver::new(30, *b"irac");
    saver.save(&[1, 2, 3]).unwrap();
    let mut loader = Loader::new(saver.data().clone()).unwrap();
    assert_eq!(loader.load().unwrap(), Some(vec![1, 2, 3]));
    for _ in 0..5 {
        assert_eq!(loader.load().unwrap(), None);
    }
}

#[test]
fn future_version_is_rejected() {
    let mut saver = Saver::new(30, *b"irac");
    saver.save(&[1, 2, 3]).unwrap();
    let mut buffer = saver.data().clone();
    // raise the version field beyond the current one
    buffer[8..12].copy_from_slice(&2i32.to_le_bytes());
    let result = Loader::new(buffer);
    assert!(matches!(result, Err(IOError::UnsupportedVersion(2))));
}

#[test]
fn older_version_is_accepted() {
    let mut saver = Saver::new(30, *b"irac");
    saver.save(&[4, 5, 6]).unwrap();
    let mut buffer = saver.data().clone();
    buffer[8..12].copy_from_slice(&0i32.to_le_bytes());
    let mut loader = Loader::new(buffer).unwrap();
    assert_eq!(loader.version(), 0);
    assert_eq!(loader.load().unwrap(), Some(vec![4, 5, 6]));
    assert_eq!(loader.load().unwrap(), None);
}

#[test]
fn truncated_container_header_is_io_error() {
    let mut saver = Saver::new(30, *b"irac");
    saver.flush().unwrap();
    let mut buffer = saver.data().clone();
    buffer.truncate(40);
    assert!(matches!(Loader::new(buffer), Err(IOError::Io)));
}

#[test]
fn frame_header_under_12_bytes_is_rejected() {
    let saver = Saver::new(30, *b"irac");
    let mut buffer = saver.data().clone();
    buffer.extend_from_slice(&5i32.to_le_bytes());
    buffer.extend_from_slice(&0u32.to_le_bytes());
    buffer.extend_from_slice(&0u32.to_le_bytes());
    let mut loader = Loader::new(buffer).unwrap();
    assert!(matches!(loader.load(), Err(IOError::InvalidHeaderSize(5))));
}

#[test]
fn malformed_compressed_payload_is_rejected() {
    let saver = Saver::new(30, *b"irac");
    let mut buffer = saver.data().clone();
    buffer.extend_from_slice(&12i32.to_le_bytes());
    buffer.extend_from_slice(&4u32.to_le_bytes());
    buffer.extend_from_slice(&10u32.to_le_bytes());
    buffer.extend_from_slice(&[0xde, 0xad, 0xbe, 0xef]);
    let mut loader = Loader::new(buffer).unwrap();
    assert!(matches!(loader.load(), Err(IOError::DecompressionFailed)));
}

#[test]
fn stream_cut_inside_record_is_io_error() {
    let saver = Saver::new(30, *b"irac");
    let mut buffer = saver.data().clone();
    // declares 100 compressed bytes but carries only 3
    buffer.extend_from_slice(&12i32.to_le_bytes());
    buffer.extend_from_slice(&100u32.to_le_bytes());
    buffer.extend_from_slice(&5u32.to_le_bytes());
    buffer.extend_from_slice(&[1, 2, 3]);
    let mut loader = Loader::new(buffer).unwrap();
    assert!(matches!(loader.load(), Err(IOError::Io)));
}

#[test]
fn stream_cut_inside_reserved_header_bytes_is_io_error() {
    let saver = Saver::new(30, *b"irac");
    let mut buffer = saver.data().clone();
    // declares 8 reserved record-header bytes but carries only 2
    buffer.extend_from_slice(&20i32.to_le_bytes());
    buffer.extend_from_slice(&0u32.to_le_bytes());
    buffer.extend_from_slice(&0u32.to_le_bytes());
    buffer.extend_from_slice(&[1, 2]);
    let mut loader = Loader::new(buffer).unwrap();
    assert!(matches!(loader.load(), Err(IOError::Io)));
}

#[test]
fn stream_cut_inside_record_lengths_is_clean_eof() {
    let saver = Saver::new(30, *b"irac");
    let mut buffer = saver.data().clone();
    // only the record-header length field fits: treated as end of stream
    buffer.extend_from_slice(&12i32.to_le_bytes());
    buffer.push(7);
    let mut loader = Loader::new(buffer).unwrap();
    assert_eq!(loader.load().unwrap(), None);
}

#[test]
fn reserved_record_header_bytes_are_skipped() {
    // a record whose header declares 16 bytes: 4 reserved bytes stand
    // between the known header and the payload
    let mut saver = Saver::new(30, *b"irac");
    saver.save(b"xy").unwrap();
    let stream = saver.data().clone();
    let compressed = &stream[84..];

    let plain = Saver::new(30, *b"irac");
    let mut buffer = plain.data().clone();
    buffer.extend_from_slice(&16i32.to_le_bytes());
    buffer.extend_from_slice(&(compressed.len() as u32).to_le_bytes());
    buffer.extend_from_slice(&2u32.to_le_bytes());
    buffer.extend_from_slice(&[0xaa, 0xbb, 0xcc, 0xdd]);
    buffer.extend_from_slice(compressed);
    let mut loader = Loader::new(buffer).unwrap();
    assert_eq!(loader.load().unwrap(), Some(b"xy".to_vec()));
    assert_eq!(loader.load().unwrap(), None);
}
