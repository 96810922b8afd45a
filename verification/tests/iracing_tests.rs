use ksana::sims::iracing::{
    id, playback_ops, region_wf_check, stop_op, CaptureState, FrameData, Header, StatusField,
    VarBuf, VarHeader, HEADER_SIZE, IRSDK_MAX_DESC, IRSDK_MAX_STRING, VAR_BUF_SIZE,
    VAR_HEADER_SIZE,
};

fn pad_bytes(s: &[u8], n: usize) -> Vec<u8> {
    let mut v = s.to_vec();
    v.resize(n, 0);
    v
}

fn test_header() -> Header {
    Header {
        ver: 2,
        status: 1,
        tick_rate: 60,
        session_info_update: 5,
        session_info_len: 100,
        session_info_offset: 1000,
        num_vars: 2,
        var_header_offset: 144,
        num_buf: 3,
        buf_len: 512,
        pad1: vec![0; 2],
        var_buf: vec![
            VarBuf { tick_count: 100, buf_offset: 2000, pad: vec![0; 2] },
            VarBuf::default(),
            VarBuf::default(),
            VarBuf::default(),
        ],
    }
}

fn test_var_headers() -> Vec<VarHeader> {
    vec![
        VarHeader {
            var_type: 1,
            offset: 10,
            count: 5,
            count_as_time: 1,
            pad: vec![0; 3],
            name: pad_bytes(b"TestName", IRSDK_MAX_STRING),
            desc: pad_bytes(b"TestDesc", IRSDK_MAX_DESC),
            unit: pad_bytes(b"TestUnit", IRSDK_MAX_STRING),
        },
        VarHeader {
            var_type: 2,
            offset: 20,
            count: 10,
            count_as_time: 0,
            pad: vec![0; 3],
            name: pad_bytes(b"TestName2", IRSDK_MAX_STRING),
            desc: pad_bytes(b"TestDesc2", IRSDK_MAX_DESC),
            unit: pad_bytes(b"TestUnit2", IRSDK_MAX_STRING),
        },
    ]
}

#[test]
fn data_test_header_size() {
    // Header: 12 ints (48 bytes) + 4 VarBufs (64 bytes) = 112 bytes
    assert_eq!(HEADER_SIZE, 112);
    assert_eq!(test_header().to_bytes().len(), 112);
}

#[test]
fn test_var_header_size() {
    // VarHeader should be 144 bytes (4+4+4+1+3 + 32 + 64 + 32 = 144)
    assert_eq!(VAR_HEADER_SIZE, 144);
    assert_eq!(test_var_headers()[0].to_bytes().len(), 144);
}

#[test]
fn test_var_buf_size() {
    // VarBuf should be 16 bytes (4+4+8 = 16)
    assert_eq!(VAR_BUF_SIZE, 16);
}

#[test]
fn test_header_is_connected() {
    let mut header = Header::default();
    assert!(!header.is_connected());

    header.status = StatusField::Connected.mask();
    assert!(header.is_connected());
}

#[test]
fn test_latest_buf_index() {
    let mut header = Header::default();
    header.num_buf = 3;
    header.var_buf[0].tick_count = 100;
    header.var_buf[1].tick_count = 150;
    header.var_buf[2].tick_count = 120;

    assert_eq!(header.latest_buf_index(), 1);
}

#[test]
fn latest_buf_index_takes_first_of_equal_maxima() {
    let mut header = Header::default();
    header.num_buf = 4;
    header.var_buf[0].tick_count = 9;
    header.var_buf[1].tick_count = 30;
    header.var_buf[2].tick_count = 30;
    header.var_buf[3].tick_count = 2;
    assert_eq!(header.latest_buf_index(), 1);

    header.num_buf = 0;
    assert_eq!(header.latest_buf_index(), 0);
}

#[test]
fn data_test_serialize_frame_data() {
    let frame = FrameData {
        header: test_header(),
        var_headers: test_var_headers(),
        session_info: Some("SessionInfo:\n  Type: Race\n".to_string()),
        raw_data: vec![1, 2, 3, 4, 5, 6, 7, 8],
    };

    let serialized = frame.serialize();
    assert!(serialized.is_some());
    let serialized = serialized.unwrap();
    let deserialized = FrameData::deserialize(&serialized).unwrap();

    assert_eq!(deserialized.header.ver, frame.header.ver);
    assert_eq!(deserialized.header.status, frame.header.status);
    assert_eq!(deserialized.var_headers.len(), frame.var_headers.len());
    assert_eq!(deserialized.session_info, frame.session_info);
    assert_eq!(deserialized.raw_data, frame.raw_data);
}

#[test]
fn test_serialize_frame_data_no_session_info() {
    let frame = FrameData {
        header: test_header(),
        var_headers: test_var_headers(),
        session_info: None,
        raw_data: vec![1, 2, 3, 4, 5, 6, 7, 8],
    };

    let serialized = frame.serialize();
    assert!(serialized.is_some());
    let serialized = serialized.unwrap();
    let deserialized = FrameData::deserialize(&serialized).unwrap();

    assert_eq!(deserialized.header.ver, frame.header.ver);
    assert_eq!(deserialized.header.status, frame.header.status);
    assert_eq!(deserialized.var_headers.len(), frame.var_headers.len());
    assert_eq!(deserialized.session_info, frame.session_info);
    assert_eq!(deserialized.raw_data, frame.raw_data);
}

#[test]
fn serialization_round_trips_every_field() {
    let frame = FrameData {
        header: test_header(),
        var_headers: test_var_headers(),
        session_info: Some("weekend: race".to_string()),
        raw_data: vec![42; 512],
    };
    let bytes = frame.serialize().unwrap();
    let back = FrameData::deserialize(&bytes).unwrap();
    assert_eq!(back.header.tick_rate, 60);
    assert_eq!(back.header.session_info_update, 5);
    assert_eq!(back.header.num_buf, 3);
    assert_eq!(back.header.var_buf[0].tick_count, 100);
    assert_eq!(back.header.var_buf[0].buf_offset, 2000);
    assert_eq!(back.var_headers[0].name, pad_bytes(b"TestName", IRSDK_MAX_STRING));
    assert_eq!(back.var_headers[1].desc, pad_bytes(b"TestDesc2", IRSDK_MAX_DESC));
    assert_eq!(back.var_headers[1].count, 10);
    assert_eq!(back.session_info.as_deref(), Some("weekend: race"));
    assert_eq!(back.raw_data, vec![42; 512]);
}

#[test]
fn lossy_decoding_replaces_invalid_utf8() {
    // a hand-built payload: an all-zero header (no channels), a one-byte
    // session blob that is not valid UTF-8, and no sample bytes
    let mut bytes = vec![0u8; HEADER_SIZE];
    bytes.extend_from_slice(&1u64.to_le_bytes());
    bytes.push(0xFF);
    bytes.extend_from_slice(&0u64.to_le_bytes());
    let frame = FrameData::deserialize(&bytes).unwrap();
    assert_eq!(frame.session_info.as_deref(), Some("\u{FFFD}"));
}

#[test]
fn deserialize_rejects_truncated_payloads() {
    let frame = FrameData {
        header: test_header(),
        var_headers: test_var_headers(),
        session_info: None,
        raw_data: vec![1, 2, 3],
    };
    let bytes = frame.serialize().unwrap();
    assert!(FrameData::deserialize(&bytes[..bytes.len() - 1]).is_err());
    assert!(FrameData::deserialize(&bytes[..HEADER_SIZE + 10]).is_err());
    assert!(FrameData::deserialize(&[]).is_err());
}

fn live_region() -> Vec<u8> {
    let mut header = Header::default();
    header.ver = 2;
    header.status = StatusField::Connected.mask();
    header.tick_rate = 60;
    header.num_buf = 1;
    header.buf_len = 4;
    header.var_buf[0] = VarBuf { tick_count: 5, buf_offset: 112, pad: vec![0; 2] };
    let mut region = header.to_bytes();
    region.extend_from_slice(&[9, 9, 9, 9]);
    region
}

#[test]
fn capture_records_fresh_ticks_only() {
    let region = live_region();
    assert!(region_wf_check(&region));

    let mut state = CaptureState::new();
    let payload = state.update(&region).unwrap();
    let frame = FrameData::deserialize(&payload).unwrap();
    assert_eq!(frame.header.ver, 2);
    assert_eq!(frame.raw_data, vec![9, 9, 9, 9]);
    assert_eq!(frame.session_info, None);

    // the same tick again: no new data
    assert!(state.update(&region).is_none());
}

#[test]
fn capture_ignores_disconnected_regions() {
    let mut region = live_region();
    region[4..8].copy_from_slice(&0i32.to_le_bytes());
    let mut state = CaptureState::new();
    assert!(state.update(&region).is_none());
}

#[test]
fn capture_records_session_info_when_its_revision_moves() {
    let mut header = Header::default();
    header.status = StatusField::Connected.mask();
    header.num_buf = 1;
    header.buf_len = 2;
    header.var_buf[0] = VarBuf { tick_count: 3, buf_offset: 112, pad: vec![0; 2] };
    header.session_info_update = 1;
    header.session_info_offset = 114;
    header.session_info_len = 8;
    let mut region = header.to_bytes();
    region.extend_from_slice(&[7, 7]);
    region.extend_from_slice(b"Race\0abc");
    assert!(region_wf_check(&region));

    let mut state = CaptureState::new();
    let payload = state.update(&region).unwrap();
    let frame = FrameData::deserialize(&payload).unwrap();
    // the blob is cut at its first zero byte
    assert_eq!(frame.session_info.as_deref(), Some("Race"));
    assert_eq!(frame.raw_data, vec![7, 7]);
}

#[test]
fn region_check_rejects_out_of_bounds_headers() {
    assert!(!region_wf_check(&[0u8; 50]));
    let mut region = live_region();
    region[36..40].copy_from_slice(&1000i32.to_le_bytes()); // buf_len past the region
    assert!(!region_wf_check(&region));
}

#[test]
fn playback_ops_place_every_part_at_its_offset() {
    let frame = FrameData {
        header: test_header(),
        var_headers: test_var_headers(),
        session_info: Some("S".to_string()),
        raw_data: vec![8, 8, 8],
    };
    let bytes = frame.serialize().unwrap();
    let ops = playback_ops(&bytes).unwrap();
    assert_eq!(ops.len(), 2 + 2 + 1);
    assert_eq!(ops[0].offset, 0);
    assert_eq!(ops[0].bytes, frame.header.to_bytes());
    assert_eq!(ops[1].offset, 2000); // the freshest buffer's offset
    assert_eq!(ops[1].bytes, vec![8, 8, 8]);
    assert_eq!(ops[2].offset, 144);
    assert_eq!(ops[2].bytes, frame.var_headers[0].to_bytes());
    assert_eq!(ops[3].offset, 144 + 144);
    assert_eq!(ops[3].bytes, frame.var_headers[1].to_bytes());
    assert_eq!(ops[4].offset, 1000);
    assert_eq!(ops[4].bytes, b"S".to_vec());
}

#[test]
fn playback_ops_reject_unusable_snapshots() {
    assert!(playback_ops(&[1, 2, 3]).is_err());
    let mut header = test_header();
    header.var_buf[0].buf_offset = -1;
    let frame = FrameData {
        header,
        var_headers: test_var_headers(),
        session_info: None,
        raw_data: vec![],
    };
    let bytes = frame.serialize().unwrap();
    assert!(playback_ops(&bytes).is_err());
}

#[test]
fn stop_clears_the_status_field() {
    let op = stop_op();
    assert_eq!(op.offset, 4);
    assert_eq!(op.bytes, 0i32.to_le_bytes().to_vec());
}

#[test]
fn stream_identifier_is_irac() {
    assert_eq!(&id(), b"irac");
}
