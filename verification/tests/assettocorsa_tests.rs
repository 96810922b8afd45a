use ksana::sims::assettocorsa::{
    capture_frame, graphics_live, id, playback_pages, stop_op, FrameData, AC_OFF,
    GRAPHICS_PADDED_SIZE, PHYSICS_PADDED_SIZE, SHM_SIZE, STATIC_PADDED_SIZE,
};

#[test]
fn test_header_sizes() {
    assert_eq!(PHYSICS_PADDED_SIZE, 1024);
    assert_eq!(GRAPHICS_PADDED_SIZE, 2048);
    assert_eq!(STATIC_PADDED_SIZE, 2048);
}

#[test]
fn test_size_constraints() {
    assert!(SHM_SIZE >= PHYSICS_PADDED_SIZE);
    assert!(SHM_SIZE >= GRAPHICS_PADDED_SIZE);
    assert!(SHM_SIZE >= STATIC_PADDED_SIZE);
}

#[test]
fn test_default_frame_data_is_zero() {
    let frame = FrameData::default();

    // Graphics should be zero
    assert_eq!(frame.graphics.packet_id, 0);
    assert_eq!(frame.graphics.status, 0);
    assert!(frame.graphics.content.iter().all(|&b| b == 0));

    // Physics should be zero
    assert!(frame.physics.content.iter().all(|&b| b == 0));

    // Statics should be zero
    assert!(frame.statics.sm_version.iter().all(|&v| v == 0));
    assert!(frame.statics.ac_version.iter().all(|&v| v == 0));
    assert!(frame.statics.content.iter().all(|&b| b == 0));
}

#[test]
fn ac_test_serialize_frame_data() {
    let mut frame = FrameData::default();
    frame.graphics.status = 1;
    frame.graphics.packet_id = 123;

    // Copy graphics data string
    let graphics_data = b"Graphics telemetry data from AC";
    let copy_len = graphics_data.len();
    frame.graphics.content[..copy_len].copy_from_slice(&graphics_data[..copy_len]);

    // Copy physics data string
    let physics_data = b"Physics simulation data";
    let copy_len = physics_data.len();
    frame.physics.content[..copy_len].copy_from_slice(&physics_data[..copy_len]);

    // Set version values to match byte strings when interpreted as little-endian
    frame.statics.sm_version[0] = u16::from_le_bytes(*b"SM");
    frame.statics.sm_version[1] = u16::from_le_bytes(*b"v1");

    frame.statics.ac_version[0] = u16::from_le_bytes(*b"AC");
    frame.statics.ac_version[1] = u16::from_le_bytes(*b"v2");

    let statics_data = b"Car: Ferrari 488 GT3, Track: Fancy Test Track, Player: TestDriver";
    let copy_len = statics_data.len();
    frame.statics.content[..copy_len].copy_from_slice(&statics_data[..copy_len]);

    let serialized = frame.serialize();
    let deserialized = FrameData::deserialize(&serialized).unwrap();

    // Graphics
    assert_eq!(deserialized.graphics.packet_id, frame.graphics.packet_id);
    assert_eq!(deserialized.graphics.status, frame.graphics.status);
    assert_eq!(
        &deserialized.graphics.content[..graphics_data.len()],
        &frame.graphics.content[..graphics_data.len()]
    );

    // Physics
    assert_eq!(
        &deserialized.physics.content[..physics_data.len()],
        &frame.physics.content[..physics_data.len()]
    );

    // Statics - verify versions can be compared as byte strings
    assert_eq!(deserialized.statics.sm_version[0].to_le_bytes(), *b"SM");
    assert_eq!(deserialized.statics.sm_version[1].to_le_bytes(), *b"v1");
    assert_eq!(deserialized.statics.ac_version[0].to_le_bytes(), *b"AC");
    assert_eq!(deserialized.statics.ac_version[1].to_le_bytes(), *b"v2");
    assert_eq!(
        &deserialized.statics.content[..statics_data.len()],
        &frame.statics.content[..statics_data.len()]
    );
}

#[test]
fn serialized_frame_has_fixed_size_and_round_trips_exactly() {
    let mut frame = FrameData::default();
    frame.graphics.status = 2;
    frame.graphics.packet_id = -5;
    frame.graphics.content[2039] = 0x5a;
    frame.physics.content[1023] = 0x6b;
    frame.statics.sm_version[14] = 0xbeef;
    frame.statics.content[1987] = 0x7c;

    let serialized = frame.serialize();
    assert_eq!(serialized.len(), 5120);
    let back = FrameData::deserialize(&serialized).unwrap();
    assert_eq!(back.graphics.packet_id, frame.graphics.packet_id);
    assert_eq!(back.graphics.status, frame.graphics.status);
    assert_eq!(back.graphics.content, frame.graphics.content);
    assert_eq!(back.physics.content, frame.physics.content);
    assert_eq!(back.statics.sm_version, frame.statics.sm_version);
    assert_eq!(back.statics.ac_version, frame.statics.ac_version);
    assert_eq!(back.statics.content, frame.statics.content);
}

#[test]
fn deserialize_rejects_short_payloads() {
    let bytes = vec![0u8; 5119];
    assert!(FrameData::deserialize(&bytes).is_err());
    let bytes = vec![0u8; 5120];
    assert!(FrameData::deserialize(&bytes).is_ok());
}

#[test]
fn capture_skips_frames_while_simulator_off() {
    let graphics = vec![0u8; SHM_SIZE];
    let physics = vec![0u8; SHM_SIZE];
    let statics = vec![0u8; SHM_SIZE];
    assert!(!graphics_live(&graphics));
    assert!(capture_frame(&graphics, &physics, &statics).is_none());
}

#[test]
fn capture_reads_live_regions() {
    let mut graphics = vec![0u8; SHM_SIZE];
    graphics[0..4].copy_from_slice(&7i32.to_le_bytes()); // packet id
    graphics[4..8].copy_from_slice(&1i32.to_le_bytes()); // status: live
    graphics[100] = 0x42;
    let mut physics = vec![0u8; SHM_SIZE];
    physics[50] = 0x43;
    let mut statics = vec![0u8; SHM_SIZE];
    statics[60] = 0x44;

    assert!(graphics_live(&graphics));
    let payload = capture_frame(&graphics, &physics, &statics).unwrap();
    let frame = FrameData::deserialize(&payload).unwrap();
    assert_eq!(frame.graphics.packet_id, 7);
    assert_eq!(frame.graphics.status, 1);
    assert_ne!(frame.graphics.status, AC_OFF);
    assert_eq!(frame.graphics.content[92], 0x42); // content starts at byte 8
    assert_eq!(frame.physics.content[50], 0x43);
    assert_eq!(frame.statics.content[0], 0x44); // content starts at byte 60
}

#[test]
fn playback_pages_split_a_frame_per_region() {
    let mut frame = FrameData::default();
    frame.graphics.status = 1;
    frame.graphics.packet_id = 9;
    frame.physics.content[0] = 0x11;
    frame.statics.content[0] = 0x22;
    let payload = frame.serialize();

    let (g, p, s) = playback_pages(&payload).unwrap();
    assert_eq!(g.len(), GRAPHICS_PADDED_SIZE);
    assert_eq!(p.len(), PHYSICS_PADDED_SIZE);
    assert_eq!(s.len(), STATIC_PADDED_SIZE);
    assert_eq!(&g[0..4], &9i32.to_le_bytes());
    assert_eq!(&g[4..8], &1i32.to_le_bytes());
    assert_eq!(p[0], 0x11);
    assert_eq!(s[60], 0x22);
    assert!(playback_pages(&payload[..100]).is_err());
}

#[test]
fn stream_identifier_is_acsa() {
    assert_eq!(&id(), b"acsa");
}

#[test]
fn stop_marks_status_field_off() {
    let op = stop_op();
    assert_eq!(op.offset, 4);
    assert_eq!(op.bytes, AC_OFF.to_le_bytes().to_vec());
}
