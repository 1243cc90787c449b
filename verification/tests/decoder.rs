use serial_visualizer::telemetry::DecodeOutcome;
use serial_visualizer::telemetry::TelemetrySnapshot;
use serial_visualizer::telemetry::ACCEL_FULL_SCALE;
use serial_visualizer::telemetry::GYRO_FULL_SCALE;
use serial_visualizer::telemetry::SCALE_DIVISOR;

fn framed(kind: u8, payload: &[u8]) -> Vec<u8> {
    let mut bytes = vec![0xFE, 0x00, 0x00, 0x00, payload.len() as u8, kind];
    bytes.extend_from_slice(payload);
    let mut checksum = 0u8;
    for byte in &bytes {
        checksum ^= *byte;
    }
    bytes.push(checksum);
    bytes
}

fn physical(stored: [u32; 3]) -> [f32; 3] {
    [
        stored[0] as f32 / SCALE_DIVISOR as f32,
        stored[1] as f32 / SCALE_DIVISOR as f32,
        stored[2] as f32 / SCALE_DIVISOR as f32,
    ]
}

fn busy_snapshot() -> TelemetrySnapshot {
    let mut snapshot = TelemetrySnapshot::new();
    snapshot.decode(&framed(0, &[0x10, 0x20, 0x30]));
    snapshot.decode(&framed(3, &[1, 0, 2, 0, 3, 0, 4, 0, 5, 0, 6, 0, 9, 9, 9]));
    let mut grid = Vec::new();
    for cell in 0..64u16 {
        grid.push((cell * 10) as u8);
        grid.push((cell / 8) as u8);
        grid.push(cell as u8);
    }
    snapshot.decode(&framed(4, &grid));
    snapshot
}

#[test]
fn new_snapshot_is_all_zero_with_distance_floor() {
    let snapshot = TelemetrySnapshot::new();
    assert_eq!(snapshot.imu_timestamp(), 0);
    assert_eq!(snapshot.accel(), [0, 0, 0]);
    assert_eq!(snapshot.gyro(), [0, 0, 0]);
    assert_eq!(snapshot.tof_distance(), &[0u16; 64]);
    assert_eq!(snapshot.tof_confidence(), &[0u8; 64]);
    assert_eq!(snapshot.tof_max_distance(), 1);
}

#[test]
fn scale_constants() {
    assert_eq!(ACCEL_FULL_SCALE, 4);
    assert_eq!(GYRO_FULL_SCALE, 2000);
    assert_eq!(SCALE_DIVISOR, 256);
}

#[test]
fn timestamp_is_little_endian() {
    let mut snapshot = TelemetrySnapshot::new();
    let outcome = snapshot.decode(&framed(0, &[0x01, 0x02, 0x03]));
    assert_eq!(outcome, DecodeOutcome::Timestamp);
    assert_eq!(snapshot.imu_timestamp(), 0x030201);
    assert_eq!(snapshot.accel(), [0, 0, 0]);
    assert_eq!(snapshot.tof_max_distance(), 1);
}

#[test]
fn timestamp_uses_all_24_bits() {
    let mut snapshot = TelemetrySnapshot::new();
    snapshot.decode(&framed(0, &[0xFF, 0xFF, 0xFF]));
    assert_eq!(snapshot.imu_timestamp(), 0xFF_FFFF);
}

#[test]
fn accelerometer_axes_are_scaled_to_four_g() {
    let mut snapshot = TelemetrySnapshot::new();
    let outcome = snapshot.decode(&framed(1, &[0xAA, 0xBB, 0xCC, 0, 0, 128, 0, 0, 1]));
    assert_eq!(outcome, DecodeOutcome::Acceleration);
    assert_eq!(snapshot.accel(), [0, 512, 1024]);
    assert_eq!(physical(snapshot.accel()), [0.0, 2.0, 4.0]);
    assert_eq!(snapshot.gyro(), [0, 0, 0]);
    assert_eq!(snapshot.imu_timestamp(), 0);
}

#[test]
fn accelerometer_value_of_1024_counts_is_sixteen_g() {
    let mut snapshot = TelemetrySnapshot::new();
    snapshot.decode(&framed(1, &[0, 0, 0, 0, 4, 0, 0, 0, 0]));
    assert_eq!(physical(snapshot.accel()), [16.0, 0.0, 0.0]);
}

#[test]
fn accelerometer_full_count_is_taken_unsigned() {
    let mut snapshot = TelemetrySnapshot::new();
    snapshot.decode(&framed(1, &[0, 0, 0, 0xFF, 0xFF, 0x00, 0x80, 0x01, 0x00]));
    assert_eq!(snapshot.accel(), [4 * 65535, 4 * 32768, 4]);
    let expected = [4.0f32 * 65535.0 / 256.0, 4.0 * 32768.0 / 256.0, 4.0 * 1.0 / 256.0];
    assert_eq!(physical(snapshot.accel()), expected);
}

#[test]
fn gyroscope_axes_are_scaled_to_2000_dps() {
    let mut snapshot = TelemetrySnapshot::new();
    let outcome = snapshot.decode(&framed(2, &[1, 2, 3, 0, 0, 128, 0, 0, 1]));
    assert_eq!(outcome, DecodeOutcome::Rotation);
    assert_eq!(snapshot.gyro(), [0, 256000, 512000]);
    assert_eq!(physical(snapshot.gyro()), [0.0, 1000.0, 2000.0]);
    assert_eq!(snapshot.accel(), [0, 0, 0]);
}

#[test]
fn gyroscope_scaling_agrees_with_floating_point() {
    let mut snapshot = TelemetrySnapshot::new();
    snapshot.decode(&framed(2, &[0, 0, 0, 0xFF, 0xFF, 0x39, 0x30, 0x07, 0x00]));
    let expected = [
        2000.0f32 * 65535.0 / 256.0,
        2000.0 * 12345.0 / 256.0,
        2000.0 * 7.0 / 256.0,
    ];
    assert_eq!(physical(snapshot.gyro()), expected);
}

#[test]
fn combined_frame_fills_both() {
    let mut snapshot = TelemetrySnapshot::new();
    let payload = [64, 0, 128, 0, 0, 1, 1, 0, 2, 0, 0, 2, 0xEE, 0xEE, 0xEE];
    let outcome = snapshot.decode(&framed(3, &payload));
    assert_eq!(outcome, DecodeOutcome::Motion);
    assert_eq!(snapshot.accel(), [256, 512, 1024]);
    assert_eq!(physical(snapshot.accel()), [1.0, 2.0, 4.0]);
    assert_eq!(snapshot.gyro(), [2000, 4000, 1024000]);
    assert_eq!(physical(snapshot.gyro()), [7.8125, 15.625, 4000.0]);
}

#[test]
fn grid_of_zeros_keeps_the_distance_floor() {
    let mut snapshot = busy_snapshot();
    assert!(snapshot.tof_max_distance() > 1);
    let outcome = snapshot.decode(&framed(4, &[0u8; 192]));
    assert_eq!(outcome, DecodeOutcome::Ranging);
    assert_eq!(snapshot.tof_max_distance(), 1);
    assert_eq!(snapshot.tof_distance(), &[0u16; 64]);
    assert_eq!(snapshot.tof_confidence(), &[0u8; 64]);
}

#[test]
fn grid_cells_and_greatest_distance() {
    let mut payload = Vec::new();
    for cell in 0..64u16 {
        let distance = if cell == 20 { 4000 } else { 100 + cell };
        payload.push((distance & 0xFF) as u8);
        payload.push((distance >> 8) as u8);
        payload.push((200 - cell) as u8);
    }
    let mut snapshot = TelemetrySnapshot::new();
    assert_eq!(snapshot.decode(&framed(4, &payload)), DecodeOutcome::Ranging);
    for cell in 0..64usize {
        let distance = if cell == 20 { 4000 } else { 100 + cell as u16 };
        assert_eq!(snapshot.tof_distance()[cell], distance);
        assert_eq!(snapshot.tof_confidence()[cell], (200 - cell) as u8);
    }
    assert_eq!(snapshot.tof_max_distance(), 4000);
}

#[test]
fn greatest_distance_is_reset_by_each_grid() {
    let mut far = vec![0u8; 192];
    far[3 * 63] = 0xFF;
    far[3 * 63 + 1] = 0xFF;
    let mut near = vec![0u8; 192];
    near[0] = 5;
    let mut snapshot = TelemetrySnapshot::new();
    snapshot.decode(&framed(4, &far));
    assert_eq!(snapshot.tof_max_distance(), 65535);
    snapshot.decode(&framed(4, &near));
    assert_eq!(snapshot.tof_max_distance(), 5);
    assert_eq!(snapshot.tof_distance()[63], 0);
}

#[test]
fn grid_with_only_distance_one_has_greatest_one() {
    let mut payload = vec![0u8; 192];
    payload[30] = 1;
    let mut snapshot = TelemetrySnapshot::new();
    snapshot.decode(&framed(4, &payload));
    assert_eq!(snapshot.tof_max_distance(), 1);
    assert_eq!(snapshot.tof_distance()[10], 1);
}

#[test]
fn small_grid_is_not_decoded() {
    let mut snapshot = busy_snapshot();
    let before = snapshot;
    let outcome = snapshot.decode(&framed(4, &[0x55u8; 48]));
    assert_eq!(outcome, DecodeOutcome::UnsupportedGrid);
    assert_eq!(snapshot, before);
}

#[test]
fn wrong_length_for_the_type_is_ignored() {
    let mut snapshot = busy_snapshot();
    let before = snapshot;
    assert_eq!(snapshot.decode(&framed(0, &[1, 2, 3, 4])), DecodeOutcome::LengthMismatch);
    assert_eq!(snapshot.decode(&framed(0, &[1, 2])), DecodeOutcome::LengthMismatch);
    assert_eq!(snapshot.decode(&framed(1, &[0u8; 15])), DecodeOutcome::LengthMismatch);
    assert_eq!(snapshot.decode(&framed(2, &[0u8; 3])), DecodeOutcome::LengthMismatch);
    assert_eq!(snapshot.decode(&framed(3, &[0u8; 9])), DecodeOutcome::LengthMismatch);
    assert_eq!(snapshot.decode(&framed(4, &[0u8; 191])), DecodeOutcome::LengthMismatch);
    assert_eq!(snapshot.decode(&framed(4, &[0u8; 0])), DecodeOutcome::LengthMismatch);
    assert_eq!(snapshot, before);
}

#[test]
fn unknown_type_is_ignored() {
    let mut snapshot = busy_snapshot();
    let before = snapshot;
    assert_eq!(snapshot.decode(&framed(5, &[1, 2, 3])), DecodeOutcome::UnknownType);
    assert_eq!(snapshot.decode(&framed(0xFF, &[0u8; 9])), DecodeOutcome::UnknownType);
    assert_eq!(snapshot, before);
}

#[test]
fn frame_without_its_header_or_payload_is_ignored() {
    let mut snapshot = busy_snapshot();
    let before = snapshot;
    assert_eq!(snapshot.decode(&[]), DecodeOutcome::Truncated);
    assert_eq!(snapshot.decode(&[0xFE, 0, 0, 0, 3]), DecodeOutcome::Truncated);
    assert_eq!(snapshot.decode(&[0xFE, 0, 0, 0, 3, 0]), DecodeOutcome::Truncated);
    assert_eq!(snapshot.decode(&[0xFE, 0, 0, 0, 3, 0, 1, 2]), DecodeOutcome::Truncated);
    assert_eq!(snapshot.decode(&[0xFE, 0, 0, 0, 192, 4, 1, 2]), DecodeOutcome::Truncated);
    assert_eq!(snapshot, before);
}

#[test]
fn payload_alone_is_enough_for_the_decoder() {
    let mut snapshot = TelemetrySnapshot::new();
    assert_eq!(snapshot.decode(&[0xFE, 0, 0, 0, 3, 0, 1, 2, 3]), DecodeOutcome::Timestamp);
    assert_eq!(snapshot.imu_timestamp(), 0x030201);
}

#[test]
fn decoder_does_not_look_at_the_checksum() {
    let mut frame = framed(0, &[9, 9, 9]);
    let last = frame.len() - 1;
    frame[last] ^= 0xFF;
    let mut snapshot = TelemetrySnapshot::new();
    assert_eq!(snapshot.decode(&frame), DecodeOutcome::Timestamp);
    assert_eq!(snapshot.imu_timestamp(), 0x090909);
}
