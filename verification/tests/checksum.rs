use serial_visualizer::checksum::testChecksum;

fn frame(kind: u8, payload: &[u8]) -> Vec<u8> {
    let mut bytes = vec![0xFE, 0x11, 0x22, 0x33, payload.len() as u8, kind];
    bytes.extend_from_slice(payload);
    let mut checksum = 0u8;
    for byte in &bytes {
        checksum ^= *byte;
    }
    bytes.push(checksum);
    bytes
}

#[test]
fn intact_frame_passes() {
    assert!(testChecksum(&frame(0, &[1, 2, 3])));
    assert!(testChecksum(&vec![0xFE, 0xFE]));
    assert!(testChecksum(&vec![0x12, 0x34, 0x26]));
}

#[test]
fn empty_frame_has_zero_xor() {
    assert!(testChecksum(&Vec::new()));
}

#[test]
fn single_byte_passes_only_if_zero() {
    assert!(testChecksum(&vec![0]));
    assert!(!testChecksum(&vec![1]));
    assert!(!testChecksum(&vec![0xFE]));
}

#[test]
fn any_flipped_bit_of_the_checksum_byte_is_caught() {
    let good = frame(1, &[9, 8, 7, 6, 5, 4, 3, 2, 1]);
    assert!(testChecksum(&good));
    for bit in 0..8 {
        let mut bad = good.clone();
        let last = bad.len() - 1;
        bad[last] ^= 1 << bit;
        assert!(!testChecksum(&bad), "bit {}", bit);
    }
}

#[test]
fn any_flipped_bit_of_any_byte_is_caught() {
    let good = frame(0, &[0xAA, 0x55, 0x0F]);
    for index in 0..good.len() {
        for bit in 0..8 {
            let mut bad = good.clone();
            bad[index] ^= 1 << bit;
            assert!(!testChecksum(&bad), "byte {} bit {}", index, bit);
        }
    }
}

#[test]
fn two_equal_flips_cancel() {
    let mut bytes = frame(2, &[1, 1, 1, 1, 1, 1, 1, 1, 1]);
    bytes[6] ^= 0x10;
    bytes[7] ^= 0x10;
    assert!(testChecksum(&bytes));
}
