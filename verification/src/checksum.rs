//! The one-byte XOR checksum that closes every binary frame.

use vstd::prelude::*;

verus! {

/// XOR of all bytes of `bytes`; zero for the empty sequence.
pub open spec fn xor_fold(bytes: Seq<u8>) -> u8
    decreases bytes.len(),
{
    if bytes.len() == 0 {
        0u8
    } else {
        xor_fold(bytes.drop_last()) ^ bytes.last()
    }
}

/// A frame is intact when the XOR of all its bytes, checksum byte included,
/// is zero.
pub open spec fn checksum_ok(frame: Seq<u8>) -> bool {
    xor_fold(frame) == 0
}

/// `byte` with the bit at position `bit` inverted.
pub open spec fn flip_bit(byte: u8, bit: u8) -> u8 {
    byte ^ (1u8 << bit)
}

/// Tells whether the XOR over the whole frame is zero.
#[allow(non_snake_case)]
pub fn testChecksum(raw_frame: &Vec<u8>) -> (intact: bool)
    ensures
        intact == checksum_ok(raw_frame@),
{
    let mut checksum: u8 = 0;
    let mut i: usize = 0;
    while i < raw_frame.len()
        invariant
            i <= raw_frame.len(),
            checksum == xor_fold(raw_frame@.take(i as int)),
        decreases raw_frame.len() - i,
    {
        proof {
            assert(raw_frame@.take(i + 1).drop_last() =~= raw_frame@.take(i as int));
        }
        checksum = checksum ^ raw_frame[i];
        i += 1;
    }
    proof {
        assert(raw_frame@.take(i as int) =~= raw_frame@);
    }
    checksum == 0
}

/// Replacing one byte of a sequence changes its XOR by the XOR of the old
/// and the new byte.
pub proof fn lemma_xor_fold_update(bytes: Seq<u8>, index: int, value: u8)
    requires
        0 <= index < bytes.len(),
    ensures
        xor_fold(bytes.update(index, value)) == xor_fold(bytes) ^ bytes[index] ^ value,
    decreases bytes.len(),
{
    let changed = bytes.update(index, value);
    let rest = xor_fold(bytes.drop_last());
    if index == bytes.len() - 1 {
        assert(changed.drop_last() =~= bytes.drop_last());
        let old_byte = bytes[index];
        assert(rest ^ value == (rest ^ old_byte) ^ old_byte ^ value) by (bit_vector);
    } else {
        assert(changed.drop_last() =~= bytes.drop_last().update(index, value));
        lemma_xor_fold_update(bytes.drop_last(), index, value);
        let old_byte = bytes[index];
        let last = bytes.last();
        assert((rest ^ old_byte ^ value) ^ last == (rest ^ last) ^ old_byte ^ value)
            by (bit_vector);
    }
}

/// An intact frame in which one bit of one byte is inverted is no longer
/// intact, whichever byte and whichever bit it is.
pub proof fn lemma_bit_flip_detected(frame: Seq<u8>, index: int, bit: u8)
    requires
        checksum_ok(frame),
        0 <= index < frame.len(),
        bit < 8,
    ensures
        !checksum_ok(frame.update(index, flip_bit(frame[index], bit))),
{
    let byte = frame[index];
    lemma_xor_fold_update(frame, index, flip_bit(byte, bit));
    assert(0u8 ^ byte ^ (byte ^ (1u8 << bit)) != 0) by (bit_vector)
        requires
            bit < 8,
    ;
}

/// An intact frame whose checksum byte has one bit inverted fails the check.
pub proof fn lemma_corrupted_checksum_byte_detected(frame: Seq<u8>, bit: u8)
    requires
        frame.len() > 0,
        checksum_ok(frame),
        bit < 8,
    ensures
        !checksum_ok(frame.update(frame.len() - 1, flip_bit(frame.last(), bit))),
{
    lemma_bit_flip_detected(frame, frame.len() - 1, bit);
}

} // verus!
