//! The snapshot of the latest sensor readings, and the decoder that fills it
//! from binary frames.
//!
//! Accelerometer and gyroscope readings are kept as fixed-point numbers with
//! eight fractional bits: a stored value `v` stands for `v / 256` in the
//! unit of the sensor. A raw 16-bit count `raw` of the accelerometer, whose
//! full scale is 4 g, is stored as `4 * raw`, and one of the gyroscope,
//! whose full scale is 2000 degrees per second, as `2000 * raw`. Both are
//! exact, and dividing by [`SCALE_DIVISOR`] in floating point gives the
//! physical value.

use vstd::prelude::*;
use crate::wire::well_delimited;
use crate::wire::HEADER_LEN;
use crate::wire::LENGTH_OFFSET;
use crate::wire::TYPE_OFFSET;

verus! {

/// Frame type of a bare timestamp.
pub const TYPE_TIMESTAMP: u8 = 0;

/// Frame type of an accelerometer reading.
pub const TYPE_ACCEL: u8 = 1;

/// Frame type of a gyroscope reading.
pub const TYPE_GYRO: u8 = 2;

/// Frame type of a combined accelerometer and gyroscope reading.
pub const TYPE_MOTION: u8 = 3;

/// Frame type of a time-of-flight distance grid.
pub const TYPE_RANGING: u8 = 4;

/// Payload length of a timestamp frame.
pub const TIMESTAMP_LEN: u8 = 3;

/// Payload length of an accelerometer or a gyroscope frame.
pub const AXES_LEN: u8 = 9;

/// Payload length of a combined accelerometer and gyroscope frame.
pub const MOTION_LEN: u8 = 15;

/// Payload length of a distance grid of 8 by 8 cells.
pub const GRID_LEN: u8 = 192;

/// Payload length of a distance grid of 4 by 4 cells, which is not decoded.
pub const SMALL_GRID_LEN: u8 = 48;

/// Offset within the frame of the three axes of an accelerometer or a
/// gyroscope frame. The three payload bytes before them are not decoded.
pub const AXES_OFFSET: usize = 9;

/// Offset within the frame of the accelerometer axes of a combined frame.
pub const MOTION_ACCEL_OFFSET: usize = 6;

/// Offset within the frame of the gyroscope axes of a combined frame.
pub const MOTION_GYRO_OFFSET: usize = 12;

/// Number of cells of the distance grid.
pub const GRID_CELLS: usize = 64;

/// Bytes per cell of the distance grid: two of distance, one of confidence.
pub const CELL_LEN: usize = 3;

/// Full scale of the accelerometer, in g.
pub const ACCEL_FULL_SCALE: u32 = 4;

/// Full scale of the gyroscope, in degrees per second.
pub const GYRO_FULL_SCALE: u32 = 2000;

/// What a stored accelerometer or gyroscope value is divided by to give the
/// physical value.
pub const SCALE_DIVISOR: u32 = 256;

/// Smallest value of the greatest distance, so that dividing by it is safe.
pub const DISTANCE_FLOOR: u32 = 1;

/// What the decoder made of a frame.
#[derive(Clone, Copy, Debug, PartialEq, Eq)]
pub enum DecodeOutcome {
    /// A timestamp frame; the timestamp was stored.
    Timestamp,
    /// An accelerometer frame; the acceleration was stored.
    Acceleration,
    /// A gyroscope frame; the rotation rate was stored.
    Rotation,
    /// A combined frame; acceleration and rotation rate were stored.
    Motion,
    /// A grid of 8 by 8 cells; distances, confidences and the greatest
    /// distance were stored.
    Ranging,
    /// A grid of 4 by 4 cells; nothing was stored.
    UnsupportedGrid,
    /// The type is known but the length byte is not the one of that type;
    /// nothing was stored.
    LengthMismatch,
    /// The type is not known; nothing was stored.
    UnknownType,
    /// The frame ends before its header or its payload does; nothing was
    /// stored.
    Truncated,
}

/// The unsigned number of two bytes at `at`, low byte first.
pub open spec fn le16(bytes: Seq<u8>, at: int) -> int {
    bytes[at] as int + 256 * (bytes[at + 1] as int)
}

/// The unsigned number of three bytes at `at`, low byte first.
pub open spec fn le24(bytes: Seq<u8>, at: int) -> int {
    bytes[at] as int + 256 * (bytes[at + 1] as int) + 65536 * (bytes[at + 2] as int)
}

/// Three consecutive 16-bit counts at `at`, each multiplied by `full_scale`.
pub open spec fn scaled_axes(frame: Seq<u8>, at: int, full_scale: int) -> Seq<int> {
    Seq::new(3, |axis: int| full_scale * le16(frame, at + 2 * axis))
}

/// The distances of the 64 cells of a grid frame.
pub open spec fn grid_distances(frame: Seq<u8>) -> Seq<int> {
    Seq::new(GRID_CELLS as nat, |cell: int| le16(frame, HEADER_LEN + CELL_LEN * cell))
}

/// The confidences of the 64 cells of a grid frame.
pub open spec fn grid_confidences(frame: Seq<u8>) -> Seq<int> {
    Seq::new(GRID_CELLS as nat, |cell: int| frame[HEADER_LEN + CELL_LEN * cell + 2] as int)
}

/// The greatest of `distances`, and at least [`DISTANCE_FLOOR`].
pub open spec fn greatest_distance(distances: Seq<int>) -> int
    decreases distances.len(),
{
    if distances.len() == 0 {
        DISTANCE_FLOOR as int
    } else {
        let before = greatest_distance(distances.drop_last());
        if distances.last() > before {
            distances.last()
        } else {
            before
        }
    }
}

/// The payload length that goes with a known frame type.
pub open spec fn expected_length(frame_type: u8) -> u8
    recommends
        frame_type <= TYPE_RANGING,
{
    if frame_type == TYPE_TIMESTAMP {
        TIMESTAMP_LEN
    } else if frame_type == TYPE_ACCEL || frame_type == TYPE_GYRO {
        AXES_LEN
    } else if frame_type == TYPE_MOTION {
        MOTION_LEN
    } else {
        GRID_LEN
    }
}

/// What the decoder makes of `frame`: a function of the type byte, the
/// length byte and the number of bytes alone.
pub open spec fn classify(frame: Seq<u8>) -> DecodeOutcome {
    if frame.len() < HEADER_LEN {
        DecodeOutcome::Truncated
    } else {
        let frame_type = frame[TYPE_OFFSET as int];
        let length = frame[LENGTH_OFFSET as int];
        if frame_type > TYPE_RANGING {
            DecodeOutcome::UnknownType
        } else if frame_type == TYPE_RANGING && length == SMALL_GRID_LEN {
            DecodeOutcome::UnsupportedGrid
        } else if length != expected_length(frame_type) {
            DecodeOutcome::LengthMismatch
        } else if frame.len() < HEADER_LEN + length {
            DecodeOutcome::Truncated
        } else if frame_type == TYPE_TIMESTAMP {
            DecodeOutcome::Timestamp
        } else if frame_type == TYPE_ACCEL {
            DecodeOutcome::Acceleration
        } else if frame_type == TYPE_GYRO {
            DecodeOutcome::Rotation
        } else if frame_type == TYPE_MOTION {
            DecodeOutcome::Motion
        } else {
            DecodeOutcome::Ranging
        }
    }
}

/// What a [`TelemetrySnapshot`] stands for in contracts.
pub ghost struct SnapshotView {
    /// Timestamp of the inertial unit, 24 bits.
    pub imu_timestamp: int,
    /// Acceleration on three axes, in 1/256 g.
    pub accel: Seq<int>,
    /// Rotation rate about three axes, in 1/256 degrees per second.
    pub gyro: Seq<int>,
    /// Distance of each of the 64 cells, row by row.
    pub tof_distance: Seq<int>,
    /// Confidence of each of the 64 cells, row by row.
    pub tof_confidence: Seq<int>,
    /// Greatest distance of the grid, at least 1.
    pub tof_max_distance: int,
}

impl SnapshotView {
    /// The snapshot before any frame: all readings zero, the greatest
    /// distance at its floor.
    pub open spec fn initial() -> SnapshotView {
        SnapshotView {
            imu_timestamp: 0,
            accel: Seq::new(3, |axis: int| 0int),
            gyro: Seq::new(3, |axis: int| 0int),
            tof_distance: Seq::new(GRID_CELLS as nat, |cell: int| 0int),
            tof_confidence: Seq::new(GRID_CELLS as nat, |cell: int| 0int),
            tof_max_distance: DISTANCE_FLOOR as int,
        }
    }

    /// Every field has its size and its range, and the greatest distance is
    /// the greatest of the grid.
    pub open spec fn valid(self) -> bool {
        &&& 0 <= self.imu_timestamp < 0x100_0000
        &&& self.accel.len() == 3
        &&& forall|axis: int|
            0 <= axis < 3 ==> 0 <= #[trigger] self.accel[axis] <= ACCEL_FULL_SCALE * 0xFFFF
        &&& self.gyro.len() == 3
        &&& forall|axis: int|
            0 <= axis < 3 ==> 0 <= #[trigger] self.gyro[axis] <= GYRO_FULL_SCALE * 0xFFFF
        &&& self.tof_distance.len() == GRID_CELLS
        &&& forall|cell: int|
            0 <= cell < GRID_CELLS ==> 0 <= #[trigger] self.tof_distance[cell] <= 0xFFFF
        &&& self.tof_confidence.len() == GRID_CELLS
        &&& forall|cell: int|
            0 <= cell < GRID_CELLS ==> 0 <= #[trigger] self.tof_confidence[cell] <= 0xFF
        &&& self.tof_max_distance == greatest_distance(self.tof_distance)
    }
}

/// The snapshot after `frame` was decoded into `before`. Only the fields
/// that the frame's type carries change; a frame that is not decoded
/// changes nothing.
pub open spec fn decoded(before: SnapshotView, frame: Seq<u8>) -> SnapshotView {
    match classify(frame) {
        DecodeOutcome::Timestamp => SnapshotView {
            imu_timestamp: le24(frame, HEADER_LEN as int),
            ..before
        },
        DecodeOutcome::Acceleration => SnapshotView {
            accel: scaled_axes(frame, AXES_OFFSET as int, ACCEL_FULL_SCALE as int),
            ..before
        },
        DecodeOutcome::Rotation => SnapshotView {
            gyro: scaled_axes(frame, AXES_OFFSET as int, GYRO_FULL_SCALE as int),
            ..before
        },
        DecodeOutcome::Motion => SnapshotView {
            accel: scaled_axes(frame, MOTION_ACCEL_OFFSET as int, ACCEL_FULL_SCALE as int),
            gyro: scaled_axes(frame, MOTION_GYRO_OFFSET as int, GYRO_FULL_SCALE as int),
            ..before
        },
        DecodeOutcome::Ranging => SnapshotView {
            tof_distance: grid_distances(frame),
            tof_confidence: grid_confidences(frame),
            tof_max_distance: greatest_distance(grid_distances(frame)),
            ..before
        },
        _ => before,
    }
}

/// A frame that is as long as its length byte declares holds its header and
/// its payload: the decoder never finds it truncated.
pub proof fn lemma_delimited_frame_is_whole(frame: Seq<u8>)
    requires
        well_delimited(frame),
    ensures
        classify(frame) != DecodeOutcome::Truncated,
{
}

/// The greatest distance is at least the floor and at least every distance,
/// and it is the floor or one of the distances.
pub proof fn lemma_greatest_distance(distances: Seq<int>)
    ensures
        greatest_distance(distances) >= DISTANCE_FLOOR,
        forall|cell: int|
            0 <= cell < distances.len() ==> #[trigger] distances[cell] <= greatest_distance(
                distances,
            ),
        greatest_distance(distances) == DISTANCE_FLOOR || exists|cell: int|
            0 <= cell < distances.len() && #[trigger] distances[cell] == greatest_distance(
                distances,
            ),
    decreases distances.len(),
{
    if distances.len() > 0 {
        let shorter = distances.drop_last();
        lemma_greatest_distance(shorter);
        assert forall|cell: int| 0 <= cell < distances.len() implies #[trigger] distances[cell]
            <= greatest_distance(distances) by {
            if cell < shorter.len() {
                assert(shorter[cell] == distances[cell]);
            }
        }
        if greatest_distance(distances) != DISTANCE_FLOOR {
            if distances.last() > greatest_distance(shorter) {
                assert(distances[distances.len() - 1] == greatest_distance(distances));
            } else {
                let cell = choose|cell: int|
                    0 <= cell < shorter.len() && #[trigger] shorter[cell] == greatest_distance(
                        shorter,
                    );
                assert(distances[cell] == greatest_distance(distances));
            }
        }
    }
}

/// The numbers of `values` as integers.
pub open spec fn widened32(values: Seq<u32>) -> Seq<int> {
    values.map_values(|value: u32| value as int)
}

/// The numbers of `values` as integers.
pub open spec fn widened16(values: Seq<u16>) -> Seq<int> {
    values.map_values(|value: u16| value as int)
}

/// The numbers of `values` as integers.
pub open spec fn widened8(values: Seq<u8>) -> Seq<int> {
    values.map_values(|value: u8| value as int)
}

/// The latest reading of every sensor.
#[derive(Clone, Copy, Debug, PartialEq, Eq)]
pub struct TelemetrySnapshot {
    imu_timestamp: u32,
    accel: [u32; 3],
    gyro: [u32; 3],
    tof_distance: [u16; 64],
    tof_confidence: [u8; 64],
    tof_max_distance: u32,
}

impl View for TelemetrySnapshot {
    type V = SnapshotView;

    closed spec fn view(&self) -> SnapshotView {
        SnapshotView {
            imu_timestamp: self.imu_timestamp as int,
            accel: widened32(self.accel@),
            gyro: widened32(self.gyro@),
            tof_distance: widened16(self.tof_distance@),
            tof_confidence: widened8(self.tof_confidence@),
            tof_max_distance: self.tof_max_distance as int,
        }
    }
}

/// The 16-bit number at `at`, low byte first.
fn read_le16(frame: &[u8], at: usize) -> (value: u16)
    requires
        at + 1 < frame.len(),
    ensures
        value == le16(frame@, at as int),
{
    let low = frame[at];
    let high = frame[at + 1];
    assert((high as u16) << 8 == 256 * (high as u16)) by (bit_vector);
    (low as u16) + ((high as u16) << 8)
}

/// The 24-bit number at `at`, low byte first.
fn read_le24(frame: &[u8], at: usize) -> (value: u32)
    requires
        at + 2 < frame.len(),
    ensures
        value == le24(frame@, at as int),
{
    let low = frame[at];
    let middle = frame[at + 1];
    let high = frame[at + 2];
    assert((middle as u32) << 8 == 256 * (middle as u32)) by (bit_vector);
    assert((high as u32) << 16 == 65536 * (high as u32)) by (bit_vector);
    (low as u32) + ((middle as u32) << 8) + ((high as u32) << 16)
}

/// `full_scale` times `count`.
fn scaled(full_scale: u32, count: u16) -> (value: u32)
    requires
        full_scale <= GYRO_FULL_SCALE,
    ensures
        value == full_scale * count,
{
    assert(full_scale * count <= 2000 * 0xFFFF) by (nonlinear_arith)
        requires
            full_scale <= 2000,
            count <= 0xFFFF,
    ;
    full_scale * (count as u32)
}

/// Three consecutive 16-bit counts at `at`, each multiplied by `full_scale`.
fn read_scaled_axes(frame: &[u8], at: usize, full_scale: u32) -> (axes: [u32; 3])
    requires
        at + 5 < frame.len(),
        full_scale <= GYRO_FULL_SCALE,
    ensures
        widened32(axes@) == scaled_axes(frame@, at as int, full_scale as int),
{
    let axes = [
        scaled(full_scale, read_le16(frame, at)),
        scaled(full_scale, read_le16(frame, at + 2)),
        scaled(full_scale, read_le16(frame, at + 4)),
    ];
    proof {
        assert(widened32(axes@) =~= scaled_axes(frame@, at as int, full_scale as int));
    }
    axes
}

impl TelemetrySnapshot {
    /// Every field is in its range, and the greatest distance is the
    /// greatest of the grid.
    pub open spec fn wf(&self) -> bool {
        self@.valid()
    }

    /// The snapshot before any frame: all readings zero, the greatest
    /// distance 1.
    pub fn new() -> (snapshot: TelemetrySnapshot)
        ensures
            snapshot.wf(),
            snapshot@ == SnapshotView::initial(),
    {
        let snapshot = TelemetrySnapshot {
            imu_timestamp: 0,
            accel: [0u32;3],
            gyro: [0u32;3],
            tof_distance: [0u16;64],
            tof_confidence: [0u8;64],
            tof_max_distance: DISTANCE_FLOOR,
        };
        proof {
            assert(snapshot@.accel =~= SnapshotView::initial().accel);
            assert(snapshot@.gyro =~= SnapshotView::initial().gyro);
            assert(snapshot@.tof_distance =~= SnapshotView::initial().tof_distance);
            assert(snapshot@.tof_confidence =~= SnapshotView::initial().tof_confidence);
            lemma_greatest_of_zeros(SnapshotView::initial().tof_distance);
        }
        snapshot
    }

    /// Timestamp of the inertial unit, 24 bits.
    pub fn imu_timestamp(&self) -> (timestamp: u32)
        ensures
            timestamp == self@.imu_timestamp,
    {
        self.imu_timestamp
    }

    /// Acceleration on three axes, in 1/256 g.
    pub fn accel(&self) -> (accel: [u32; 3])
        ensures
            widened32(accel@) == self@.accel,
    {
        self.accel
    }

    /// Rotation rate about three axes, in 1/256 degrees per second.
    pub fn gyro(&self) -> (gyro: [u32; 3])
        ensures
            widened32(gyro@) == self@.gyro,
    {
        self.gyro
    }

    /// Distance of each of the 64 cells, row by row.
    pub fn tof_distance(&self) -> (distances: &[u16; 64])
        ensures
            widened16(distances@) == self@.tof_distance,
    {
        &self.tof_distance
    }

    /// Confidence of each of the 64 cells, row by row.
    pub fn tof_confidence(&self) -> (confidences: &[u8; 64])
        ensures
            widened8(confidences@) == self@.tof_confidence,
    {
        &self.tof_confidence
    }

    /// Greatest distance of the grid, at least 1.
    pub fn tof_max_distance(&self) -> (greatest: u32)
        ensures
            greatest == self@.tof_max_distance,
    {
        self.tof_max_distance
    }

    /// Stores the grid of a ranging frame and its greatest distance.
    fn store_grid(&mut self, frame: &[u8])
        requires
            frame.len() >= HEADER_LEN + GRID_LEN,
        ensures
            final(self)@ == (SnapshotView {
                tof_distance: grid_distances(frame@),
                tof_confidence: grid_confidences(frame@),
                tof_max_distance: greatest_distance(grid_distances(frame@)),
                ..old(self)@
            }),
    {
        self.tof_max_distance = DISTANCE_FLOOR;
        let mut cell: usize = 0;
        proof {
            assert(grid_distances(frame@).take(0) =~= Seq::<int>::empty());
        }
        while cell < GRID_CELLS
            invariant
                cell <= GRID_CELLS,
                frame.len() >= HEADER_LEN + GRID_LEN,
                self.imu_timestamp == old(self).imu_timestamp,
                self.accel == old(self).accel,
                self.gyro == old(self).gyro,
                forall|done: int|
                    0 <= done < cell ==> #[trigger] self.tof_distance@[done] as int
                        == grid_distances(frame@)[done],
                forall|done: int|
                    0 <= done < cell ==> #[trigger] self.tof_confidence@[done] as int
                        == grid_confidences(frame@)[done],
                self.tof_max_distance == greatest_distance(
                    grid_distances(frame@).take(cell as int),
                ),
            decreases GRID_CELLS - cell,
        {
            let at = HEADER_LEN + CELL_LEN * cell;
            let distance = read_le16(frame, at);
            self.tof_distance[cell] = distance;
            self.tof_confidence[cell] = frame[at + 2];
            proof {
                let upto = grid_distances(frame@).take(cell + 1);
                assert(upto.drop_last() =~= grid_distances(frame@).take(cell as int));
                assert(upto.last() == distance);
            }
            if distance as u32 > self.tof_max_distance {
                self.tof_max_distance = distance as u32;
            }
            cell += 1;
        }
        proof {
            assert(grid_distances(frame@).take(cell as int) =~= grid_distances(frame@));
            assert(self@.tof_distance =~= grid_distances(frame@));
            assert(self@.tof_confidence =~= grid_confidences(frame@));
        }
    }

    /// Decodes one frame into the snapshot and tells what was made of it.
    ///
    /// The frame's type byte selects the fields to fill, and its length
    /// byte must be the one that belongs to the type. Any other frame
    /// leaves the snapshot as it was. The checksum is not looked at.
    pub fn decode(&mut self, frame: &[u8]) -> (outcome: DecodeOutcome)
        requires
            old(self).wf(),
        ensures
            final(self).wf(),
            outcome == classify(frame@),
            final(self)@ == decoded(old(self)@, frame@),
    {
        if frame.len() < HEADER_LEN {
            return DecodeOutcome::Truncated;
        }
        let frame_type = frame[TYPE_OFFSET];
        let length = frame[LENGTH_OFFSET];
        if frame_type > TYPE_RANGING {
            return DecodeOutcome::UnknownType;
        }
        if frame_type == TYPE_RANGING && length == SMALL_GRID_LEN {
            return DecodeOutcome::UnsupportedGrid;
        }
        let expected = if frame_type == TYPE_TIMESTAMP {
            TIMESTAMP_LEN
        } else if frame_type == TYPE_ACCEL || frame_type == TYPE_GYRO {
            AXES_LEN
        } else if frame_type == TYPE_MOTION {
            MOTION_LEN
        } else {
            GRID_LEN
        };
        if length != expected {
            return DecodeOutcome::LengthMismatch;
        }
        if frame.len() < HEADER_LEN + length as usize {
            return DecodeOutcome::Truncated;
        }
        if frame_type == TYPE_TIMESTAMP {
            self.imu_timestamp = read_le24(frame, HEADER_LEN);
            DecodeOutcome::Timestamp
        } else if frame_type == TYPE_ACCEL {
            self.accel = read_scaled_axes(frame, AXES_OFFSET, ACCEL_FULL_SCALE);
            DecodeOutcome::Acceleration
        } else if frame_type == TYPE_GYRO {
            self.gyro = read_scaled_axes(frame, AXES_OFFSET, GYRO_FULL_SCALE);
            DecodeOutcome::Rotation
        } else if frame_type == TYPE_MOTION {
            self.accel = read_scaled_axes(frame, MOTION_ACCEL_OFFSET, ACCEL_FULL_SCALE);
            self.gyro = read_scaled_axes(frame, MOTION_GYRO_OFFSET, GYRO_FULL_SCALE);
            DecodeOutcome::Motion
        } else {
            self.store_grid(frame);
            proof {
                lemma_grid_in_range(frame@);
            }
            DecodeOutcome::Ranging
        }
    }
}

/// The greatest of distances that are all zero is the floor.
proof fn lemma_greatest_of_zeros(distances: Seq<int>)
    requires
        forall|cell: int| 0 <= cell < distances.len() ==> #[trigger] distances[cell] == 0,
    ensures
        greatest_distance(distances) == DISTANCE_FLOOR,
    decreases distances.len(),
{
    if distances.len() > 0 {
        lemma_greatest_of_zeros(distances.drop_last());
    }
}

/// The distances and confidences of a grid frame are in the range of their
/// fields.
proof fn lemma_grid_in_range(frame: Seq<u8>)
    requires
        frame.len() >= HEADER_LEN + GRID_LEN,
    ensures
        forall|cell: int|
            0 <= cell < GRID_CELLS ==> 0 <= #[trigger] grid_distances(frame)[cell] <= 0xFFFF,
        forall|cell: int|
            0 <= cell < GRID_CELLS ==> 0 <= #[trigger] grid_confidences(frame)[cell] <= 0xFF,
{
}

} // verus!
