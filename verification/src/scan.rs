//! The scanner as a mathematical object: a machine that reads the stream one
//! byte at a time.
//!
//! Outside a frame the machine collects bytes until a line end or a start
//! marker arrives. Inside a frame it counts bytes, takes the payload length
//! from the byte at offset 4, and closes the frame at a distance of
//! `length + FRAME_OVERHEAD` from the marker. In both cases the byte just
//! before the closing position is not part of the message.
//!
//! Because the machine sees single bytes, what it emits cannot depend on how
//! the stream was cut into chunks. The laws in this file say so.

use vstd::prelude::*;
use vstd::utf8::decode_utf8;
use vstd::utf8::valid_utf8;
use crate::message::MessageView;
use crate::wire::is_delimiter;
use crate::wire::is_line_end;
use crate::wire::well_delimited;
use crate::wire::FRAME_MARKER;
use crate::wire::FRAME_OVERHEAD;
use crate::wire::LENGTH_OFFSET;

verus! {

/// State of the scanner between two bytes.
pub ghost struct ScanState {
    /// The bytes read since the current segment began and not yet handed out.
    pub pending: Seq<u8>,
    /// Whether the current segment is a binary frame.
    pub in_frame: bool,
}

/// One step of the scanner: the state after a byte, and the message that the
/// byte completed, if any.
pub ghost struct Step {
    pub state: ScanState,
    pub emitted: Option<MessageView>,
}

/// Result of scanning several bytes: the state reached and the messages
/// completed on the way, oldest first.
pub ghost struct Scan {
    pub state: ScanState,
    pub messages: Seq<MessageView>,
}

impl ScanState {
    /// The state before the first byte, and after a line end.
    pub open spec fn idle() -> ScanState {
        ScanState { pending: Seq::empty(), in_frame: false }
    }

    /// The state right after a start marker.
    pub open spec fn frame_opened() -> ScanState {
        ScanState { pending: seq![FRAME_MARKER], in_frame: true }
    }

    /// The payload length of the frame in progress: the byte at offset 4,
    /// or 0 as long as that byte has not arrived.
    pub open spec fn declared_length(self) -> int {
        if self.in_frame && self.pending.len() > LENGTH_OFFSET {
            self.pending[LENGTH_OFFSET as int] as int
        } else {
            0
        }
    }

    /// Whether the next byte stands at the closing position of the frame in
    /// progress.
    pub open spec fn frame_complete(self) -> bool {
        &&& self.in_frame
        &&& self.pending.len() > LENGTH_OFFSET
        &&& self.pending.len() >= self.declared_length() + FRAME_OVERHEAD
    }

    /// What holds of every state that the scanner can reach: a frame in
    /// progress starts with the marker and has not run past its closing
    /// position.
    pub open spec fn reachable(self) -> bool {
        self.in_frame ==> {
            &&& self.pending.len() >= 1
            &&& self.pending[0] == FRAME_MARKER
            &&& self.pending.len() <= self.declared_length() + FRAME_OVERHEAD
        }
    }
}

/// The text line that a line end completes: the pending bytes without the
/// last one, if more than one byte is pending and they are well-formed
/// UTF-8. A start marker completes no line.
pub open spec fn completed_line(pending: Seq<u8>, byte: u8) -> Option<MessageView> {
    if is_line_end(byte) && pending.len() > 1 && valid_utf8(pending.drop_last()) {
        Some(MessageView::TextLine(decode_utf8(pending.drop_last())))
    } else {
        None
    }
}

/// The scanner's reaction to one byte.
pub open spec fn step(state: ScanState, byte: u8) -> Step {
    if state.in_frame {
        if state.frame_complete() {
            Step {
                state: ScanState { pending: seq![byte], in_frame: false },
                emitted: Some(MessageView::RawFrame(state.pending.drop_last())),
            }
        } else {
            Step {
                state: ScanState { pending: state.pending.push(byte), in_frame: true },
                emitted: None,
            }
        }
    } else if is_delimiter(byte) {
        Step {
            state: if byte == FRAME_MARKER {
                ScanState::frame_opened()
            } else {
                ScanState::idle()
            },
            emitted: completed_line(state.pending, byte),
        }
    } else {
        Step {
            state: ScanState { pending: state.pending.push(byte), in_frame: false },
            emitted: None,
        }
    }
}

/// `messages` followed by `emitted`, if there is one.
pub open spec fn with_emitted(
    messages: Seq<MessageView>,
    emitted: Option<MessageView>,
) -> Seq<MessageView> {
    match emitted {
        Some(message) => messages.push(message),
        None => messages,
    }
}

/// The scanner's reaction to a sequence of bytes, read from left to right.
pub open spec fn scan(state: ScanState, bytes: Seq<u8>) -> Scan
    decreases bytes.len(),
{
    if bytes.len() == 0 {
        Scan { state, messages: Seq::empty() }
    } else {
        let before = scan(state, bytes.drop_last());
        let last = step(before.state, bytes.last());
        Scan { state: last.state, messages: with_emitted(before.messages, last.emitted) }
    }
}

/// Scanning `first` and then, from the state reached, `second`.
pub open spec fn scan_then(state: ScanState, first: Seq<u8>, second: Seq<u8>) -> Scan {
    let head = scan(state, first);
    let tail = scan(head.state, second);
    Scan { state: tail.state, messages: head.messages + tail.messages }
}

/// All the bytes of `chunks`, in order.
pub open spec fn stream_of(chunks: Seq<Seq<u8>>) -> Seq<u8>
    decreases chunks.len(),
{
    if chunks.len() == 0 {
        Seq::empty()
    } else {
        stream_of(chunks.drop_last()) + chunks.last()
    }
}

/// Scanning the chunks one after the other, each from the state that the
/// one before it left.
pub open spec fn scan_chunks(state: ScanState, chunks: Seq<Seq<u8>>) -> Scan
    decreases chunks.len(),
{
    if chunks.len() == 0 {
        Scan { state, messages: Seq::empty() }
    } else {
        let before = scan_chunks(state, chunks.drop_last());
        let last = scan(before.state, chunks.last());
        Scan { state: last.state, messages: before.messages + last.messages }
    }
}

/// Scanning one more byte is one step from where the scan of the bytes
/// before it ended.
pub proof fn lemma_scan_push(state: ScanState, bytes: Seq<u8>, byte: u8)
    ensures
        scan(state, bytes.push(byte)).state == step(scan(state, bytes).state, byte).state,
        scan(state, bytes.push(byte)).messages == with_emitted(
            scan(state, bytes).messages,
            step(scan(state, bytes).state, byte).emitted,
        ),
{
    assert(bytes.push(byte).drop_last() =~= bytes);
}

/// Cutting a stream in two does not change what the scanner makes of it.
pub proof fn lemma_scan_split(state: ScanState, first: Seq<u8>, second: Seq<u8>)
    ensures
        scan(state, first + second) == scan_then(state, first, second),
    decreases second.len(),
{
    if second.len() == 0 {
        assert(first + second =~= first);
        assert(scan(state, first).messages + Seq::<MessageView>::empty() =~= scan(
            state,
            first,
        ).messages);
    } else {
        let whole = first + second;
        assert(whole.drop_last() =~= first + second.drop_last());
        assert(whole.last() == second.last());
        lemma_scan_split(state, first, second.drop_last());
        let head = scan(state, first);
        let tail_before = scan(head.state, second.drop_last());
        let last = step(tail_before.state, second.last());
        match last.emitted {
            Some(message) => {
                assert((head.messages + tail_before.messages).push(message) =~= head.messages
                    + tail_before.messages.push(message));
            },
            None => {},
        }
    }
}

/// Chunk invariance: feeding a stream chunk by chunk gives the messages, and
/// leaves the state, that feeding it in one piece gives, however the stream
/// is cut, empty chunks and chunks of one byte included.
pub proof fn lemma_chunking_is_invisible(state: ScanState, chunks: Seq<Seq<u8>>)
    ensures
        scan_chunks(state, chunks) == scan(state, stream_of(chunks)),
    decreases chunks.len(),
{
    if chunks.len() > 0 {
        lemma_chunking_is_invisible(state, chunks.drop_last());
        lemma_scan_split(state, stream_of(chunks.drop_last()), chunks.last());
    }
}

/// Two ways of cutting the same stream give the same messages and the same
/// state.
pub proof fn lemma_chunkings_agree(state: ScanState, one: Seq<Seq<u8>>, other: Seq<Seq<u8>>)
    requires
        stream_of(one) == stream_of(other),
    ensures
        scan_chunks(state, one) == scan_chunks(state, other),
{
    lemma_chunking_is_invisible(state, one);
    lemma_chunking_is_invisible(state, other);
}

/// Every state that the scanner reaches from a reachable state is reachable.
pub proof fn lemma_step_keeps_reachable(state: ScanState, byte: u8)
    requires
        state.reachable(),
    ensures
        step(state, byte).state.reachable(),
{
}

/// A frame that the scanner hands out from a reachable state starts with
/// the marker and has the length that its length byte declares.
pub proof fn lemma_step_emits_delimited_frames(state: ScanState, byte: u8)
    requires
        state.reachable(),
    ensures
        step(state, byte).emitted matches Some(MessageView::RawFrame(frame)) ==> well_delimited(
            frame,
        ),
{
}

/// Scanning from a reachable state ends in a reachable state, and every
/// frame handed out on the way starts with the marker and has the length
/// that its length byte declares.
pub proof fn lemma_scan_keeps_reachable(state: ScanState, bytes: Seq<u8>)
    requires
        state.reachable(),
    ensures
        scan(state, bytes).state.reachable(),
        forall|i: int|
            0 <= i < scan(state, bytes).messages.len() ==> (#[trigger] scan(
                state,
                bytes,
            ).messages[i] matches MessageView::RawFrame(frame) ==> well_delimited(frame)),
    decreases bytes.len(),
{
    if bytes.len() > 0 {
        lemma_scan_keeps_reachable(state, bytes.drop_last());
        let before = scan(state, bytes.drop_last());
        lemma_step_keeps_reachable(before.state, bytes.last());
        lemma_step_emits_delimited_frames(before.state, bytes.last());
    }
}

/// A delimiter that arrives when at most one byte is pending completes no
/// message: empty segments, and segments of a single byte, are discarded.
pub proof fn lemma_empty_segment_is_silent(state: ScanState, byte: u8)
    requires
        !state.in_frame,
        state.pending.len() <= 1,
        is_delimiter(byte),
    ensures
        step(state, byte).emitted is None,
{
}

/// A delimiter right after a line end, or with a single byte between the
/// two, completes no message.
pub proof fn lemma_adjacent_delimiters_are_silent(
    state: ScanState,
    end: u8,
    between: Seq<u8>,
    delimiter: u8,
)
    requires
        !state.in_frame,
        is_line_end(end),
        between.len() <= 1,
        forall|i: int| 0 <= i < between.len() ==> !is_delimiter(#[trigger] between[i]),
        is_delimiter(delimiter),
    ensures
        scan(state, seq![end] + between.push(delimiter)).messages == with_emitted(
            Seq::empty(),
            completed_line(state.pending, end),
        ),
{
    let first = seq![end];
    assert(first.drop_last() =~= Seq::<u8>::empty());
    assert(scan(state, first.drop_last()).state == state);
    assert(scan(state, first).state == ScanState::idle());
    lemma_content_is_collected(ScanState::idle(), between);
    lemma_scan_push(ScanState::idle(), between, delimiter);
    let collected = scan(ScanState::idle(), between).state;
    assert(collected.pending =~= between);
    lemma_empty_segment_is_silent(collected, delimiter);
    lemma_scan_split(state, first, between.push(delimiter));
    assert(scan(state, first).messages + Seq::<MessageView>::empty() =~= scan(
        state,
        first,
    ).messages);
}

/// Outside a frame, bytes that are no delimiters are collected and complete
/// nothing.
pub proof fn lemma_content_is_collected(state: ScanState, content: Seq<u8>)
    requires
        !state.in_frame,
        forall|i: int| 0 <= i < content.len() ==> !is_delimiter(#[trigger] content[i]),
    ensures
        scan(state, content) == (Scan {
            state: ScanState { pending: state.pending + content, in_frame: false },
            messages: Seq::empty(),
        }),
    decreases content.len(),
{
    if content.len() == 0 {
        assert(state.pending + content =~= state.pending);
    } else {
        lemma_content_is_collected(state, content.drop_last());
        assert((state.pending + content.drop_last()).push(content.last()) =~= state.pending
            + content);
    }
}

/// A line is recovered whole: after its content and its line end the
/// scanner is idle again, and it has handed out the line exactly if the
/// content, with what was pending before it, is longer than one byte and is
/// text without its last byte.
pub proof fn lemma_line_is_recovered(state: ScanState, content: Seq<u8>, end: u8)
    requires
        !state.in_frame,
        forall|i: int| 0 <= i < content.len() ==> !is_delimiter(#[trigger] content[i]),
        is_line_end(end),
    ensures
        scan(state, content.push(end)) == (Scan {
            state: ScanState::idle(),
            messages: with_emitted(Seq::empty(), completed_line(state.pending + content, end)),
        }),
{
    lemma_content_is_collected(state, content);
    lemma_scan_push(state, content, end);
}

/// A line that is dropped because it is no text leaves no trace: what
/// follows it is scanned as if the stream began there.
pub proof fn lemma_dropped_line_leaves_no_trace(
    state: ScanState,
    content: Seq<u8>,
    end: u8,
    rest: Seq<u8>,
)
    requires
        !state.in_frame,
        forall|i: int| 0 <= i < content.len() ==> !is_delimiter(#[trigger] content[i]),
        is_line_end(end),
        !valid_utf8((state.pending + content).drop_last()),
    ensures
        scan(state, content.push(end) + rest) == scan(ScanState::idle(), rest),
{
    lemma_line_is_recovered(state, content, end);
    lemma_scan_split(state, content.push(end), rest);
    assert(Seq::<MessageView>::empty() + scan(ScanState::idle(), rest).messages =~= scan(
        ScanState::idle(),
        rest,
    ).messages);
}

/// Inside a frame, bytes before the closing position are collected and
/// complete nothing, whatever they are.
pub proof fn lemma_frame_bytes_are_collected(state: ScanState, bytes: Seq<u8>)
    requires
        state.in_frame,
        ({
            let all = state.pending + bytes;
            all.len() <= LENGTH_OFFSET || all.len() <= all[LENGTH_OFFSET as int] as int
                + FRAME_OVERHEAD
        }),
    ensures
        scan(state, bytes) == (Scan {
            state: ScanState { pending: state.pending + bytes, in_frame: true },
            messages: Seq::empty(),
        }),
    decreases bytes.len(),
{
    if bytes.len() == 0 {
        assert(state.pending + bytes =~= state.pending);
    } else {
        let all = state.pending + bytes;
        let shorter = state.pending + bytes.drop_last();
        assert(shorter =~= all.drop_last());
        if shorter.len() > LENGTH_OFFSET {
            assert(shorter[LENGTH_OFFSET as int] == all[LENGTH_OFFSET as int]);
        }
        lemma_frame_bytes_are_collected(state, bytes.drop_last());
        assert(shorter.push(bytes.last()) =~= all);
    }
}

/// A frame is recovered whole: from outside a frame, the bytes of a frame
/// followed by two further bytes make the scanner hand out exactly that
/// frame, whatever its payload holds. The first of the two bytes is
/// discarded, the second begins the next segment. Text that was pending
/// when the marker arrived is discarded.
pub proof fn lemma_frame_is_recovered(state: ScanState, frame: Seq<u8>, trailer: u8, next: u8)
    requires
        !state.in_frame,
        well_delimited(frame),
    ensures
        scan(state, frame + seq![trailer, next]) == (Scan {
            state: ScanState { pending: seq![next], in_frame: false },
            messages: seq![MessageView::RawFrame(frame)],
        }),
{
    let marker = seq![FRAME_MARKER];
    let body = frame.subrange(1, frame.len() as int).push(trailer);
    assert(marker.drop_last() =~= Seq::<u8>::empty());
    assert(scan(state, marker.drop_last()).state == state);
    assert(scan(state, marker) == (Scan {
        state: ScanState::frame_opened(),
        messages: Seq::empty(),
    }));
    let filled = ScanState::frame_opened().pending + body;
    assert(filled =~= frame.push(trailer));
    lemma_frame_bytes_are_collected(ScanState::frame_opened(), body);
    lemma_scan_push(ScanState::frame_opened(), body, next);
    assert(filled.drop_last() =~= frame);
    assert(Seq::<MessageView>::empty().push(MessageView::RawFrame(frame)) =~= seq![
        MessageView::RawFrame(frame),
    ]);
    lemma_scan_split(state, marker, body.push(next));
    assert(marker + body.push(next) =~= frame + seq![trailer, next]);
    assert(Seq::<MessageView>::empty() + seq![MessageView::RawFrame(frame)] =~= seq![
        MessageView::RawFrame(frame),
    ]);
}

/// A frame is recovered whole wherever the stream is cut: the bytes of a
/// frame and the two bytes after it, fed in two pieces, give that frame and
/// nothing else, also when the cut falls between the marker and the length
/// byte.
pub proof fn lemma_frame_is_recovered_across_a_cut(
    state: ScanState,
    frame: Seq<u8>,
    trailer: u8,
    next: u8,
    cut: int,
)
    requires
        !state.in_frame,
        well_delimited(frame),
        0 <= cut <= frame.len() + 2,
    ensures
        ({
            let stream = frame + seq![trailer, next];
            scan_then(state, stream.take(cut), stream.skip(cut)) == (Scan {
                state: ScanState { pending: seq![next], in_frame: false },
                messages: seq![MessageView::RawFrame(frame)],
            })
        }),
{
    let stream = frame + seq![trailer, next];
    assert(stream.take(cut) + stream.skip(cut) =~= stream);
    lemma_scan_split(state, stream.take(cut), stream.skip(cut));
    lemma_frame_is_recovered(state, frame, trailer, next);
}

} // verus!
