//! The incremental tokenizer: takes the stream in chunks of any size and
//! hands out the text lines and binary frames that each chunk completes.

use vstd::prelude::*;
use vstd::slice::slice_subrange;
use crate::message::message_views;
use crate::message::Message;
use crate::message::MessageView;
use crate::scan::lemma_scan_keeps_reachable;
use crate::scan::lemma_scan_push;
use crate::scan::scan;
use crate::scan::ScanState;
use crate::text::text_of_bytes;
use crate::wire::well_delimited;
use crate::wire::CARRIAGE_RETURN;
use crate::wire::FRAME_MARKER;
use crate::wire::FRAME_OVERHEAD;
use crate::wire::LENGTH_OFFSET;
use crate::wire::LINE_FEED;

verus! {

/// The tokenizer's memory between two chunks.
pub struct Tokenizer {
    /// Bytes of the current segment that arrived in earlier chunks.
    pending: Vec<u8>,
    /// Whether the current segment is a binary frame.
    in_frame: bool,
    /// Payload length of the frame in progress; 0 until its length byte has
    /// been read.
    declared_length: usize,
}

impl View for Tokenizer {
    type V = ScanState;

    closed spec fn view(&self) -> ScanState {
        ScanState { pending: self.pending@, in_frame: self.in_frame }
    }
}

impl Tokenizer {
    /// The tokenizer is in a state that scanning can reach, and remembers
    /// the payload length of the frame in progress correctly.
    pub closed spec fn wf(&self) -> bool {
        &&& self@.reachable()
        &&& self.declared_length == self@.declared_length()
    }

    /// A well-formed tokenizer is in a state that scanning can reach, so
    /// the laws of the scanner hold of it.
    pub proof fn lemma_wf_is_reachable(&self)
        requires
            self.wf(),
        ensures
            self@.reachable(),
    {
    }

    /// A tokenizer at the start of a stream.
    pub fn new() -> (tokenizer: Tokenizer)
        ensures
            tokenizer.wf(),
            tokenizer@ == ScanState::idle(),
    {
        Tokenizer { pending: Vec::new(), in_frame: false, declared_length: 0 }
    }

    /// Forgets the segment in progress, as after the link was closed and
    /// opened again.
    pub fn reset(&mut self)
        ensures
            final(self).wf(),
            final(self)@ == ScanState::idle(),
    {
        self.pending.clear();
        self.in_frame = false;
        self.declared_length = 0;
    }

    /// Whether a binary frame is in progress.
    pub fn in_frame(&self) -> (in_frame: bool)
        ensures
            in_frame == self@.in_frame,
    {
        self.in_frame
    }

    /// Payload length of the frame in progress; 0 outside a frame and
    /// until the length byte has arrived.
    pub fn declared_length(&self) -> (length: usize)
        requires
            self.wf(),
        ensures
            length == self@.declared_length(),
    {
        self.declared_length
    }

    /// The bytes of the segment in progress.
    pub fn pending(&self) -> (pending: &Vec<u8>)
        ensures
            pending@ == self@.pending,
    {
        &self.pending
    }

    /// The segment that ends before `chunk[to]`: the pending bytes followed
    /// by `chunk[from..to]`, without the last byte of the whole, which must
    /// not be empty. Nothing is pending afterwards.
    fn take_segment(&mut self, chunk: &[u8], from: usize, to: usize) -> (segment: Vec<u8>)
        requires
            from <= to <= chunk@.len(),
            old(self).pending@.len() + (to - from) >= 1,
        ensures
            segment@ == (old(self).pending@ + chunk@.subrange(from as int, to as int)).drop_last(),
            final(self).pending@ == Seq::<u8>::empty(),
            final(self).in_frame == old(self).in_frame,
            final(self).declared_length == old(self).declared_length,
    {
        let mut segment: Vec<u8> = Vec::new();
        segment.append(&mut self.pending);
        segment.extend_from_slice(slice_subrange(chunk, from, to));
        proof {
            assert(segment@ =~= old(self).pending@ + chunk@.subrange(from as int, to as int));
        }
        segment.pop();
        segment
    }

    /// Whether the current segment, of which `span` bytes lie in the chunk
    /// at hand, is longer than one byte.
    fn segment_exceeds_one(&self, span: usize) -> (longer: bool)
        ensures
            longer == (self.pending@.len() + span > 1),
    {
        self.pending.len() > 1 || span > 1 || (self.pending.len() == 1 && span == 1)
    }

    /// Takes the next chunk of the stream and returns the messages that it
    /// completes, oldest first.
    ///
    /// The chunk is scanned once from left to right. What it leaves
    /// unfinished is kept for the next call, so the messages do not depend
    /// on where the stream was cut.
    pub fn feed(&mut self, chunk: &[u8]) -> (messages: Vec<Message>)
        requires
            old(self).wf(),
        ensures
            final(self).wf(),
            final(self)@ == scan(old(self)@, chunk@).state,
            message_views(messages@) == scan(old(self)@, chunk@).messages,
            forall|k: int|
                0 <= k < messages@.len() ==> (#[trigger] messages@[k] matches Message::RawFrame(
                    frame,
                ) ==> well_delimited(frame@)),
    {
        let mut messages: Vec<Message> = Vec::new();
        let mut segment_start: usize = 0;
        let mut i: usize = 0;
        proof {
            assert(chunk@.take(0) =~= Seq::<u8>::empty());
            assert(self.pending@ + chunk@.subrange(0, 0) =~= self.pending@);
            assert(message_views(messages@) =~= Seq::<MessageView>::empty());
        }
        while i < chunk.len()
            invariant
                segment_start <= i <= chunk@.len(),
                ({
                    let held = ScanState {
                        pending: self.pending@ + chunk@.subrange(
                            segment_start as int,
                            i as int,
                        ),
                        in_frame: self.in_frame,
                    };
                    &&& held.reachable()
                    &&& self.declared_length == held.declared_length()
                    &&& scan(old(self)@, chunk@.take(i as int)).state == held
                    &&& scan(old(self)@, chunk@.take(i as int)).messages == message_views(
                        messages@,
                    )
                }),
            decreases chunk@.len() - i,
        {
            let byte = chunk[i];
            let ghost held = ScanState {
                pending: self.pending@ + chunk@.subrange(segment_start as int, i as int),
                in_frame: self.in_frame,
            };
            let ghost earlier = messages@;
            proof {
                assert(chunk@.take(i as int).push(byte) =~= chunk@.take(i + 1));
                lemma_scan_push(old(self)@, chunk@.take(i as int), byte);
                assert(held.pending.push(byte) =~= self.pending@ + chunk@.subrange(
                    segment_start as int,
                    i + 1,
                ));
            }
            if self.in_frame {
                let position = self.pending.len() + (i - segment_start);
                if self.declared_length == 0 && position == LENGTH_OFFSET {
                    self.declared_length = byte as usize;
                }
                if position >= self.declared_length + FRAME_OVERHEAD {
                    let frame = self.take_segment(chunk, segment_start, i);
                    messages.push(Message::RawFrame(frame));
                    self.in_frame = false;
                    self.declared_length = 0;
                    segment_start = i;
                    proof {
                        assert(self.pending@ + chunk@.subrange(i as int, i + 1) =~= seq![byte]);
                        assert(message_views(messages@) =~= message_views(earlier).push(
                            MessageView::RawFrame(frame@),
                        ));
                    }
                }
            } else if byte == LINE_FEED || byte == CARRIAGE_RETURN || byte == FRAME_MARKER {
                if byte != FRAME_MARKER && self.segment_exceeds_one(i - segment_start) {
                    let body = self.take_segment(chunk, segment_start, i);
                    match text_of_bytes(body) {
                        Some(text) => {
                            messages.push(Message::TextLine(text));
                            proof {
                                assert(message_views(messages@) =~= message_views(earlier).push(
                                    MessageView::TextLine(text@),
                                ));
                            }
                        },
                        None => {},
                    }
                } else {
                    self.pending.clear();
                }
                if byte == FRAME_MARKER {
                    segment_start = i;
                    self.in_frame = true;
                    self.declared_length = 0;
                    proof {
                        assert(self.pending@ + chunk@.subrange(i as int, i + 1) =~= seq![byte]);
                    }
                } else {
                    segment_start = i + 1;
                    proof {
                        assert(self.pending@ + chunk@.subrange(i + 1, i + 1) =~= Seq::<u8>::empty());
                    }
                }
            }
            i += 1;
        }
        proof {
            assert(chunk@.take(i as int) =~= chunk@);
        }
        if segment_start < chunk.len() {
            let ghost kept = self.pending@;
            self.pending.extend_from_slice(slice_subrange(chunk, segment_start, chunk.len()));
            proof {
                assert(self.pending@ =~= kept + chunk@.subrange(
                    segment_start as int,
                    chunk@.len() as int,
                ));
            }
        } else {
            proof {
                assert(self.pending@ + chunk@.subrange(segment_start as int, i as int)
                    =~= self.pending@);
            }
        }
        proof {
            lemma_scan_keeps_reachable(old(self)@, chunk@);
            assert forall|k: int| 0 <= k < messages@.len() implies (
            #[trigger] messages@[k] matches Message::RawFrame(frame) ==> well_delimited(
                frame@,
            )) by {
                assert(message_views(messages@)[k] == messages@[k]@);
            }
        }
        messages
    }
}

} // verus!
