//! One link session: the tokenizer, the snapshot and the console log, and
//! the routing of each message to where it belongs.

use vstd::prelude::*;
use crate::checksum::checksum_ok;
use crate::checksum::flip_bit;
use crate::checksum::lemma_corrupted_checksum_byte_detected;
use crate::checksum::testChecksum;
use crate::console::lemma_newest_absorbs;
use crate::console::newest;
use crate::console::ConsoleLog;
use crate::console::CONSOLE_CAPACITY;
use crate::message::message_views;
use crate::message::Message;
use crate::message::MessageView;
use crate::scan::lemma_scan_split;
use crate::scan::scan;
use crate::scan::ScanState;
use crate::telemetry::classify;
use crate::telemetry::decoded;
use crate::telemetry::DecodeOutcome;
use crate::telemetry::SnapshotView;
use crate::telemetry::TelemetrySnapshot;
use crate::tokenizer::Tokenizer;

verus! {

/// What became of one message.
#[derive(Clone, Copy, Debug, PartialEq, Eq)]
pub enum Event {
    /// A text line was appended to the console log.
    Line,
    /// A frame passed the checksum and was given to the decoder, which made
    /// this of it.
    Frame(DecodeOutcome),
    /// A frame failed the checksum and was dropped.
    Corrupt,
}

/// What becomes of `message`.
pub open spec fn event_of(message: MessageView) -> Event {
    match message {
        MessageView::TextLine(_) => Event::Line,
        MessageView::RawFrame(frame) => if checksum_ok(frame) {
            Event::Frame(classify(frame))
        } else {
            Event::Corrupt
        },
    }
}

/// The snapshot after `message`: a frame that passes the checksum is
/// decoded into it, anything else leaves it as it was.
pub open spec fn snapshot_with(snapshot: SnapshotView, message: MessageView) -> SnapshotView {
    match message {
        MessageView::RawFrame(frame) => if checksum_ok(frame) {
            decoded(snapshot, frame)
        } else {
            snapshot
        },
        MessageView::TextLine(_) => snapshot,
    }
}

/// The console log after `message`: a text line is appended, and the oldest
/// line dropped if the log was full; a frame leaves the log as it was.
pub open spec fn console_with(
    console: Seq<Seq<char>>,
    capacity: nat,
    message: MessageView,
) -> Seq<Seq<char>> {
    match message {
        MessageView::TextLine(text) => newest(console.push(text), capacity),
        MessageView::RawFrame(_) => console,
    }
}

/// The snapshot after `messages`, taken in order.
pub open spec fn snapshot_after(snapshot: SnapshotView, messages: Seq<MessageView>) -> SnapshotView
    decreases messages.len(),
{
    if messages.len() == 0 {
        snapshot
    } else {
        snapshot_with(snapshot_after(snapshot, messages.drop_last()), messages.last())
    }
}

/// The text of `message` if it is a text line.
pub open spec fn line_of(message: MessageView) -> Option<Seq<char>> {
    match message {
        MessageView::TextLine(text) => Some(text),
        MessageView::RawFrame(_) => None,
    }
}

/// The text lines among `messages`, in order.
pub open spec fn text_lines(messages: Seq<MessageView>) -> Seq<Seq<char>> {
    messages.filter_map(|message: MessageView| line_of(message))
}

/// What becomes of each of `messages`, in order.
pub open spec fn events_of(messages: Seq<MessageView>) -> Seq<Event> {
    messages.map_values(|message: MessageView| event_of(message))
}

/// What a [`Session`] stands for in contracts.
pub ghost struct SessionView {
    /// State of the tokenizer.
    pub scanner: ScanState,
    /// The latest sensor readings.
    pub snapshot: SnapshotView,
    /// The lines of the console log, oldest first.
    pub console: Seq<Seq<char>>,
    /// The number of lines that the console log keeps at most.
    pub console_capacity: nat,
}

/// The session after the bytes of `chunk` arrived: the tokenizer has
/// scanned them, every frame that it completed and that passes the checksum
/// has been decoded into the snapshot, and every line that it completed has
/// been appended to the console log.
pub open spec fn ingested(before: SessionView, chunk: Seq<u8>) -> SessionView {
    let scanned = scan(before.scanner, chunk);
    SessionView {
        scanner: scanned.state,
        snapshot: snapshot_after(before.snapshot, scanned.messages),
        console: newest(
            before.console + text_lines(scanned.messages),
            before.console_capacity,
        ),
        console_capacity: before.console_capacity,
    }
}

/// The state of one link: what the tokenizer holds of the stream, the
/// latest sensor readings, and the console log.
pub struct Session {
    tokenizer: Tokenizer,
    snapshot: TelemetrySnapshot,
    console: ConsoleLog,
}

impl View for Session {
    type V = SessionView;

    closed spec fn view(&self) -> SessionView {
        SessionView {
            scanner: self.tokenizer@,
            snapshot: self.snapshot@,
            console: self.console@,
            console_capacity: self.console.spec_capacity(),
        }
    }
}

impl Session {
    /// Each part of the session is well formed.
    pub closed spec fn wf(&self) -> bool {
        &&& self.tokenizer.wf()
        &&& self.snapshot.wf()
        &&& self.console.wf()
    }

    /// A session before the first byte: the tokenizer idle, all readings
    /// zero, the console log empty.
    pub fn new() -> (session: Session)
        ensures
            session.wf(),
            session@ == (SessionView {
                scanner: ScanState::idle(),
                snapshot: SnapshotView::initial(),
                console: Seq::empty(),
                console_capacity: CONSOLE_CAPACITY as nat,
            }),
    {
        Session {
            tokenizer: Tokenizer::new(),
            snapshot: TelemetrySnapshot::new(),
            console: ConsoleLog::new(),
        }
    }

    /// The tokenizer.
    pub fn tokenizer(&self) -> (tokenizer: &Tokenizer)
        ensures
            tokenizer@ == self@.scanner,
            self.wf() ==> tokenizer.wf(),
    {
        &self.tokenizer
    }

    /// The latest sensor readings.
    pub fn snapshot(&self) -> (snapshot: &TelemetrySnapshot)
        ensures
            snapshot@ == self@.snapshot,
            self.wf() ==> snapshot.wf(),
    {
        &self.snapshot
    }

    /// The console log.
    pub fn console(&self) -> (console: &ConsoleLog)
        ensures
            console@ == self@.console,
            console.spec_capacity() == self@.console_capacity,
            self.wf() ==> console.wf(),
    {
        &self.console
    }

    /// Forgets the unfinished segment of the stream, as is due when the
    /// link was closed and opened again. Readings and console log stay.
    pub fn reconnect(&mut self)
        requires
            old(self).wf(),
        ensures
            final(self).wf(),
            final(self)@ == (SessionView { scanner: ScanState::idle(), ..old(self)@ }),
    {
        self.tokenizer.reset();
    }

    /// Sets all readings back to zero.
    pub fn clear_readings(&mut self)
        requires
            old(self).wf(),
        ensures
            final(self).wf(),
            final(self)@ == (SessionView { snapshot: SnapshotView::initial(), ..old(self)@ }),
    {
        self.snapshot = TelemetrySnapshot::new();
    }

    /// Routes one message: a text line goes to the console log; a frame is
    /// decoded into the snapshot if it passes the checksum and dropped if
    /// it does not.
    pub fn absorb(&mut self, message: &Message) -> (event: Event)
        requires
            old(self).wf(),
        ensures
            final(self).wf(),
            event == event_of(message@),
            final(self)@ == (SessionView {
                snapshot: snapshot_with(old(self)@.snapshot, message@),
                console: console_with(
                    old(self)@.console,
                    old(self)@.console_capacity,
                    message@,
                ),
                ..old(self)@
            }),
    {
        match message {
            Message::TextLine(text) => {
                self.console.push(text.clone());
                Event::Line
            },
            Message::RawFrame(frame) => {
                if testChecksum(frame) {
                    let outcome = self.snapshot.decode(frame.as_slice());
                    Event::Frame(outcome)
                } else {
                    Event::Corrupt
                }
            },
        }
    }

    /// Takes the next chunk of the stream. Every message that the chunk
    /// completes is routed, oldest first; the result tells what became of
    /// each.
    pub fn ingest(&mut self, chunk: &[u8]) -> (events: Vec<Event>)
        requires
            old(self).wf(),
        ensures
            final(self).wf(),
            final(self)@ == ingested(old(self)@, chunk@),
            events@ == events_of(scan(old(self)@.scanner, chunk@).messages),
    {
        let messages = self.tokenizer.feed(chunk);
        let ghost views = message_views(messages@);
        let mut events: Vec<Event> = Vec::new();
        let mut i: usize = 0;
        proof {
            assert(views.take(0) =~= Seq::<MessageView>::empty());
            assert(self@.console + text_lines(views.take(0)) =~= self@.console);
            assert(events@ =~= events_of(views.take(0)));
        }
        while i < messages.len()
            invariant
                i <= messages@.len(),
                views == message_views(messages@),
                self.wf(),
                self@.scanner == scan(old(self)@.scanner, chunk@).state,
                self@.snapshot == snapshot_after(old(self)@.snapshot, views.take(i as int)),
                self@.console == newest(
                    old(self)@.console + text_lines(views.take(i as int)),
                    old(self)@.console_capacity,
                ),
                self@.console_capacity == old(self)@.console_capacity,
                events@ == events_of(views.take(i as int)),
            decreases messages@.len() - i,
        {
            let ghost before = self@;
            let ghost earlier = events@;
            let event = self.absorb(&messages[i]);
            events.push(event);
            proof {
                let message = views[i as int];
                let upto = views.take(i + 1);
                assert(upto.drop_last() =~= views.take(i as int));
                assert(upto.last() == message);
                let lines = old(self)@.console + text_lines(views.take(i as int));
                match message {
                    MessageView::TextLine(text) => {
                        lemma_newest_absorbs(lines, seq![text], old(self)@.console_capacity);
                        assert(newest(lines, old(self)@.console_capacity).push(text) =~= newest(
                            lines,
                            old(self)@.console_capacity,
                        ) + seq![text]);
                        assert(lines + seq![text] =~= old(self)@.console + text_lines(upto));
                    },
                    MessageView::RawFrame(_) => {},
                }
                assert(events@ =~= events_of(upto));
            }
            i += 1;
        }
        proof {
            assert(views.take(i as int) =~= views);
        }
        events
    }
}

impl Default for Session {
    /// A session before the first byte, as [`Session::new`] makes it.
    fn default() -> (session: Session)
        ensures
            session.wf(),
            session@ == (SessionView {
                scanner: ScanState::idle(),
                snapshot: SnapshotView::initial(),
                console: Seq::empty(),
                console_capacity: CONSOLE_CAPACITY as nat,
            }),
    {
        Session::new()
    }
}

/// The snapshot after two runs of messages is the snapshot after the
/// second run, begun where the first ended.
pub proof fn lemma_snapshot_after_concat(
    snapshot: SnapshotView,
    first: Seq<MessageView>,
    second: Seq<MessageView>,
)
    ensures
        snapshot_after(snapshot, first + second) == snapshot_after(
            snapshot_after(snapshot, first),
            second,
        ),
    decreases second.len(),
{
    if second.len() == 0 {
        assert(first + second =~= first);
    } else {
        assert((first + second).drop_last() =~= first + second.drop_last());
        lemma_snapshot_after_concat(snapshot, first, second.drop_last());
    }
}

/// The text lines of two runs of messages are those of the first followed
/// by those of the second.
pub proof fn lemma_text_lines_concat(first: Seq<MessageView>, second: Seq<MessageView>)
    ensures
        text_lines(first + second) == text_lines(first) + text_lines(second),
    decreases second.len(),
{
    if second.len() == 0 {
        assert(first + second =~= first);
        assert(text_lines(first) + text_lines(second) =~= text_lines(first));
    } else {
        assert((first + second).drop_last() =~= first + second.drop_last());
        lemma_text_lines_concat(first, second.drop_last());
        assert(text_lines(first + second) =~= text_lines(first) + text_lines(second));
    }
}

/// Chunk invariance of the whole session: snapshot, console log and
/// tokenizer end up the same whether a stream arrives in one piece or cut
/// in two at any place.
pub proof fn lemma_ingest_split(before: SessionView, first: Seq<u8>, second: Seq<u8>)
    ensures
        ingested(ingested(before, first), second) == ingested(before, first + second),
{
    let head = scan(before.scanner, first);
    let tail = scan(head.state, second);
    lemma_scan_split(before.scanner, first, second);
    lemma_snapshot_after_concat(before.snapshot, head.messages, tail.messages);
    lemma_text_lines_concat(head.messages, tail.messages);
    lemma_newest_absorbs(
        before.console + text_lines(head.messages),
        text_lines(tail.messages),
        before.console_capacity,
    );
    assert((before.console + text_lines(head.messages)) + text_lines(tail.messages)
        =~= before.console + (text_lines(head.messages) + text_lines(tail.messages)));
}

/// A frame whose checksum byte has one bit inverted never reaches the
/// decoder: it is reported as corrupt and the snapshot stays as it was.
pub proof fn lemma_corrupted_frame_is_dropped(snapshot: SnapshotView, frame: Seq<u8>, bit: u8)
    requires
        frame.len() > 0,
        checksum_ok(frame),
        bit < 8,
    ensures
        ({
            let corrupted = frame.update(frame.len() - 1, flip_bit(frame.last(), bit));
            &&& event_of(MessageView::RawFrame(corrupted)) == Event::Corrupt
            &&& snapshot_with(snapshot, MessageView::RawFrame(corrupted)) == snapshot
        }),
{
    lemma_corrupted_checksum_byte_detected(frame, bit);
}

} // verus!
