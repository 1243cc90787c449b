//! The two kinds of message that the byte stream carries.

use vstd::prelude::*;

verus! {

/// A message recovered from the stream.
#[derive(Clone, Debug, PartialEq, Eq)]
pub enum Message {
    /// A line of text, without the byte that ended it.
    TextLine(String),
    /// The bytes of a binary frame, from the start marker to the checksum.
    /// The checksum has not been looked at.
    RawFrame(Vec<u8>),
}

/// What a [`Message`] stands for in contracts.
pub enum MessageView {
    TextLine(Seq<char>),
    RawFrame(Seq<u8>),
}

impl View for Message {
    type V = MessageView;

    open spec fn view(&self) -> MessageView {
        match self {
            Message::TextLine(text) => MessageView::TextLine(text@),
            Message::RawFrame(bytes) => MessageView::RawFrame(bytes@),
        }
    }
}

/// The views of a sequence of messages, in the same order.
pub open spec fn message_views(messages: Seq<Message>) -> Seq<MessageView> {
    messages.map_values(|message: Message| message@)
}

} // verus!
