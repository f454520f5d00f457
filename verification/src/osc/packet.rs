//! A whole datagram: a bundle or one bare message, behind one interface.

use crate::osc::wire::{parse_packet, PacketView};
use crate::osc::{bundle, message};
use vstd::prelude::*;

verus! {

/// A datagram after discrimination. A bare message is held until it is handed
/// out once.
pub enum Parser<'a> {
    Bundle(bundle::Parser<'a>),
    Message(Option<message::Parser<'a>>),
}

impl<'a> View for Parser<'a> {
    type V = PacketView;

    open spec fn view(&self) -> PacketView {
        match *self {
            Parser::Bundle(bundle) => PacketView::Bundle(bundle@),
            Parser::Message(held) => PacketView::Message(
                match held {
                    Some(message) => Some(message@),
                    None => None,
                },
            ),
        }
    }
}

impl<'a> Parser<'a> {
    /// Tells a bundle from a bare message: the datagram is a bundle where its
    /// bundle header can be read, else a message where its message header can
    /// be read, else nothing.
    pub fn new(bytes: &'a [u8]) -> (r: Result<Self, ()>)
        ensures
            match parse_packet(bytes@) {
                Some(packet) => r matches Ok(parser) && parser@ == packet,
                None => r is Err,
            },
    {
        if let Ok(bundle) = bundle::Parser::new(bytes) {
            Ok(Self::Bundle(bundle))
        } else {
            Ok(Self::Message(Some(message::Parser::new(bytes)?)))
        }
    }

    /// Whether every message has been handed out.
    pub fn is_end_of_data(&self) -> (end: bool)
        ensures
            end == self@.is_end_of_data(),
    {
        match self {
            Parser::Bundle(bundle) => bundle.is_end_of_data(),
            Parser::Message(message) => message.is_none(),
        }
    }

    /// Hands out the next message. A bundle reads its next element. A bare
    /// message is handed out once; after that the call fails.
    pub fn read_message(&mut self) -> (r: Result<message::Parser<'a>, ()>)
        ensures
            final(self)@ == old(self)@.next_message().0,
            match old(self)@.next_message().1 {
                Some(message) => r matches Ok(parser) && parser@ == message,
                None => r is Err,
            },
    {
        match self {
            Parser::Bundle(bundle) => bundle.read_message(),
            Parser::Message(message) => message.take().ok_or(()),
        }
    }
}

} // verus!
