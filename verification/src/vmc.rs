//! Key bindings for Virtual Motion Capture controller reports.
//!
//! A controller report is the message `/VMC/Ext/Con` with eight arguments:
//! `active`, `name`, `is_left`, `is_touch`, `is_axis` and the three axis
//! values. Two buttons of the right-hand controller are bound to the arrow
//! keys. This module decides which keys a datagram asks for; pressing them is
//! left to the caller.

use crate::osc::proofs::{
    lemma_bundle_next_message, lemma_bundle_round_trip, lemma_message_round_trip,
};
use crate::osc::wire::{
    encodable, encode_bundle, encode_elements, encode_message, parse_message, parse_packet,
    AtomView, BundleView, MessageView, PacketView, BUNDLE_TAG,
};
use crate::osc::{bytes_equal, message, packet};
use vstd::prelude::*;

verus! {

/// A key to press and release.
#[derive(Clone, Copy, Debug, PartialEq, Eq, Structural)]
pub enum KeyAction {
    LeftArrow,
    RightArrow,
}

/// The address of a controller report, `/VMC/Ext/Con`.
pub const CONTROLLER_ADDRESS: [u8; 12] = [
    '/' as u8,
    'V' as u8,
    'M' as u8,
    'C' as u8,
    '/' as u8,
    'E' as u8,
    'x' as u8,
    't' as u8,
    '/' as u8,
    'C' as u8,
    'o' as u8,
    'n' as u8,
];

/// The button bound to the left arrow, `ClickAbutton`.
pub const BUTTON_A: [u8; 12] = [
    'C' as u8,
    'l' as u8,
    'i' as u8,
    'c' as u8,
    'k' as u8,
    'A' as u8,
    'b' as u8,
    'u' as u8,
    't' as u8,
    't' as u8,
    'o' as u8,
    'n' as u8,
];

/// The button bound to the right arrow, `ClickBbutton`.
pub const BUTTON_B: [u8; 12] = [
    'C' as u8,
    'l' as u8,
    'i' as u8,
    'c' as u8,
    'k' as u8,
    'B' as u8,
    'b' as u8,
    'u' as u8,
    't' as u8,
    't' as u8,
    'o' as u8,
    'n' as u8,
];

/// The key that a button state asks for: a bound button of the right-hand
/// controller (`is_left` is 0) that is pressed (`active` is 1).
pub open spec fn key_for_button(active: i32, name: Seq<u8>, is_left: i32) -> Option<KeyAction> {
    if is_left == 0 && active == 1 {
        if name == BUTTON_B@ {
            Some(KeyAction::RightArrow)
        } else if name == BUTTON_A@ {
            Some(KeyAction::LeftArrow)
        } else {
            None
        }
    } else {
        None
    }
}

/// The key that a message asks for. A message with another address or another
/// number of arguments asks for nothing. A controller report whose arguments
/// cannot all be read, or are not of the types of a report, is an error.
pub open spec fn key_for_message(message: MessageView) -> Result<Option<KeyAction>, ()> {
    if message.address != CONTROLLER_ADDRESS@ || message.tags.len() != 8 {
        Ok(None)
    } else {
        match message.arguments() {
            Some(args) => match (
                args[0],
                args[1],
                args[2],
                args[3],
                args[4],
                args[5],
                args[6],
                args[7],
            ) {
                (
                    AtomView::Int32(active),
                    AtomView::String(name),
                    AtomView::Int32(is_left),
                    AtomView::Int32(_),
                    AtomView::Int32(_),
                    AtomView::Float32(_),
                    AtomView::Float32(_),
                    AtomView::Float32(_),
                ) => Ok(key_for_button(active, name, is_left)),
                _ => Err(()),
            },
            None => Err(()),
        }
    }
}

/// The keys that the messages still to be handed out ask for, in order, and
/// whether all of them were decoded. The first message that cannot be handed
/// out, or that is a broken controller report, ends the list with an error.
pub open spec fn keys_for_messages(packet: PacketView) -> (Seq<KeyAction>, Result<(), ()>)
    decreases packet.pending(),
{
    if packet.is_end_of_data() {
        (Seq::empty(), Ok(()))
    } else {
        match packet.next_message() {
            (after, Some(message)) => match key_for_message(message) {
                Ok(key) => {
                    let (keys, result) = keys_for_messages(after);
                    match key {
                        Some(action) => (seq![action] + keys, result),
                        None => (keys, result),
                    }
                },
                Err(_) => (Seq::empty(), Err(())),
            },
            (_, None) => (Seq::empty(), Err(())),
        }
    }
}

/// The keys that a datagram asks for, in order, and whether all of it was
/// decoded. A datagram that is neither a bundle nor a message asks for nothing
/// and is an error.
pub open spec fn keys_for_packet(bytes: Seq<u8>) -> (Seq<KeyAction>, Result<(), ()>) {
    match parse_packet(bytes) {
        Some(packet) => keys_for_messages(packet),
        None => (Seq::empty(), Err(())),
    }
}

/// The key that a button state asks for.
pub fn button_action(active: i32, name: &[u8], is_left: i32) -> (r: Option<KeyAction>)
    ensures
        r == key_for_button(active, name@, is_left),
{
    if bytes_equal(name, BUTTON_B.as_slice()) && is_left == 0 && active == 1 {
        Some(KeyAction::RightArrow)
    } else if bytes_equal(name, BUTTON_A.as_slice()) && is_left == 0 && active == 1 {
        Some(KeyAction::LeftArrow)
    } else {
        None
    }
}

/// The key that a message asks for. Messages that are no controller report
/// are passed over; a controller report is read argument by argument, and the
/// first argument that cannot be read or has another type is an error. The
/// message is used up either way.
pub fn message_action(message: message::Parser<'_>) -> (r: Result<Option<KeyAction>, ()>)
    ensures
        r == key_for_message(message@),
{
    let mut message = message;
    if !bytes_equal(message.address(), CONTROLLER_ADDRESS.as_slice()) {
        return Ok(None);
    }
    if message.num_of_rest_arguments() != 8 {
        return Ok(None);
    }
    proof {
        reveal_with_fuel(MessageView::arguments, 9);
    }
    let active = message.read_argument()?.as_int32().ok_or(())?;
    let name = message.read_argument()?.as_string().ok_or(())?;
    let is_left = message.read_argument()?.as_int32().ok_or(())?;
    let _is_touch = message.read_argument()?.as_int32().ok_or(())?;
    let _is_axis = message.read_argument()?.as_int32().ok_or(())?;
    let _axis_x = message.read_argument()?.as_float32().ok_or(())?;
    let _axis_y = message.read_argument()?.as_float32().ok_or(())?;
    let _axis_z = message.read_argument()?.as_float32().ok_or(())?;
    Ok(button_action(active, name, is_left))
}

/// Decodes one datagram and collects the keys that its messages ask for, in
/// order. Decoding stops at the first failure: the keys found before it are
/// still returned, beside the error, and nothing behind it is looked at.
pub fn handle_osc_packet(packet_bytes: &[u8]) -> (r: (Vec<KeyAction>, Result<(), ()>))
    ensures
        r.0@ == keys_for_packet(packet_bytes@).0,
        r.1 == keys_for_packet(packet_bytes@).1,
{
    let mut actions: Vec<KeyAction> = Vec::new();
    let mut packet = match packet::Parser::new(packet_bytes) {
        Ok(packet) => packet,
        Err(e) => {
            return (actions, Err(e));
        },
    };
    while !packet.is_end_of_data()
        invariant
            keys_for_packet(packet_bytes@).0 == actions@ + keys_for_messages(packet@).0,
            keys_for_packet(packet_bytes@).1 == keys_for_messages(packet@).1,
        decreases packet@.pending(),
    {
        let message = match packet.read_message() {
            Ok(message) => message,
            Err(e) => {
                return (actions, Err(e));
            },
        };
        match message_action(message) {
            Ok(Some(action)) => {
                actions.push(action);
            },
            Ok(None) => {},
            Err(e) => {
                return (actions, Err(e));
            },
        }
    }
    (actions, Ok(()))
}

/// The arguments of a controller report, in the order of the wire.
pub open spec fn report_arguments(
    active: i32,
    name: Seq<u8>,
    is_left: i32,
    is_touch: i32,
    is_axis: i32,
    axis: (u32, u32, u32),
) -> Seq<AtomView> {
    seq![
        AtomView::Int32(active),
        AtomView::String(name),
        AtomView::Int32(is_left),
        AtomView::Int32(is_touch),
        AtomView::Int32(is_axis),
        AtomView::Float32(axis.0),
        AtomView::Float32(axis.1),
        AtomView::Float32(axis.2),
    ]
}

/// A datagram that is one encoded controller report asks for the key of its
/// button, once if the button is bound and pressed on the right-hand
/// controller, and for nothing otherwise. It is never an error.
pub proof fn lemma_report_asks_for_its_button(
    active: i32,
    name: Seq<u8>,
    is_left: i32,
    is_touch: i32,
    is_axis: i32,
    axis: (u32, u32, u32),
)
    requires
        !name.contains(0u8),
    ensures
        keys_for_packet(
            encode_message(
                CONTROLLER_ADDRESS@,
                report_arguments(active, name, is_left, is_touch, is_axis, axis),
            ),
        ) == (
            match key_for_button(active, name, is_left) {
                Some(key) => seq![key],
                None => Seq::empty(),
            },
            Ok::<(), ()>(()),
        ),
{
    let arguments = report_arguments(active, name, is_left, is_touch, is_axis, axis);
    lemma_message_round_trip(CONTROLLER_ADDRESS@, arguments);
    reveal_with_fuel(keys_for_messages, 2);
    if let Some(key) = key_for_button(active, name, is_left) {
        assert(seq![key] + Seq::<KeyAction>::empty() =~= seq![key]);
    }
}

/// A datagram that is one encoded message with another address than that of
/// a controller report asks for nothing, whatever its arguments, and is no
/// error. The address `#bundle` is left out, since it makes a bundle.
pub proof fn lemma_other_address_asks_for_nothing(address: Seq<u8>, arguments: Seq<AtomView>)
    requires
        !address.contains(0u8),
        forall|i: int| 0 <= i < arguments.len() ==> encodable(#[trigger] arguments[i]),
        address != CONTROLLER_ADDRESS@,
        address != BUNDLE_TAG@,
    ensures
        keys_for_packet(encode_message(address, arguments)) == (
            Seq::<KeyAction>::empty(),
            Ok::<(), ()>(()),
        ),
{
    lemma_message_round_trip(address, arguments);
    reveal_with_fuel(keys_for_messages, 2);
}

/// The keys that a list of bundle elements asks for, in order, and whether
/// all of them were decoded. The first element that holds no message, or
/// holds a broken controller report, ends the list with an error: the keys
/// before it stay, and nothing behind it is looked at.
pub open spec fn keys_for_elements(payloads: Seq<Seq<u8>>) -> (Seq<KeyAction>, Result<(), ()>)
    decreases payloads.len(),
{
    if payloads.len() == 0 {
        (Seq::empty(), Ok(()))
    } else {
        match parse_message(payloads[0]) {
            Some(message) => match key_for_message(message) {
                Ok(key) => {
                    let (keys, result) = keys_for_elements(payloads.skip(1));
                    match key {
                        Some(action) => (seq![action] + keys, result),
                        None => (keys, result),
                    }
                },
                Err(_) => (Seq::empty(), Err(())),
            },
            None => (Seq::empty(), Err(())),
        }
    }
}

/// What is left of an encoded bundle asks for the keys of its elements.
proof fn lemma_keys_for_encoded_elements(timestamp: u64, payloads: Seq<Seq<u8>>)
    requires
        forall|i: int| 0 <= i < payloads.len() ==> (#[trigger] payloads[i]).len() <= i32::MAX,
    ensures
        keys_for_messages(
            PacketView::Bundle(BundleView { timestamp, stream: encode_elements(payloads) }),
        ) == keys_for_elements(payloads),
    decreases payloads.len(),
{
    if payloads.len() > 0 {
        lemma_bundle_next_message(timestamp, payloads);
        lemma_keys_for_encoded_elements(timestamp, payloads.skip(1));
    }
}

/// A datagram that is an encoded bundle asks for the keys of its elements, one
/// element after the other, up to the first that fails.
pub proof fn lemma_bundle_asks_for_keys_of_its_elements(timestamp: u64, payloads: Seq<Seq<u8>>)
    requires
        forall|i: int| 0 <= i < payloads.len() ==> (#[trigger] payloads[i]).len() <= i32::MAX,
    ensures
        keys_for_packet(encode_bundle(timestamp, payloads)) == keys_for_elements(payloads),
{
    lemma_bundle_round_trip(timestamp, payloads);
    lemma_keys_for_encoded_elements(timestamp, payloads);
}

} // verus!
