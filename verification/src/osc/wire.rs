//! The wire format as mathematics: what a sequence of bytes means.
//!
//! Every decoder in this crate is specified against the functions below. Each
//! `split_*` function takes the bytes that are left and gives the decoded
//! value together with the bytes that follow it, or `None` where the bytes do
//! not start with such a value. The `encode_*` functions are the inverse
//! direction and exist to state what decoding undoes.

use vstd::prelude::*;

verus! {

/// One decoded argument of a message. A float is held as its IEEE-754
/// binary32 bit pattern.
pub enum AtomView {
    Int32(i32),
    Float32(u32),
    String(Seq<u8>),
}

/// A message whose header has been read: address, the type tags that have not
/// been consumed yet, and the argument bytes that have not been consumed yet.
pub struct MessageView {
    pub address: Seq<u8>,
    pub tags: Seq<u8>,
    pub data: Seq<u8>,
}

/// A bundle whose header has been read: the timestamp and the bytes of the
/// elements that have not been consumed yet.
pub struct BundleView {
    pub timestamp: u64,
    pub stream: Seq<u8>,
}

/// A datagram after discrimination. A bare message is held until it is handed
/// out, then the slot is empty.
pub enum PacketView {
    Bundle(BundleView),
    Message(Option<MessageView>),
}

/// Type tag of a 32-bit signed integer argument.
pub const TAG_INT32: u8 = 'i' as u8;

/// Type tag of a 32-bit float argument.
pub const TAG_FLOAT32: u8 = 'f' as u8;

/// Type tag of a string argument.
pub const TAG_STRING: u8 = 's' as u8;

/// The comma that opens every type-tag string.
pub const TAG_SENTINEL: u8 = ',' as u8;

/// The string that opens every bundle, `#bundle`.
pub const BUNDLE_TAG: [u8; 7] = [
    '#' as u8,
    'b' as u8,
    'u' as u8,
    'n' as u8,
    'd' as u8,
    'l' as u8,
    'e' as u8,
];

/// The unsigned number that four bytes spell in network byte order.
pub open spec fn be_u32(b: Seq<u8>) -> u32
    recommends
        b.len() == 4,
{
    (b[0] as int * 0x100_0000 + b[1] as int * 0x1_0000 + b[2] as int * 0x100 + b[3] as int) as u32
}

/// The two's complement number that four bytes spell in network byte order.
pub open spec fn be_i32(b: Seq<u8>) -> i32
    recommends
        b.len() == 4,
{
    let u = be_u32(b);
    if u < 0x8000_0000 {
        u as i32
    } else {
        (u - 0x1_0000_0000) as i32
    }
}

/// The unsigned number that eight bytes spell in network byte order.
pub open spec fn be_u64(b: Seq<u8>) -> u64
    recommends
        b.len() == 8,
{
    (be_u32(b.take(4)) as int * 0x1_0000_0000 + be_u32(b.skip(4)) as int) as u64
}

/// Bytes that a string of `len` content bytes occupies on the wire: content,
/// terminator and zero padding up to the next multiple of four.
pub open spec fn padded_len(len: int) -> int {
    len / 4 * 4 + 4
}

/// A string ends at the first zero byte and occupies its padded length. There
/// is none where no zero byte occurs or the padding would run past the end.
pub open spec fn split_string(bytes: Seq<u8>) -> Option<(Seq<u8>, Seq<u8>)> {
    match bytes.index_of_first(0u8) {
        Some(len) => if padded_len(len) <= bytes.len() {
            Some((bytes.take(len), bytes.skip(padded_len(len))))
        } else {
            None
        },
        None => None,
    }
}

/// A signed integer is the first four bytes.
pub open spec fn split_int32(bytes: Seq<u8>) -> Option<(i32, Seq<u8>)> {
    if bytes.len() >= 4 {
        Some((be_i32(bytes.take(4)), bytes.skip(4)))
    } else {
        None
    }
}

/// A float is the first four bytes, kept as a bit pattern.
pub open spec fn split_float32(bytes: Seq<u8>) -> Option<(u32, Seq<u8>)> {
    if bytes.len() >= 4 {
        Some((be_u32(bytes.take(4)), bytes.skip(4)))
    } else {
        None
    }
}

/// A timestamp is the first eight bytes, kept as one opaque number.
pub open spec fn split_timestamp(bytes: Seq<u8>) -> Option<(u64, Seq<u8>)> {
    if bytes.len() >= 8 {
        Some((be_u64(bytes.take(8)), bytes.skip(8)))
    } else {
        None
    }
}

/// The argument that `tag` announces at the front of `data`. Any tag other
/// than the three known ones announces nothing that can be read.
pub open spec fn split_argument(tag: u8, data: Seq<u8>) -> Option<(AtomView, Seq<u8>)> {
    if tag == TAG_INT32 {
        match split_int32(data) {
            Some((value, rest)) => Some((AtomView::Int32(value), rest)),
            None => None,
        }
    } else if tag == TAG_FLOAT32 {
        match split_float32(data) {
            Some((bits, rest)) => Some((AtomView::Float32(bits), rest)),
            None => None,
        }
    } else if tag == TAG_STRING {
        match split_string(data) {
            Some((content, rest)) => Some((AtomView::String(content), rest)),
            None => None,
        }
    } else {
        None
    }
}

/// The header of a message: an address string, then a type-tag string that
/// starts with the sentinel. What follows the header is argument data.
pub open spec fn parse_message(bytes: Seq<u8>) -> Option<MessageView> {
    match split_string(bytes) {
        Some((address, after_address)) => match split_string(after_address) {
            Some((tag_block, data)) => if tag_block.len() > 0 && tag_block[0] == TAG_SENTINEL {
                Some(MessageView { address, tags: tag_block.skip(1), data })
            } else {
                None
            },
            None => None,
        },
        None => None,
    }
}

/// A whole message: its address and all its arguments, or `None` where the
/// header or one of the arguments cannot be read.
pub open spec fn decode_message(bytes: Seq<u8>) -> Option<(Seq<u8>, Seq<AtomView>)> {
    match parse_message(bytes) {
        Some(message) => match message.arguments() {
            Some(arguments) => Some((message.address, arguments)),
            None => None,
        },
        None => None,
    }
}

/// The header of a bundle: the bundle string, then a timestamp. What follows
/// is the stream of elements.
pub open spec fn parse_bundle(bytes: Seq<u8>) -> Option<BundleView> {
    match split_string(bytes) {
        Some((tag, after_tag)) => if tag == BUNDLE_TAG@ {
            match split_timestamp(after_tag) {
                Some((timestamp, stream)) => Some(BundleView { timestamp, stream }),
                None => None,
            }
        } else {
            None
        },
        None => None,
    }
}

/// One element of a bundle: a length, then as many bytes. There is none where
/// the length is negative or larger than what is left.
pub open spec fn split_element(stream: Seq<u8>) -> Option<(Seq<u8>, Seq<u8>)> {
    match split_int32(stream) {
        Some((len, after_len)) => if 0 <= len <= after_len.len() {
            Some((after_len.take(len as int), after_len.skip(len as int)))
        } else {
            None
        },
        None => None,
    }
}

/// A datagram is a bundle where it has a bundle header, else a bare message
/// where it has a message header, else nothing.
pub open spec fn parse_packet(bytes: Seq<u8>) -> Option<PacketView> {
    match parse_bundle(bytes) {
        Some(bundle) => Some(PacketView::Bundle(bundle)),
        None => match parse_message(bytes) {
            Some(message) => Some(PacketView::Message(Some(message))),
            None => None,
        },
    }
}

/// A string on the wire: the content, then between one and four zero bytes
/// up to the padded length.
pub open spec fn encode_string(content: Seq<u8>) -> Seq<u8> {
    content + Seq::new((padded_len(content.len() as int) - content.len()) as nat, |i: int| 0u8)
}

/// An unsigned 32-bit number on the wire: four bytes, most significant first.
pub open spec fn encode_u32(value: u32) -> Seq<u8> {
    seq![
        (value / 0x100_0000) as u8,
        (value / 0x1_0000 % 0x100) as u8,
        (value / 0x100 % 0x100) as u8,
        (value % 0x100) as u8,
    ]
}

/// A signed 32-bit number on the wire: its two's complement, most significant
/// byte first.
pub open spec fn encode_i32(value: i32) -> Seq<u8> {
    if value >= 0 {
        encode_u32(value as u32)
    } else {
        encode_u32((value + 0x1_0000_0000) as u32)
    }
}

/// An unsigned 64-bit number on the wire: eight bytes, most significant
/// first.
pub open spec fn encode_u64(value: u64) -> Seq<u8> {
    encode_u32((value / 0x1_0000_0000) as u32) + encode_u32((value % 0x1_0000_0000) as u32)
}

/// The type tag that announces an argument.
pub open spec fn tag_of(argument: AtomView) -> u8 {
    match argument {
        AtomView::Int32(_) => TAG_INT32,
        AtomView::Float32(_) => TAG_FLOAT32,
        AtomView::String(_) => TAG_STRING,
    }
}

/// An argument on the wire.
pub open spec fn encode_argument(argument: AtomView) -> Seq<u8> {
    match argument {
        AtomView::Int32(value) => encode_i32(value),
        AtomView::Float32(bits) => encode_u32(bits),
        AtomView::String(content) => encode_string(content),
    }
}

/// The type tags that announce `arguments`, one for each.
pub open spec fn tags_of(arguments: Seq<AtomView>) -> Seq<u8> {
    Seq::new(arguments.len(), |i: int| tag_of(arguments[i]))
}

/// Arguments on the wire, one behind the other with nothing between them.
pub open spec fn encode_arguments(arguments: Seq<AtomView>) -> Seq<u8>
    decreases arguments.len(),
{
    if arguments.len() == 0 {
        Seq::empty()
    } else {
        encode_argument(arguments[0]) + encode_arguments(arguments.skip(1))
    }
}

/// A message on the wire: the address, the type-tag string behind its comma,
/// and the arguments.
pub open spec fn encode_message(address: Seq<u8>, arguments: Seq<AtomView>) -> Seq<u8> {
    encode_string(address) + encode_string(seq![TAG_SENTINEL] + tags_of(arguments))
        + encode_arguments(arguments)
}

/// One element of a bundle on the wire: the length of the payload, then the
/// payload.
pub open spec fn encode_element(payload: Seq<u8>) -> Seq<u8>
    recommends
        payload.len() <= i32::MAX,
{
    encode_i32(payload.len() as i32) + payload
}

/// The elements of a bundle on the wire, one behind the other.
pub open spec fn encode_elements(payloads: Seq<Seq<u8>>) -> Seq<u8>
    decreases payloads.len(),
{
    if payloads.len() == 0 {
        Seq::empty()
    } else {
        encode_element(payloads[0]) + encode_elements(payloads.skip(1))
    }
}

/// A bundle on the wire: the bundle string, the timestamp, and the elements.
pub open spec fn encode_bundle(timestamp: u64, payloads: Seq<Seq<u8>>) -> Seq<u8> {
    encode_string(BUNDLE_TAG@) + encode_u64(timestamp) + encode_elements(payloads)
}

/// Whether an argument can go on the wire and come back: a string must hold
/// no zero byte, since the first one ends it.
pub open spec fn encodable(argument: AtomView) -> bool {
    argument matches AtomView::String(content) ==> !content.contains(0u8)
}

impl MessageView {
    /// Reading one argument: the message afterwards, and the argument where
    /// there is one to read. With no tag left nothing changes. Otherwise the
    /// first tag is consumed, and the data that it announces where they can be
    /// read.
    pub open spec fn next_argument(self) -> (MessageView, Option<AtomView>) {
        if self.tags.len() == 0 {
            (self, None)
        } else {
            match split_argument(self.tags[0], self.data) {
                Some((value, rest)) => (
                    MessageView { address: self.address, tags: self.tags.skip(1), data: rest },
                    Some(value),
                ),
                None => (
                    MessageView { address: self.address, tags: self.tags.skip(1), data: self.data },
                    None,
                ),
            }
        }
    }

    /// All the arguments that the tags announce, read in order, or `None`
    /// where one of them cannot be read.
    pub open spec fn arguments(self) -> Option<Seq<AtomView>>
        decreases self.tags.len(),
    {
        if self.tags.len() == 0 {
            Some(Seq::empty())
        } else {
            match self.next_argument() {
                (after, Some(first)) => match after.arguments() {
                    Some(others) => Some(seq![first] + others),
                    None => None,
                },
                (_, None) => None,
            }
        }
    }
}

impl BundleView {
    /// Whether every element has been read.
    pub open spec fn is_end_of_data(self) -> bool {
        self.stream.len() == 0
    }

    /// Reading one element: the bundle afterwards, and the message where the
    /// element holds one. Where no element can be split off nothing changes.
    /// Otherwise the element is consumed, whether or not it holds a message.
    pub open spec fn next_message(self) -> (BundleView, Option<MessageView>) {
        match split_element(self.stream) {
            Some((payload, rest)) => (
                BundleView { timestamp: self.timestamp, stream: rest },
                parse_message(payload),
            ),
            None => (self, None),
        }
    }
}

impl PacketView {
    /// A bound on how much is left to hand out: the bytes of a bundle's
    /// stream, or one for a bare message that is still held.
    pub open spec fn pending(self) -> nat {
        match self {
            PacketView::Bundle(bundle) => bundle.stream.len(),
            PacketView::Message(Some(_)) => 1,
            PacketView::Message(None) => 0,
        }
    }

    /// Whether every message has been handed out.
    pub open spec fn is_end_of_data(self) -> bool {
        match self {
            PacketView::Bundle(bundle) => bundle.is_end_of_data(),
            PacketView::Message(held) => held is None,
        }
    }

    /// Handing out one message: the datagram afterwards, and the message
    /// where there is one. A bundle reads its next element; a bare message is
    /// handed out once.
    pub open spec fn next_message(self) -> (PacketView, Option<MessageView>) {
        match self {
            PacketView::Bundle(bundle) => (
                PacketView::Bundle(bundle.next_message().0),
                bundle.next_message().1,
            ),
            PacketView::Message(held) => (PacketView::Message(None), held),
        }
    }
}

} // verus!
