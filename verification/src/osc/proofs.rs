//! What holds of the wire format: decoding undoes encoding, a cut-off message
//! is rejected, and a bundle is never taken for a message.

use crate::osc::wire::{
    be_i32, be_u32, be_u64, decode_message, encodable, encode_argument, encode_arguments,
    encode_bundle, encode_element, encode_elements, encode_i32, encode_message, encode_string,
    encode_u32, encode_u64, padded_len, parse_bundle, parse_message, parse_packet,
    split_argument, split_element, split_float32, split_int32, split_string, split_timestamp,
    tag_of, tags_of, AtomView, BundleView, MessageView, PacketView, BUNDLE_TAG, TAG_SENTINEL,
};
use vstd::prelude::*;

verus! {

/// The padded length is the least multiple of four strictly above the content
/// length: it is such a multiple, and no other such multiple `m` is smaller.
pub proof fn lemma_padded_len_is_least(len: nat, m: int)
    ensures
        padded_len(len as int) % 4 == 0,
        len < padded_len(len as int),
        m % 4 == 0 && len < m ==> padded_len(len as int) <= m,
{
}

/// A string is encoded in as many bytes as its padded length, and all of them
/// behind the content are zero.
pub proof fn lemma_encoded_string_len(content: Seq<u8>)
    ensures
        encode_string(content).len() == padded_len(content.len() as int),
        encode_string(content).take(content.len() as int) == content,
        forall|i: int|
            content.len() <= i < encode_string(content).len() ==> encode_string(content)[i] == 0,
{
    assert(encode_string(content).take(content.len() as int) =~= content);
}

/// An encoded string, with anything behind it, is split into its content and
/// what is behind it.
pub proof fn lemma_split_encoded_string(content: Seq<u8>, tail: Seq<u8>)
    requires
        !content.contains(0u8),
    ensures
        split_string(encode_string(content) + tail) == Some((content, tail)),
{
    let bytes = encode_string(content) + tail;
    let len = content.len() as int;
    assert(bytes[len] == 0u8);
    assert forall|i: int| 0 <= i < len implies bytes[i] != 0u8 by {
        assert(bytes[i] == content[i]);
        assert(content.contains(content[i]));
    }
    bytes.index_of_first_ensures(0u8);
    assert(bytes.index_of_first(0u8) == Some(len));
    assert(bytes.take(len) =~= content);
    assert(bytes.skip(padded_len(len)) =~= tail);
}

/// Four encoded bytes spell the number they were made from.
pub proof fn lemma_be_u32_of_encoded(value: u32)
    ensures
        be_u32(encode_u32(value)) == value,
{
}

/// Four encoded bytes spell the signed number they were made from.
pub proof fn lemma_be_i32_of_encoded(value: i32)
    ensures
        be_i32(encode_i32(value)) == value,
{
}

/// An encoded integer, with anything behind it, is split into the integer and
/// what is behind it.
pub proof fn lemma_split_encoded_int32(value: i32, tail: Seq<u8>)
    ensures
        split_int32(encode_i32(value) + tail) == Some((value, tail)),
{
    let bytes = encode_i32(value) + tail;
    lemma_be_i32_of_encoded(value);
    assert(bytes.take(4) =~= encode_i32(value));
    assert(bytes.skip(4) =~= tail);
}

/// An encoded float, with anything behind it, is split into its bit pattern
/// and what is behind it.
pub proof fn lemma_split_encoded_float32(bits: u32, tail: Seq<u8>)
    ensures
        split_float32(encode_u32(bits) + tail) == Some((bits, tail)),
{
    let bytes = encode_u32(bits) + tail;
    lemma_be_u32_of_encoded(bits);
    assert(bytes.take(4) =~= encode_u32(bits));
    assert(bytes.skip(4) =~= tail);
}

/// An encoded argument, with anything behind it, is split by its own tag into
/// the argument and what is behind it.
pub proof fn lemma_split_encoded_argument(argument: AtomView, tail: Seq<u8>)
    requires
        encodable(argument),
    ensures
        split_argument(tag_of(argument), encode_argument(argument) + tail) == Some(
            (argument, tail),
        ),
{
    match argument {
        AtomView::Int32(value) => lemma_split_encoded_int32(value, tail),
        AtomView::Float32(bits) => lemma_split_encoded_float32(bits, tail),
        AtomView::String(content) => lemma_split_encoded_string(content, tail),
    }
}

/// Reading all the arguments of a message whose tags and data were encoded
/// from `arguments` gives `arguments` back, whatever follows the data.
pub proof fn lemma_arguments_round_trip(
    address: Seq<u8>,
    arguments: Seq<AtomView>,
    tail: Seq<u8>,
)
    requires
        forall|i: int| 0 <= i < arguments.len() ==> encodable(#[trigger] arguments[i]),
    ensures
        (MessageView {
            address,
            tags: tags_of(arguments),
            data: encode_arguments(arguments) + tail,
        }).arguments() == Some(arguments),
    decreases arguments.len(),
{
    let message = MessageView {
        address,
        tags: tags_of(arguments),
        data: encode_arguments(arguments) + tail,
    };
    if arguments.len() == 0 {
        assert(arguments =~= Seq::empty());
    } else {
        let first = arguments[0];
        let others = arguments.skip(1);
        assert(message.data =~= encode_argument(first) + (encode_arguments(others) + tail));
        lemma_split_encoded_argument(first, encode_arguments(others) + tail);
        assert(message.tags.skip(1) =~= tags_of(others));
        lemma_arguments_round_trip(address, others, tail);
        assert(seq![first] + others =~= arguments);
    }
}

/// Decoding undoes encoding. A message encoded from an address without zero
/// byte and from arguments whose strings hold no zero byte decodes to that
/// address, to one tag for each argument, and to those very arguments.
pub proof fn lemma_message_round_trip(address: Seq<u8>, arguments: Seq<AtomView>)
    requires
        !address.contains(0u8),
        forall|i: int| 0 <= i < arguments.len() ==> encodable(#[trigger] arguments[i]),
    ensures
        decode_message(encode_message(address, arguments)) == Some((address, arguments)),
        parse_message(encode_message(address, arguments)) == Some(
            MessageView { address, tags: tags_of(arguments), data: encode_arguments(arguments) },
        ),
{
    let tag_block = seq![TAG_SENTINEL] + tags_of(arguments);
    let data = encode_arguments(arguments);
    lemma_tag_block_has_no_zero(arguments);
    assert(encode_message(address, arguments) =~= encode_string(address) + (encode_string(
        tag_block,
    ) + data));
    lemma_split_encoded_string(address, encode_string(tag_block) + data);
    lemma_split_encoded_string(tag_block, data);
    assert(tag_block.skip(1) =~= tags_of(arguments));
    assert(data =~= data + Seq::<u8>::empty());
    lemma_arguments_round_trip(address, arguments, Seq::empty());
}

/// No type-tag string holds a zero byte.
proof fn lemma_tag_block_has_no_zero(arguments: Seq<AtomView>)
    ensures
        !(seq![TAG_SENTINEL] + tags_of(arguments)).contains(0u8),
{
    let tag_block = seq![TAG_SENTINEL] + tags_of(arguments);
    assert forall|i: int| 0 <= i < tag_block.len() implies tag_block[i] != 0u8 by {
        if i > 0 {
            assert(tag_block[i] == tag_of(arguments[i - 1]));
        }
    }
}

/// A cut-off string is no string: no strict prefix of an encoded string can be
/// split.
pub proof fn lemma_truncated_string_rejected(content: Seq<u8>, k: int)
    requires
        !content.contains(0u8),
        0 <= k < encode_string(content).len(),
    ensures
        split_string(encode_string(content).take(k)) is None,
{
    let cut = encode_string(content).take(k);
    let len = content.len() as int;
    cut.index_of_first_ensures(0u8);
    assert forall|i: int| 0 <= i < cut.len() && i < len implies cut[i] != 0u8 by {
        assert(cut[i] == content[i]);
        assert(content.contains(content[i]));
    }
    if len < k {
        assert(cut[len] == 0u8);
        assert(cut.index_of_first(0u8) == Some(len));
    }
}

/// A cut-off argument is no argument: no strict prefix of an encoded argument
/// can be split by the argument's tag.
pub proof fn lemma_truncated_argument_rejected(argument: AtomView, k: int)
    requires
        encodable(argument),
        0 <= k < encode_argument(argument).len(),
    ensures
        split_argument(tag_of(argument), encode_argument(argument).take(k)) is None,
{
    match argument {
        AtomView::Int32(_) => {},
        AtomView::Float32(_) => {},
        AtomView::String(content) => lemma_truncated_string_rejected(content, k),
    }
}

/// Where the data of a message are cut off, not all of its arguments can be
/// read.
pub proof fn lemma_truncated_arguments_rejected(
    address: Seq<u8>,
    arguments: Seq<AtomView>,
    k: int,
)
    requires
        forall|i: int| 0 <= i < arguments.len() ==> encodable(#[trigger] arguments[i]),
        0 <= k < encode_arguments(arguments).len(),
    ensures
        (MessageView {
            address,
            tags: tags_of(arguments),
            data: encode_arguments(arguments).take(k),
        }).arguments() is None,
    decreases arguments.len(),
{
    let message = MessageView {
        address,
        tags: tags_of(arguments),
        data: encode_arguments(arguments).take(k),
    };
    let first = arguments[0];
    let others = arguments.skip(1);
    let head = encode_argument(first);
    let body = encode_arguments(others);
    if k < head.len() {
        assert(message.data =~= head.take(k));
        lemma_truncated_argument_rejected(first, k);
    } else {
        assert(message.data =~= head + body.take(k - head.len()));
        lemma_split_encoded_argument(first, body.take(k - head.len()));
        assert(message.tags.skip(1) =~= tags_of(others));
        lemma_truncated_arguments_rejected(address, others, k - head.len());
    }
}

/// A cut-off message is rejected: of a message encoded as in
/// [`lemma_message_round_trip`], no strict prefix decodes.
pub proof fn lemma_truncated_message_rejected(
    address: Seq<u8>,
    arguments: Seq<AtomView>,
    k: int,
)
    requires
        !address.contains(0u8),
        forall|i: int| 0 <= i < arguments.len() ==> encodable(#[trigger] arguments[i]),
        0 <= k < encode_message(address, arguments).len(),
    ensures
        decode_message(encode_message(address, arguments).take(k)) is None,
{
    let tag_block = seq![TAG_SENTINEL] + tags_of(arguments);
    let head = encode_string(address);
    let tags = encode_string(tag_block);
    let data = encode_arguments(arguments);
    let cut = encode_message(address, arguments).take(k);
    lemma_tag_block_has_no_zero(arguments);
    if k < head.len() {
        assert(cut =~= head.take(k));
        lemma_truncated_string_rejected(address, k);
    } else if k < head.len() + tags.len() {
        let cut_tags = tags.take(k - head.len());
        assert(cut =~= head + cut_tags);
        lemma_split_encoded_string(address, cut_tags);
        lemma_truncated_string_rejected(tag_block, k - head.len());
    } else {
        let cut_data = data.take(k - head.len() - tags.len());
        assert(cut =~= head + (tags + cut_data));
        lemma_split_encoded_string(address, tags + cut_data);
        lemma_split_encoded_string(tag_block, cut_data);
        assert(tag_block.skip(1) =~= tags_of(arguments));
        lemma_truncated_arguments_rejected(address, arguments, k - head.len() - tags.len());
    }
}

/// Eight encoded bytes spell the number they were made from.
pub proof fn lemma_be_u64_of_encoded(value: u64)
    ensures
        be_u64(encode_u64(value)) == value,
{
    let high = encode_u32((value / 0x1_0000_0000) as u32);
    let low = encode_u32((value % 0x1_0000_0000) as u32);
    assert(encode_u64(value).take(4) =~= high);
    assert(encode_u64(value).skip(4) =~= low);
    lemma_be_u32_of_encoded((value / 0x1_0000_0000) as u32);
    lemma_be_u32_of_encoded((value % 0x1_0000_0000) as u32);
}

/// An encoded timestamp, with anything behind it, is split into the timestamp
/// and what is behind it.
pub proof fn lemma_split_encoded_timestamp(timestamp: u64, tail: Seq<u8>)
    ensures
        split_timestamp(encode_u64(timestamp) + tail) == Some((timestamp, tail)),
{
    let bytes = encode_u64(timestamp) + tail;
    lemma_be_u64_of_encoded(timestamp);
    assert(bytes.take(8) =~= encode_u64(timestamp));
    assert(bytes.skip(8) =~= tail);
}

/// An encoded element, with anything behind it, is split into its payload and
/// what is behind it.
pub proof fn lemma_split_encoded_element(payload: Seq<u8>, tail: Seq<u8>)
    requires
        payload.len() <= i32::MAX,
    ensures
        split_element(encode_element(payload) + tail) == Some((payload, tail)),
{
    let len = payload.len() as i32;
    assert(encode_element(payload) + tail =~= encode_i32(len) + (payload + tail));
    lemma_split_encoded_int32(len, payload + tail);
    assert((payload + tail).take(len as int) =~= payload);
    assert((payload + tail).skip(len as int) =~= tail);
}

/// An encoded bundle is a bundle with the timestamp it was made from, and its
/// stream is the encoded elements.
pub proof fn lemma_bundle_round_trip(timestamp: u64, payloads: Seq<Seq<u8>>)
    ensures
        parse_packet(encode_bundle(timestamp, payloads)) == Some(
            PacketView::Bundle(BundleView { timestamp, stream: encode_elements(payloads) }),
        ),
{
    let stream = encode_elements(payloads);
    assert(encode_bundle(timestamp, payloads) =~= encode_string(BUNDLE_TAG@) + (encode_u64(
        timestamp,
    ) + stream));
    lemma_split_encoded_string(BUNDLE_TAG@, encode_u64(timestamp) + stream);
    lemma_split_encoded_timestamp(timestamp, stream);
}

/// Reading one element off encoded elements gives whatever message the first
/// payload holds and leaves the other elements, encoded.
pub proof fn lemma_bundle_next_message(timestamp: u64, payloads: Seq<Seq<u8>>)
    requires
        payloads.len() > 0,
        payloads[0].len() <= i32::MAX,
    ensures
        (BundleView { timestamp, stream: encode_elements(payloads) }).next_message() == (
            BundleView { timestamp, stream: encode_elements(payloads.skip(1)) },
            parse_message(payloads[0]),
        ),
{
    lemma_split_encoded_element(payloads[0], encode_elements(payloads.skip(1)));
}

/// A datagram that starts with `#bundle`, a zero byte and eight more bytes is
/// a bundle, whatever else it could be read as: those eight bytes are its
/// timestamp and the rest is its stream.
pub proof fn lemma_bundle_header_makes_bundle(bytes: Seq<u8>)
    requires
        bytes.len() >= 16,
        bytes.take(8) == BUNDLE_TAG@.push(0u8),
    ensures
        parse_packet(bytes) == Some(
            PacketView::Bundle(
                BundleView { timestamp: be_u64(bytes.subrange(8, 16)), stream: bytes.skip(16) },
            ),
        ),
{
    let opening = BUNDLE_TAG@.push(0u8);
    assert forall|i: int| 0 <= i < 8 implies bytes[i] == opening[i] by {
        assert(bytes.take(8)[i] == bytes[i]);
    }
    bytes.index_of_first_ensures(0u8);
    assert(bytes[7] == 0u8);
    assert(bytes.index_of_first(0u8) == Some(7int));
    assert(bytes.take(7) =~= BUNDLE_TAG@);
    assert(bytes.skip(8).take(8) =~= bytes.subrange(8, 16));
    assert(bytes.skip(8).skip(8) =~= bytes.skip(16));
}

/// A datagram that does not start with `#bundle` and a zero byte is never a
/// bundle: where it holds a message it is that message, else it is nothing.
pub proof fn lemma_no_bundle_header_makes_message(bytes: Seq<u8>)
    requires
        !(bytes.len() >= 8 && bytes.take(8) == BUNDLE_TAG@.push(0u8)),
    ensures
        parse_bundle(bytes) is None,
        parse_packet(bytes) == match parse_message(bytes) {
            Some(message) => Some(PacketView::Message(Some(message))),
            None => None,
        },
{
    bytes.index_of_first_ensures(0u8);
    if parse_bundle(bytes) is Some {
        let len = bytes.index_of_first(0u8).unwrap();
        assert(bytes.take(len).len() == BUNDLE_TAG@.len());
        assert(bytes.take(8) =~= bytes.take(7).push(0u8));
    }
}

} // verus!
