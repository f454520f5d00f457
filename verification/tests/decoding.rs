use vmc_keymap::osc::{bundle, bytes_equal, message, packet};

enum Arg<'a> {
    Int(i32),
    Float(f32),
    Str(&'a [u8]),
}

fn osc_string(content: &[u8]) -> Vec<u8> {
    let mut bytes = content.to_vec();
    bytes.resize(content.len() / 4 * 4 + 4, 0);
    bytes
}

fn osc_message(address: &[u8], args: &[Arg]) -> Vec<u8> {
    let mut tags = vec![b','];
    let mut data = Vec::new();
    for arg in args {
        match arg {
            Arg::Int(value) => {
                tags.push(b'i');
                data.extend_from_slice(&value.to_be_bytes());
            }
            Arg::Float(value) => {
                tags.push(b'f');
                data.extend_from_slice(&value.to_be_bytes());
            }
            Arg::Str(content) => {
                tags.push(b's');
                data.extend_from_slice(&osc_string(content));
            }
        }
    }
    let mut bytes = osc_string(address);
    bytes.extend_from_slice(&osc_string(&tags));
    bytes.extend_from_slice(&data);
    bytes
}

fn osc_bundle(timestamp: u64, elements: &[Vec<u8>]) -> Vec<u8> {
    let mut bytes = osc_string(b"#bundle");
    bytes.extend_from_slice(&timestamp.to_be_bytes());
    for element in elements {
        bytes.extend_from_slice(&(element.len() as i32).to_be_bytes());
        bytes.extend_from_slice(element);
    }
    bytes
}

/// Whether header and every argument of `bytes` can be read.
fn decodes(bytes: &[u8]) -> bool {
    let Ok(mut parser) = message::Parser::new(bytes) else {
        return false;
    };
    while parser.num_of_rest_arguments() > 0 {
        if parser.read_argument().is_err() {
            return false;
        }
    }
    true
}

#[test]
fn message_header_is_address_and_tags() {
    let bytes = osc_message(b"/a/b", &[Arg::Int(1), Arg::Str(b"x"), Arg::Float(2.0)]);
    let parser = message::Parser::new(&bytes).ok().unwrap();
    assert_eq!(parser.address(), b"/a/b");
    assert_eq!(parser.num_of_rest_arguments(), 3);
}

#[test]
fn message_without_arguments() {
    let bytes = osc_message(b"/ping", &[]);
    assert_eq!(bytes.len(), 12);
    let mut parser = message::Parser::new(&bytes).ok().unwrap();
    assert_eq!(parser.address(), b"/ping");
    assert_eq!(parser.num_of_rest_arguments(), 0);
    assert!(parser.read_argument().is_err());
    assert_eq!(parser.num_of_rest_arguments(), 0);
}

#[test]
fn message_tags_must_start_with_comma() {
    let mut bytes = osc_string(b"/a");
    bytes.extend_from_slice(&osc_string(b"i"));
    bytes.extend_from_slice(&1i32.to_be_bytes());
    assert!(message::Parser::new(&bytes).is_err());

    let mut bytes = osc_string(b"/a");
    bytes.extend_from_slice(&osc_string(b""));
    assert!(message::Parser::new(&bytes).is_err());
}

#[test]
fn message_needs_both_strings() {
    assert!(message::Parser::new(&[]).is_err());
    assert!(message::Parser::new(&osc_string(b"/a")).is_err());
    assert!(message::Parser::new(b"/abc").is_err());
    assert!(message::Parser::new(b"/a\0\0,i").is_err());
}

#[test]
fn arguments_are_read_as_their_tags_say() {
    let bytes = osc_message(
        b"/mix",
        &[Arg::Int(-5), Arg::Float(1.5), Arg::Str(b"hello"), Arg::Str(b""), Arg::Int(i32::MIN)],
    );
    let mut parser = message::Parser::new(&bytes).ok().unwrap();
    assert_eq!(parser.num_of_rest_arguments(), 5);
    assert_eq!(parser.read_argument().unwrap().as_int32(), Some(-5));
    assert_eq!(parser.num_of_rest_arguments(), 4);
    assert_eq!(parser.read_argument().unwrap().as_float32().map(f32::from_bits), Some(1.5));
    assert_eq!(parser.read_argument().unwrap().as_string(), Some(&b"hello"[..]));
    assert_eq!(parser.read_argument().unwrap().as_string(), Some(&b""[..]));
    assert_eq!(parser.read_argument().unwrap().as_int32(), Some(i32::MIN));
    assert_eq!(parser.num_of_rest_arguments(), 0);
    assert!(parser.read_argument().is_err());
}

#[test]
fn argument_kind_follows_the_tag_not_the_caller() {
    let bytes = osc_message(b"/a", &[Arg::Float(1.0)]);
    let mut parser = message::Parser::new(&bytes).ok().unwrap();
    let atom = parser.read_argument().unwrap();
    assert_eq!(atom.as_int32(), None);
    assert_eq!(atom.as_float32(), Some(0x3f80_0000));
}

#[test]
fn unknown_tag_is_rejected_and_consumed() {
    let mut bytes = osc_string(b"/a");
    bytes.extend_from_slice(&osc_string(b",xi"));
    bytes.extend_from_slice(&7i32.to_be_bytes());
    let mut parser = message::Parser::new(&bytes).ok().unwrap();
    assert_eq!(parser.num_of_rest_arguments(), 2);
    assert!(parser.read_argument().is_err());
    assert_eq!(parser.num_of_rest_arguments(), 1);
    assert_eq!(parser.read_argument().unwrap().as_int32(), Some(7));
}

#[test]
fn missing_argument_data_is_rejected() {
    let mut bytes = osc_string(b"/a");
    bytes.extend_from_slice(&osc_string(b",is"));
    bytes.extend_from_slice(&[0, 0, 1]);
    let mut parser = message::Parser::new(&bytes).ok().unwrap();
    assert!(parser.read_argument().is_err());
    assert_eq!(parser.num_of_rest_arguments(), 1);
    assert!(parser.read_argument().is_err());
    assert_eq!(parser.num_of_rest_arguments(), 0);
}

#[test]
fn failed_argument_consumes_its_tag_but_no_data() {
    let mut bytes = osc_string(b"/a");
    bytes.extend_from_slice(&osc_string(b",si"));
    bytes.extend_from_slice(b"abcd");
    let mut parser = message::Parser::new(&bytes).ok().unwrap();
    assert!(parser.read_argument().is_err());
    assert_eq!(parser.num_of_rest_arguments(), 1);
    assert_eq!(parser.read_argument().unwrap().as_int32(), Some(0x6162_6364));
    assert_eq!(parser.num_of_rest_arguments(), 0);
}

#[test]
fn encoded_message_decodes_to_what_was_encoded() {
    let address = b"/VMC/Ext/Con";
    let bytes = osc_message(
        address,
        &[Arg::Int(1), Arg::Str(b"ClickBbutton"), Arg::Int(0), Arg::Float(-0.75), Arg::Str(b"abc")],
    );
    let mut parser = message::Parser::new(&bytes).ok().unwrap();
    assert_eq!(parser.address(), address);
    assert_eq!(parser.num_of_rest_arguments(), 5);
    assert_eq!(parser.read_argument().unwrap().as_int32(), Some(1));
    assert_eq!(parser.read_argument().unwrap().as_string(), Some(&b"ClickBbutton"[..]));
    assert_eq!(parser.read_argument().unwrap().as_int32(), Some(0));
    assert_eq!(
        parser.read_argument().unwrap().as_float32(),
        Some((-0.75f32).to_bits())
    );
    assert_eq!(parser.read_argument().unwrap().as_string(), Some(&b"abc"[..]));
    assert_eq!(parser.num_of_rest_arguments(), 0);
}

#[test]
fn every_strict_prefix_of_a_message_is_rejected() {
    let bytes = osc_message(
        b"/VMC/Ext/Con",
        &[
            Arg::Int(1),
            Arg::Str(b"ClickBbutton"),
            Arg::Int(0),
            Arg::Int(0),
            Arg::Int(0),
            Arg::Float(0.0),
            Arg::Float(0.0),
            Arg::Float(0.0),
        ],
    );
    assert!(decodes(&bytes));
    for len in 0..bytes.len() {
        assert!(!decodes(&bytes[..len]), "prefix of {} bytes", len);
    }
}

#[test]
fn every_strict_prefix_of_a_message_without_arguments_is_rejected() {
    let bytes = osc_message(b"/abc", &[]);
    assert!(decodes(&bytes));
    for len in 0..bytes.len() {
        assert!(!decodes(&bytes[..len]), "prefix of {} bytes", len);
    }
}

#[test]
fn bundle_header_is_tag_and_timestamp() {
    let bytes = osc_bundle(0x0102_0304_0506_0708, &[]);
    assert_eq!(bytes.len(), 16);
    let parser = bundle::Parser::new(&bytes).ok().unwrap();
    assert_eq!(parser.timestamp(), 0x0102_0304_0506_0708);
    assert!(parser.is_end_of_data());
}

#[test]
fn bundle_needs_its_tag() {
    let mut bytes = osc_string(b"#bundlf");
    bytes.extend_from_slice(&[0; 8]);
    assert!(bundle::Parser::new(&bytes).is_err());

    let mut bytes = osc_string(b"#bundle1");
    bytes.extend_from_slice(&[0; 8]);
    assert!(bundle::Parser::new(&bytes).is_err());

    let mut bytes = osc_string(b"#bundl");
    bytes.extend_from_slice(&[0; 8]);
    assert!(bundle::Parser::new(&bytes).is_err());

    assert!(bundle::Parser::new(&[]).is_err());
    assert!(bundle::Parser::new(b"#bundle").is_err());
}

#[test]
fn bundle_needs_its_timestamp() {
    let mut bytes = osc_string(b"#bundle");
    assert!(bundle::Parser::new(&bytes).is_err());
    bytes.extend_from_slice(&[0; 7]);
    assert!(bundle::Parser::new(&bytes).is_err());
    bytes.push(0);
    assert!(bundle::Parser::new(&bytes).is_ok());
}

#[test]
fn bundle_hands_out_its_messages_in_order() {
    let first = osc_message(b"/one", &[Arg::Int(1)]);
    let second = osc_message(b"/two", &[Arg::Str(b"2")]);
    let bytes = osc_bundle(9, &[first, second]);
    let mut parser = bundle::Parser::new(&bytes).ok().unwrap();
    assert!(!parser.is_end_of_data());

    let mut message = parser.read_message().ok().unwrap();
    assert_eq!(message.address(), b"/one");
    assert_eq!(message.read_argument().unwrap().as_int32(), Some(1));
    assert!(!parser.is_end_of_data());

    let mut message = parser.read_message().ok().unwrap();
    assert_eq!(message.address(), b"/two");
    assert_eq!(message.read_argument().unwrap().as_string(), Some(&b"2"[..]));
    assert!(parser.is_end_of_data());
    assert!(parser.read_message().is_err());
    assert_eq!(parser.timestamp(), 9);
}

#[test]
fn bundle_message_sees_only_its_own_bytes() {
    let mut bytes = osc_bundle(0, &[]);
    let message = osc_message(b"/a", &[Arg::Int(5)]);
    bytes.extend_from_slice(&((message.len() - 4) as i32).to_be_bytes());
    bytes.extend_from_slice(&message);
    let mut parser = bundle::Parser::new(&bytes).ok().unwrap();
    let mut message = parser.read_message().ok().unwrap();
    assert_eq!(message.num_of_rest_arguments(), 1);
    assert!(message.read_argument().is_err());
    assert!(!parser.is_end_of_data());
}

#[test]
fn bundle_element_longer_than_the_rest_is_rejected() {
    let message = osc_message(b"/a", &[]);
    let mut bytes = osc_bundle(0, &[]);
    bytes.extend_from_slice(&((message.len() + 1) as i32).to_be_bytes());
    bytes.extend_from_slice(&message);
    let mut parser = bundle::Parser::new(&bytes).ok().unwrap();
    assert!(parser.read_message().is_err());
    assert!(!parser.is_end_of_data());
    assert!(parser.read_message().is_err());
}

#[test]
fn bundle_element_of_negative_length_is_rejected() {
    let mut bytes = osc_bundle(0, &[]);
    bytes.extend_from_slice(&(-1i32).to_be_bytes());
    bytes.extend_from_slice(&osc_message(b"/a", &[]));
    let mut parser = bundle::Parser::new(&bytes).ok().unwrap();
    assert!(parser.read_message().is_err());
    assert!(!parser.is_end_of_data());
}

#[test]
fn bundle_element_with_cut_off_length_is_rejected() {
    let mut bytes = osc_bundle(0, &[]);
    bytes.extend_from_slice(&[0, 0, 0]);
    let mut parser = bundle::Parser::new(&bytes).ok().unwrap();
    assert!(!parser.is_end_of_data());
    assert!(parser.read_message().is_err());
}

#[test]
fn bundle_element_that_is_no_message_is_rejected_and_consumed() {
    let good = osc_message(b"/good", &[]);
    let bytes = osc_bundle(0, &[vec![1, 2, 3, 4], good]);
    let mut parser = bundle::Parser::new(&bytes).ok().unwrap();
    assert!(parser.read_message().is_err());
    let message = parser.read_message().ok().unwrap();
    assert_eq!(message.address(), b"/good");
    assert!(parser.is_end_of_data());
}

#[test]
fn bundle_element_of_no_bytes_is_rejected() {
    let bytes = osc_bundle(0, &[vec![]]);
    let mut parser = bundle::Parser::new(&bytes).ok().unwrap();
    assert!(parser.read_message().is_err());
    assert!(parser.is_end_of_data());
}

#[test]
fn packet_with_bundle_header_is_a_bundle() {
    let bytes = osc_bundle(1, &[osc_message(b"/a", &[])]);
    let mut parser = packet::Parser::new(&bytes).ok().unwrap();
    assert!(matches!(parser, packet::Parser::Bundle(_)));
    assert!(!parser.is_end_of_data());
    assert_eq!(parser.read_message().ok().unwrap().address(), b"/a");
    assert!(parser.is_end_of_data());
    assert!(parser.read_message().is_err());
}

#[test]
fn packet_with_bundle_header_is_a_bundle_whatever_follows() {
    let mut bytes = osc_string(b"#bundle");
    bytes.extend_from_slice(b",\0\0\0");
    bytes.extend_from_slice(&[0xff; 4]);
    assert!(message::Parser::new(&bytes).is_ok());
    let parser = packet::Parser::new(&bytes).ok().unwrap();
    match parser {
        packet::Parser::Bundle(bundle) => {
            assert_eq!(bundle.timestamp(), 0x2c00_0000_ffff_ffff);
            assert!(bundle.is_end_of_data());
        }
        packet::Parser::Message(_) => panic!("taken for a message"),
    }
}

#[test]
fn packet_without_bundle_header_is_a_message() {
    let bytes = osc_message(b"/a/b", &[Arg::Int(3)]);
    let mut parser = packet::Parser::new(&bytes).ok().unwrap();
    assert!(matches!(parser, packet::Parser::Message(Some(_))));
    assert!(!parser.is_end_of_data());
    let mut message = parser.read_message().ok().unwrap();
    assert_eq!(message.address(), b"/a/b");
    assert_eq!(message.read_argument().unwrap().as_int32(), Some(3));
    assert!(parser.is_end_of_data());
    assert!(matches!(parser, packet::Parser::Message(None)));
}

#[test]
fn packet_message_is_handed_out_once() {
    let bytes = osc_message(b"/once", &[]);
    let mut parser = packet::Parser::new(&bytes).ok().unwrap();
    assert!(parser.read_message().is_ok());
    assert!(parser.read_message().is_err());
    assert!(parser.read_message().is_err());
    assert!(parser.is_end_of_data());
}

#[test]
fn packet_with_cut_off_bundle_header_is_a_message_if_it_is_one() {
    let mut bytes = osc_string(b"#bundle");
    bytes.extend_from_slice(b",\0\0\0");
    assert!(bundle::Parser::new(&bytes).is_err());
    let mut parser = packet::Parser::new(&bytes).ok().unwrap();
    assert!(matches!(parser, packet::Parser::Message(Some(_))));
    assert_eq!(parser.read_message().ok().unwrap().address(), b"#bundle");
}

#[test]
fn packet_that_is_neither_is_rejected() {
    assert!(packet::Parser::new(&[]).is_err());
    assert!(packet::Parser::new(b"#bundle\0").is_err());
    assert!(packet::Parser::new(b"/a\0\0i\0\0\0").is_err());
    assert!(packet::Parser::new(&[0xff; 32]).is_err());
}

#[test]
fn bytes_equal_compares_length_and_content() {
    assert!(bytes_equal(b"", b""));
    assert!(bytes_equal(b"abc", b"abc"));
    assert!(!bytes_equal(b"abc", b"abd"));
    assert!(!bytes_equal(b"abc", b"ab"));
    assert!(!bytes_equal(b"ab", b"abc"));
    assert!(!bytes_equal(b"xbc", b"abc"));
}
