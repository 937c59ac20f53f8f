use osc_handshake::osc::{quantize, OscError, OscMessage};

fn address_datagram(address: &str, tag: u8, payload: &[u8]) -> Vec<u8> {
    let mut v: Vec<u8> = address.as_bytes().to_vec();
    v.push(0);
    while v.len() % 4 != 0 {
        v.push(0);
    }
    v.extend_from_slice(&[b',', tag, 0, 0]);
    v.extend_from_slice(payload);
    v
}

#[test]
fn quantize_rounds_up_to_multiple_of_four() {
    let cases: [(usize, usize); 9] = [(0, 0), (1, 4), (2, 4), (3, 4), (4, 4), (5, 8), (7, 8), (8, 8), (9, 12)];
    for (input, expected) in cases {
        let mut v = input;
        quantize(&mut v, 4);
        assert_eq!(v, expected, "quantize({})", input);
    }
}

#[test]
fn quantize_other_quantum() {
    let mut v: usize = 10;
    quantize(&mut v, 8);
    assert_eq!(v, 16);
    let mut w: usize = 16;
    quantize(&mut w, 8);
    assert_eq!(w, 16);
}

#[test]
fn comma_offset_follows_address_length() {
    // address lengths 1, 2, 3, 4 bytes plus one terminator: comma at 4, 4, 4, 8
    let expected = [("/", 4usize), ("/a", 4), ("/ab", 4), ("/abc", 8), ("/abcdefg", 12)];
    for (address, comma) in expected {
        let mut v: Vec<u8> = address.as_bytes().to_vec();
        v.push(0);
        while v.len() < comma {
            v.push(0);
        }
        v.extend_from_slice(&[b',', b'i', 0, 0]);
        let m = OscMessage::new(&v).unwrap();
        assert_eq!(m.address, address);
        assert_eq!(m.type_tag, 'i');
        assert!(m.data.is_empty());
    }
}

#[test]
fn comma_right_after_terminator_is_missing_type_tag() {
    // "/a\0" ends at offset 3; the tag block must start at 4, not 3
    let v: Vec<u8> = vec![b'/', b'a', 0, b',', b's', 0, 0, 0];
    assert_eq!(OscMessage::new(&v).err(), Some(OscError::MissingTypeTag));
}

#[test]
fn parse_reads_address_tag_and_payload() {
    let v = address_datagram("/avatar/change", b's', &[1, 2, 3, 4, 5]);
    assert_eq!(v.len(), 16 + 4 + 5);
    let m = OscMessage::new(&v).unwrap();
    assert_eq!(m.address, "/avatar/change");
    assert_eq!(m.type_tag, 's');
    assert_eq!(m.data, vec![1, 2, 3, 4, 5]);
}

#[test]
fn parse_keeps_multibyte_address() {
    let v = address_datagram("/é/ü", b'f', &[9]);
    let m = OscMessage::new(&v).unwrap();
    assert_eq!(m.address, "/é/ü");
    assert_eq!(m.address.chars().count(), 4);
    assert_eq!(m.data, vec![9]);
}

#[test]
fn serialize_then_parse_gives_message_back() {
    let m = OscMessage { address: String::from("/avatar/test"), type_tag: 'i', data: vec![0, 0, 0, 42] };
    let bytes = m.serialize();
    assert_eq!(bytes, address_datagram("/avatar/test", b'i', &[0, 0, 0, 42]));
    let back = OscMessage::new(&bytes).unwrap();
    assert_eq!(back.address, m.address);
    assert_eq!(back.type_tag, m.type_tag);
    assert_eq!(back.data, m.data);
}

#[test]
fn serialize_pads_address_to_four_bytes() {
    let m = OscMessage { address: String::from("/abc"), type_tag: 'T', data: Vec::new() };
    assert_eq!(m.serialize(), vec![b'/', b'a', b'b', b'c', 0, 0, 0, 0, b',', b'T', 0, 0]);
    let n = OscMessage { address: String::from("/ab"), type_tag: 'T', data: Vec::new() };
    assert_eq!(n.serialize(), vec![b'/', b'a', b'b', 0, b',', b'T', 0, 0]);
}

#[test]
fn missing_terminator_is_truncated() {
    let v: Vec<u8> = b"/avatar/change".to_vec();
    assert_eq!(OscMessage::new(&v).err(), Some(OscError::TruncatedMessage));
    assert_eq!(OscMessage::new(&Vec::new()).err(), Some(OscError::TruncatedMessage));
}

#[test]
fn address_without_slash_is_invalid() {
    let v = address_datagram("avatar/change", b's', &[]);
    assert_eq!(OscMessage::new(&v).err(), Some(OscError::InvalidAddress));
    let bare: Vec<u8> = b"avatar/change\0".to_vec();
    assert_eq!(OscMessage::new(&bare).err(), Some(OscError::InvalidAddress));
    let empty: Vec<u8> = vec![0, 0, 0, 0, b',', b's', 0, 0];
    assert_eq!(OscMessage::new(&empty).err(), Some(OscError::InvalidAddress));
}

#[test]
fn non_utf8_address_is_malformed() {
    let v: Vec<u8> = vec![b'/', 0xFF, 0xFE, 0, b',', b's', 0, 0];
    assert_eq!(OscMessage::new(&v).err(), Some(OscError::MalformedAddress));
}

#[test]
fn missing_comma_is_missing_type_tag() {
    let v: Vec<u8> = vec![b'/', b'a', 0, 0, b'x', b's', 0, 0];
    assert_eq!(OscMessage::new(&v).err(), Some(OscError::MissingTypeTag));
}

#[test]
fn short_tag_block_is_truncated() {
    // nothing after the padding
    let v: Vec<u8> = vec![b'/', b'a', 0, 0];
    assert_eq!(OscMessage::new(&v).err(), Some(OscError::TruncatedMessage));
    // comma and tag, but no reserved bytes
    let w: Vec<u8> = vec![b'/', b'a', 0, 0, b',', b's'];
    assert_eq!(OscMessage::new(&w).err(), Some(OscError::TruncatedMessage));
    let x: Vec<u8> = vec![b'/', b'a', 0, 0, b',', b's', 0];
    assert_eq!(OscMessage::new(&x).err(), Some(OscError::TruncatedMessage));
}

#[test]
fn quantize_leaves_aligned_value() {
    let mut v: usize = usize::MAX;
    quantize(&mut v, 3);
    assert_eq!(v, usize::MAX);
}
