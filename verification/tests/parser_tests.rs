//! The earlier decoder and its typed getters.

use nbt::parser::{Tag, TagParseErr};

#[test]
fn parse_single_byte_entry() {
    let input: Vec<u8> = vec![0x0A, 0x00, 0x00, 0x01, 0x00, 0x03, 0x66, 0x6F, 0x6F, 0x2A, 0x00];
    let tag = Tag::parse(&input).unwrap();
    let expected = Tag::CompoundTag(vec![(
        String::new(),
        Tag::CompoundTag(vec![(String::from("foo"), Tag::ByteTag(0x2A))]),
    )]);
    assert_eq!(tag, expected);
}

#[test]
fn parse_list_of_end_tags() {
    // Unlike the current reader, a list declared with element type 0x00
    // decodes each element to the explicit EndTag sentinel.
    let input: Vec<u8> = vec![
        0x09, 0x00, 0x01, b'x', 0x00, 0x00, 0x00, 0x00, 0x02,
    ];
    let tag = Tag::parse(&input).unwrap();
    assert_eq!(
        tag,
        Tag::CompoundTag(vec![(
            String::from("x"),
            Tag::ListTag(vec![Tag::EndTag, Tag::EndTag])
        )])
    );
}

#[test]
fn parse_bad_type_code() {
    let input: Vec<u8> = vec![0x0D, 0x00, 0x00];
    assert_eq!(Tag::parse(&input), Err(TagParseErr::InvalidType));
}

#[test]
fn parse_bad_utf8_name() {
    let input: Vec<u8> = vec![0x01, 0x00, 0x01, 0xFF, 0x2A];
    assert_eq!(Tag::parse(&input), Err(TagParseErr::InvalidUtf8));
}

#[test]
fn parse_truncated_payload() {
    let input: Vec<u8> = vec![0x03, 0x00, 0x00, 0x01, 0x02];
    assert_eq!(Tag::parse(&input), Err(TagParseErr::IoError));
}

#[test]
fn parse_scalars_and_arrays() {
    let input: Vec<u8> = vec![
        0x02, 0x00, 0x01, b's', 0x01, 0x00, // Short 0x0100
        0x0B, 0x00, 0x01, b'i', 0x00, 0x00, 0x00, 0x01, 0x00, 0x00, 0x00, 0x09, // IntArray [9]
        0x0C, 0x00, 0x01, b'l', 0x00, 0x00, 0x00, 0x01, 0x00, 0x00, 0x00, 0x00, 0x00, 0x00,
        0x00, 0x02, // LongArray [2]
        0x08, 0x00, 0x01, b't', 0x00, 0x02, b'o', b'k', // String "ok"
    ];
    let tag = Tag::parse(&input).unwrap();
    let inner = match &tag {
        Tag::CompoundTag(es) => es,
        _ => panic!("expected a compound"),
    };
    assert_eq!(inner.len(), 4);
    assert_eq!(inner[0], (String::from("s"), Tag::ShortTag(0x0100)));
    assert_eq!(inner[1], (String::from("i"), Tag::IntArray(vec![9])));
    assert_eq!(inner[2], (String::from("l"), Tag::LongArray(vec![2])));
    assert_eq!(inner[3], (String::from("t"), Tag::StringTag(String::from("ok"))));
}

#[test]
fn getters_hit_and_miss() {
    assert_eq!(Tag::ByteTag(1).get_as_byte(), Some(1));
    assert_eq!(Tag::ByteTag(1).get_as_short(), None);
    assert_eq!(Tag::ShortTag(2).get_as_short(), Some(2));
    assert_eq!(Tag::IntTag(3).get_as_int(), Some(3));
    assert_eq!(Tag::LongTag(4).get_as_long(), Some(4));
    assert_eq!(
        Tag::FloatTag(1.5f32.to_bits()).get_as_float(),
        Some(1.5f32.to_bits())
    );
    assert_eq!(
        Tag::DoubleTag(2.5f64.to_bits()).get_as_double(),
        Some(2.5f64.to_bits())
    );
    assert_eq!(Tag::ByteArray(vec![1]).get_as_byte_array(), Some(&vec![1]));
    assert_eq!(
        Tag::StringTag(String::from("s")).get_as_string(),
        Some(&String::from("s"))
    );
    assert_eq!(Tag::ListTag(vec![]).get_as_list(), Some(&vec![]));
    assert_eq!(Tag::CompoundTag(vec![]).get_as_compound(), Some(&vec![]));
    assert_eq!(Tag::IntArray(vec![1]).get_as_int_array(), Some(&vec![1]));
    assert_eq!(Tag::LongArray(vec![1]).get_as_long_array(), Some(&vec![1]));
    assert_eq!(Tag::EndTag.get_as_byte(), None);
    assert_eq!(Tag::EndTag.get_as_compound(), None);
}
