//! End-to-end scenarios over the byte-level codec.

use nbt::tag::{Tag, TagError};
use std::io::{Read, Write};

fn byte_entry(name: &str, v: i8) -> (String, Tag) {
    (String::from(name), Tag::ByteTag(v))
}

#[test]
fn empty_root_four_bytes() {
    // type=Compound, empty name, immediate End.
    let input: Vec<u8> = vec![0x0A, 0x00, 0x00, 0x00];
    let tag = Tag::read(&input).unwrap();
    let expected = Tag::CompoundTag(vec![(String::new(), Tag::CompoundTag(vec![]))]);
    assert_eq!(tag, expected);

    let mut count: usize = 0;
    tag.count_elements(&mut count);
    assert_eq!(count, 0);

    let mut out: Vec<u8> = Vec::new();
    tag.write(&mut out).unwrap();
    assert_eq!(out, input);
}

#[test]
fn single_byte_tag() {
    // Root compound, one entry named "foo" with Byte 0x2A.
    let input: Vec<u8> = vec![0x0A, 0x00, 0x00, 0x01, 0x00, 0x03, 0x66, 0x6F, 0x6F, 0x2A, 0x00];
    let tag = Tag::read(&input).unwrap();
    let expected = Tag::CompoundTag(vec![(
        String::new(),
        Tag::CompoundTag(vec![byte_entry("foo", 0x2A)]),
    )]);
    assert_eq!(tag, expected);

    let mut count: usize = 0;
    tag.count_elements(&mut count);
    assert_eq!(count, 1);

    let mut out: Vec<u8> = Vec::new();
    tag.write(&mut out).unwrap();
    assert_eq!(out, input);
}

#[test]
fn nested_list_of_compounds() {
    // Root compound with one entry "xs" of type List(Compound, length 2),
    // each inner compound holding one Int entry "n".
    let inner1 = Tag::CompoundTag(vec![(String::from("n"), Tag::IntTag(1))]);
    let inner2 = Tag::CompoundTag(vec![(String::from("n"), Tag::IntTag(2))]);
    let root = Tag::CompoundTag(vec![(
        String::new(),
        Tag::CompoundTag(vec![(String::from("xs"), Tag::ListTag(vec![inner1, inner2]))]),
    )]);

    let mut out: Vec<u8> = Vec::new();
    root.write(&mut out).unwrap();

    // Layout: 0A 00 00 | 09 00 02 'x' 's' | 0A | 00 00 00 02 | elems | 00.
    assert_eq!(out[0], 0x0A);
    assert_eq!(out[3], 0x09);
    assert_eq!(&out[4..8], &[0x00, 0x02, b'x', b's']);
    // Declared list element type is Compound.
    assert_eq!(out[8], 0x0A);
    assert_eq!(&out[9..13], &[0x00, 0x00, 0x00, 0x02]);
    // Each inner compound ends with its 0x00 terminator.
    let elem = [0x03, 0x00, 0x01, b'n', 0x00, 0x00, 0x00, 0x01, 0x00];
    assert_eq!(&out[13..22], &elem);
    assert_eq!(out[21], 0x00);
    assert_eq!(out[30], 0x00);
    // The outer compound ends with its own terminator.
    assert_eq!(out[out.len() - 1], 0x00);

    let back = Tag::read(&out).unwrap();
    assert_eq!(back, root);

    let mut count: usize = 0;
    root.count_elements(&mut count);
    assert_eq!(count, 2);
}

#[test]
fn utf8_name_round_trip() {
    // "héllo" encodes to 6 UTF-8 bytes.
    let name = String::from("h\u{e9}llo");
    let root = Tag::CompoundTag(vec![(
        String::new(),
        Tag::CompoundTag(vec![(name.clone(), Tag::ByteTag(7))]),
    )]);
    let mut out: Vec<u8> = Vec::new();
    root.write(&mut out).unwrap();

    // Entry header of the named tag: type 01, then the 2-byte length 6.
    assert_eq!(out[3], 0x01);
    assert_eq!(&out[4..6], &[0x00, 0x06]);
    assert_eq!(&out[6..12], "h\u{e9}llo".as_bytes());

    let back = Tag::read(&out).unwrap();
    assert_eq!(back, root);
}

#[test]
fn int_array_big_endian_payload() {
    let values: Vec<i32> = vec![1, -1, i32::MAX];
    let root = Tag::CompoundTag(vec![(
        String::new(),
        Tag::CompoundTag(vec![(String::from("a"), Tag::IntArray(values))]),
    )]);
    let mut out: Vec<u8> = Vec::new();
    root.write(&mut out).unwrap();

    // Entry: 0B 00 01 'a' | length 3 | 12 payload bytes, big-endian.
    assert_eq!(out[3], 0x0B);
    assert_eq!(&out[7..11], &[0x00, 0x00, 0x00, 0x03]);
    assert_eq!(&out[11..15], &[0x00, 0x00, 0x00, 0x01]);
    assert_eq!(&out[15..19], &[0xFF, 0xFF, 0xFF, 0xFF]);
    assert_eq!(&out[19..23], &[0x7F, 0xFF, 0xFF, 0xFF]);

    let back = Tag::read(&out).unwrap();
    assert_eq!(back, root);
}

#[test]
fn gzip_envelope_transparent() {
    let raw: Vec<u8> = vec![0x0A, 0x00, 0x00, 0x01, 0x00, 0x03, 0x66, 0x6F, 0x6F, 0x2A, 0x00];
    let plain_tag = Tag::read(&raw).unwrap();

    let mut enc = flate2::write::GzEncoder::new(Vec::new(), flate2::Compression::default());
    enc.write_all(&raw).unwrap();
    let framed = enc.finish().unwrap();

    assert!(nbt::files::is_gzip(&framed));
    assert!(!nbt::files::is_gzip(&raw));

    let mut dec = flate2::read::GzDecoder::new(&framed[..]);
    let mut unframed: Vec<u8> = Vec::new();
    dec.read_to_end(&mut unframed).unwrap();

    let tag = Tag::read(&unframed).unwrap();
    assert_eq!(tag, plain_tag);
}

#[test]
fn malformed_type_code_is_invalid_type() {
    let input: Vec<u8> = vec![0x0D, 0x00, 0x00];
    assert_eq!(Tag::read(&input), Err(TagError::InvalidType));
}

#[test]
fn truncated_string_is_io_error() {
    // Entry of type String declaring 5 bytes with only 1 present.
    let input: Vec<u8> = vec![0x08, 0x00, 0x00, 0x00, 0x05, 0x61];
    assert_eq!(Tag::read(&input), Err(TagError::IoError));
}

#[test]
fn invalid_utf8_name_is_invalid_utf8() {
    let input: Vec<u8> = vec![0x01, 0x00, 0x01, 0xFF, 0x2A];
    assert_eq!(Tag::read(&input), Err(TagError::InvalidUtf8));
}

#[test]
fn writing_byte_root_is_invalid_type() {
    let mut out: Vec<u8> = Vec::new();
    assert_eq!(Tag::ByteTag(1).write(&mut out), Err(TagError::InvalidType));
}

#[test]
fn writing_heterogeneous_list_is_invalid_type() {
    let root = Tag::CompoundTag(vec![(
        String::new(),
        Tag::ListTag(vec![Tag::ByteTag(1), Tag::IntTag(2)]),
    )]);
    let mut out: Vec<u8> = Vec::new();
    assert_eq!(root.write(&mut out), Err(TagError::InvalidType));
}

#[test]
fn reading_nonempty_list_of_end_fails() {
    // Entry "x" of type List with element type 0x00 and length 1.
    let input: Vec<u8> = vec![
        0x09, 0x00, 0x01, b'x', 0x00, 0x00, 0x00, 0x00, 0x01,
    ];
    assert_eq!(Tag::read(&input), Err(TagError::InvalidType));
}

#[test]
fn empty_list_of_end_round_trips() {
    let root = Tag::CompoundTag(vec![(
        String::new(),
        Tag::CompoundTag(vec![(String::from("l"), Tag::ListTag(vec![]))]),
    )]);
    let mut out: Vec<u8> = Vec::new();
    root.write(&mut out).unwrap();
    // List header: element type 0x00, length 0.
    assert_eq!(out[3], 0x09);
    assert_eq!(&out[7..12], &[0x00, 0x00, 0x00, 0x00, 0x00]);
    let back = Tag::read(&out).unwrap();
    assert_eq!(back, root);
}

#[test]
fn truncated_inner_compound_is_io_error() {
    // A nested compound whose body never reaches its terminator.
    let input: Vec<u8> = vec![0x0A, 0x00, 0x00];
    assert_eq!(Tag::read(&input), Err(TagError::IoError));
}

#[test]
fn top_level_end_of_stream_is_tolerated() {
    // No terminator at the very top level: an implicit end.
    let input: Vec<u8> = vec![0x01, 0x00, 0x00, 0x2A];
    let tag = Tag::read(&input).unwrap();
    assert_eq!(tag, Tag::CompoundTag(vec![(String::new(), Tag::ByteTag(0x2A))]));

    let empty: Vec<u8> = Vec::new();
    assert_eq!(Tag::read(&empty), Ok(Tag::CompoundTag(vec![])));
}

#[test]
fn swapping_scalar_bytes_changes_the_parse() {
    // A Short whose two big-endian payload bytes differ.
    let input: Vec<u8> = vec![0x02, 0x00, 0x00, 0x01, 0x02];
    let swapped: Vec<u8> = vec![0x02, 0x00, 0x00, 0x02, 0x01];
    let a = Tag::read(&input).unwrap();
    let b = Tag::read(&swapped).unwrap();
    assert_eq!(a, Tag::CompoundTag(vec![(String::new(), Tag::ShortTag(0x0102))]));
    assert_eq!(b, Tag::CompoundTag(vec![(String::new(), Tag::ShortTag(0x0201))]));
    assert_ne!(a, b);
}

#[test]
fn every_scalar_width_round_trips() {
    let root = Tag::CompoundTag(vec![(
        String::new(),
        Tag::CompoundTag(vec![
            (String::from("b"), Tag::ByteTag(-7)),
            (String::from("s"), Tag::ShortTag(-300)),
            (String::from("i"), Tag::IntTag(-70000)),
            (String::from("l"), Tag::LongTag(-5_000_000_000)),
            (String::from("f"), Tag::FloatTag(1.5f32.to_bits())),
            (String::from("d"), Tag::DoubleTag(2.25f64.to_bits())),
            (String::from("ba"), Tag::ByteArray(vec![-1, 0, 1])),
            (String::from("st"), Tag::StringTag(String::from("text"))),
            (String::from("la"), Tag::LongArray(vec![i64::MIN, i64::MAX])),
        ]),
    )]);
    let mut out: Vec<u8> = Vec::new();
    root.write(&mut out).unwrap();
    let back = Tag::read(&out).unwrap();
    assert_eq!(back, root);

    let mut count: usize = 0;
    root.count_elements(&mut count);
    // 6 scalars + 3 array bytes + 1 string + 2 longs.
    assert_eq!(count, 12);
}

#[test]
fn long_scalar_is_big_endian() {
    let root = Tag::CompoundTag(vec![(
        String::new(),
        Tag::LongTag(0x0102030405060708),
    )]);
    let mut out: Vec<u8> = Vec::new();
    root.write(&mut out).unwrap();
    assert_eq!(
        &out[3..11],
        &[0x01, 0x02, 0x03, 0x04, 0x05, 0x06, 0x07, 0x08]
    );
}

#[test]
fn duplicate_names_keep_the_later_entry() {
    // Two entries named "a": the later one wins, as map insertion would.
    let input: Vec<u8> = vec![
        0x01, 0x00, 0x01, b'a', 0x01, // a = Byte(1)
        0x01, 0x00, 0x01, b'a', 0x02, // a = Byte(2)
    ];
    let tag = Tag::read(&input).unwrap();
    assert_eq!(tag, Tag::CompoundTag(vec![(String::from("a"), Tag::ByteTag(2))]));
}

#[test]
fn eat_takes_exact_bytes() {
    let input: Vec<u8> = vec![10, 20, 30, 40];
    assert_eq!(nbt::read::eat(&input, 1, 2), Ok(vec![20, 30]));
    assert_eq!(nbt::read::eat(&input, 3, 2), Err(TagError::IoError));
}

#[test]
fn oversized_string_is_invalid_length() {
    let big = "a".repeat(70_000);
    let root = Tag::CompoundTag(vec![(
        String::new(),
        Tag::StringTag(big),
    )]);
    let mut out: Vec<u8> = Vec::new();
    assert_eq!(root.write(&mut out), Err(TagError::InvalidLength));
}

#[test]
fn oversized_name_is_invalid_length() {
    let big = "n".repeat(70_000);
    let root = Tag::CompoundTag(vec![(big, Tag::ByteTag(1))]);
    let mut out: Vec<u8> = Vec::new();
    assert_eq!(root.write(&mut out), Err(TagError::InvalidLength));
}

#[test]
fn write_then_read_then_write_is_stable() {
    // Bytes that parse, re-emitted, parse to the same tree.
    let input: Vec<u8> = vec![
        0x0A, 0x00, 0x00, 0x02, 0x00, 0x01, b's', 0x12, 0x34, 0x00,
    ];
    let first = Tag::read(&input).unwrap();
    let mut again: Vec<u8> = Vec::new();
    first.write(&mut again).unwrap();
    let second = Tag::read(&again).unwrap();
    assert_eq!(first, second);
    assert_eq!(again, input);
}
