//! The tag model: accessors, mutation, counting, and rendering.

use nbt::tag::{Tag, list_fmt};

#[test]
fn read_accessors_hit_and_miss() {
    assert_eq!(Tag::ByteTag(5).byte(), Some(&5));
    assert_eq!(Tag::ShortTag(5).byte(), None);
    assert_eq!(Tag::ShortTag(-2).short(), Some(&-2));
    assert_eq!(Tag::IntTag(9).int_value(), Some(&9));
    assert_eq!(Tag::LongTag(10).long(), Some(&10));
    assert_eq!(Tag::FloatTag(1.0f32.to_bits()).float(), Some(&1.0f32.to_bits()));
    assert_eq!(Tag::DoubleTag(2.0f64.to_bits()).double(), Some(&2.0f64.to_bits()));
    assert_eq!(Tag::ByteArray(vec![1, 2]).byte_array(), Some(&vec![1, 2]));
    assert_eq!(
        Tag::StringTag(String::from("x")).string(),
        Some(&String::from("x"))
    );
    assert_eq!(Tag::ListTag(vec![]).list(), Some(&vec![]));
    assert_eq!(Tag::CompoundTag(vec![]).compound(), Some(&vec![]));
    assert_eq!(Tag::IntArray(vec![3]).int_array(), Some(&vec![3]));
    assert_eq!(Tag::LongArray(vec![4]).long_array(), Some(&vec![4]));
    assert_eq!(Tag::ByteTag(0).string(), None);
    assert_eq!(Tag::ByteTag(0).compound(), None);
}

#[test]
fn mut_accessors_update_in_place() {
    let mut t = Tag::ByteTag(1);
    if let Some(v) = t.byte_mut() {
        *v = 9;
    }
    assert_eq!(t, Tag::ByteTag(9));
    assert!(t.short_mut().is_none());

    let mut s = Tag::StringTag(String::from("a"));
    if let Some(v) = s.string_mut() {
        v.push('b');
    }
    assert_eq!(s, Tag::StringTag(String::from("ab")));

    let mut l = Tag::ListTag(vec![Tag::IntTag(1)]);
    if let Some(v) = l.list_mut() {
        v.push(Tag::IntTag(2));
    }
    assert_eq!(l, Tag::ListTag(vec![Tag::IntTag(1), Tag::IntTag(2)]));

    let mut c = Tag::CompoundTag(vec![]);
    if let Some(v) = c.compound_mut() {
        v.push((String::from("k"), Tag::LongTag(7)));
    }
    assert_eq!(
        c,
        Tag::CompoundTag(vec![(String::from("k"), Tag::LongTag(7))])
    );

    let mut ia = Tag::IntArray(vec![1]);
    if let Some(v) = ia.int_array_mut() {
        v[0] = 2;
    }
    assert_eq!(ia, Tag::IntArray(vec![2]));

    let mut sh = Tag::ShortTag(1);
    if let Some(v) = sh.short_mut() {
        *v = -1;
    }
    assert_eq!(sh, Tag::ShortTag(-1));

    let mut i = Tag::IntTag(1);
    if let Some(v) = i.int_mut() {
        *v = 3;
    }
    assert_eq!(i, Tag::IntTag(3));

    let mut lo = Tag::LongTag(1);
    if let Some(v) = lo.long_mut() {
        *v = 4;
    }
    assert_eq!(lo, Tag::LongTag(4));

    let mut f = Tag::FloatTag(0);
    if let Some(v) = f.float_mut() {
        *v = 3.5f32.to_bits();
    }
    assert_eq!(f, Tag::FloatTag(3.5f32.to_bits()));

    let mut d = Tag::DoubleTag(0);
    if let Some(v) = d.double_mut() {
        *v = 4.5f64.to_bits();
    }
    assert_eq!(d, Tag::DoubleTag(4.5f64.to_bits()));

    let mut ba = Tag::ByteArray(vec![]);
    if let Some(v) = ba.byte_array_mut() {
        v.push(5);
    }
    assert_eq!(ba, Tag::ByteArray(vec![5]));

    let mut la = Tag::LongArray(vec![]);
    if let Some(v) = la.long_array_mut() {
        v.push(6);
    }
    assert_eq!(la, Tag::LongArray(vec![6]));
}

#[test]
fn count_elements_sums_leaves() {
    let tree = Tag::CompoundTag(vec![
        (String::from("b"), Tag::ByteTag(1)),
        (String::from("arr"), Tag::ByteArray(vec![1, 2, 3])),
        (
            String::from("list"),
            Tag::ListTag(vec![Tag::IntTag(1), Tag::IntTag(2)]),
        ),
        (
            String::from("nest"),
            Tag::CompoundTag(vec![(String::from("ia"), Tag::IntArray(vec![4, 5]))]),
        ),
        (String::from("s"), Tag::StringTag(String::from("hello"))),
    ]);
    let mut count: usize = 0;
    tree.count_elements(&mut count);
    // 1 byte + 3 array bytes + 2 list ints + 2 nested ints + 1 string.
    assert_eq!(count, 9);

    // The counter accumulates on top of its starting value.
    let mut base: usize = 100;
    tree.count_elements(&mut base);
    assert_eq!(base, 109);
}

#[test]
fn list_fmt_joins_with_brackets() {
    let items: Vec<String> = vec![];
    assert_eq!(list_fmt(&items), "[]");
    let items = vec![String::from("1")];
    assert_eq!(list_fmt(&items), "[1]");
    let items = vec![String::from("1"), String::from("2"), String::from("3")];
    assert_eq!(list_fmt(&items), "[1, 2, 3]");
}

#[test]
fn render_is_structural() {
    assert_eq!(Tag::ByteTag(42).render(), "42");
    assert_eq!(Tag::ShortTag(-3).render(), "-3");
    assert_eq!(Tag::LongTag(-5).render(), "-5");
    assert_eq!(Tag::StringTag(String::from("hi")).render(), "hi");
    assert_eq!(Tag::ByteArray(vec![1, -2]).render(), "[1, -2]");
    assert_eq!(
        Tag::ListTag(vec![Tag::IntTag(1), Tag::IntTag(2)]).render(),
        "[1, 2]"
    );
    assert_eq!(
        Tag::CompoundTag(vec![(String::from("k"), Tag::IntTag(7))]).render(),
        "{k: 7}"
    );
    // Float and Double render the decimal of their bit patterns.
    assert_eq!(Tag::FloatTag(0).render(), "0");
    assert_eq!(Tag::DoubleTag(1).render(), "1");
}

#[test]
fn is_gzip_checks_magic() {
    assert!(nbt::files::is_gzip(&vec![0x1F, 0x8B, 0x08]));
    assert!(!nbt::files::is_gzip(&vec![0x0A, 0x00]));
    assert!(!nbt::files::is_gzip(&vec![0x1F]));
    assert!(!nbt::files::is_gzip(&Vec::new()));
}

#[test]
fn scalar_byte_helpers_round_trip() {
    let mut buf: Vec<u8> = Vec::new();
    nbt::scalars::push_u16_be(&mut buf, 0xBEEF);
    nbt::scalars::push_u32_be(&mut buf, 0xDEADBEEF);
    nbt::scalars::push_u64_be(&mut buf, 0x0102030405060708);
    assert_eq!(buf[0..2], [0xBE, 0xEF]);
    assert_eq!(buf[2..6], [0xDE, 0xAD, 0xBE, 0xEF]);
    assert_eq!(buf[6..14], [1, 2, 3, 4, 5, 6, 7, 8]);
    assert_eq!(nbt::scalars::read_u16_be(&buf, 0), 0xBEEF);
    assert_eq!(nbt::scalars::read_u32_be(&buf, 2), 0xDEADBEEF);
    assert_eq!(nbt::scalars::read_u64_be(&buf, 6), 0x0102030405060708);
}
