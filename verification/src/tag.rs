//! The executable tag tree and its accessors.

use vstd::prelude::*;
use crate::wire::{TagV, count_of, count_list, count_entries};

verus! {

/// The errors the codec reports.
///
/// `IoError` stands for an input that ended where the format required more
/// bytes; `InvalidLength` for a tree whose string or sequence is too long
/// for its wire length prefix.
#[derive(Debug, Clone, Copy, PartialEq, Eq, Structural)]
pub enum TagError {
    InvalidType,
    InvalidUtf8,
    IoError,
    InvalidLength,
}

/// One NBT value: a discriminated tree.
///
/// `FloatTag` and `DoubleTag` carry the IEEE-754 bit patterns of the wire
/// scalars. A compound is an insertion-ordered sequence of uniquely named
/// entries.
#[derive(Debug, PartialEq)]
pub enum Tag {
    ByteTag(i8),
    ShortTag(i16),
    IntTag(i32),
    LongTag(i64),
    FloatTag(u32),
    DoubleTag(u64),
    ByteArray(Vec<i8>),
    StringTag(String),
    ListTag(Vec<Tag>),
    CompoundTag(Vec<(String, Tag)>),
    IntArray(Vec<i32>),
    LongArray(Vec<i64>),
}

/// The abstract value of a tag.
pub open spec fn tag_view(t: Tag) -> TagV
    decreases t,
{
    match t {
        Tag::ByteTag(v) => TagV::Byte(v),
        Tag::ShortTag(v) => TagV::Short(v),
        Tag::IntTag(v) => TagV::Int(v),
        Tag::LongTag(v) => TagV::Long(v),
        Tag::FloatTag(v) => TagV::Float(v),
        Tag::DoubleTag(v) => TagV::Double(v),
        Tag::ByteArray(v) => TagV::Bytes(v@),
        Tag::StringTag(s) => TagV::Str(s@),
        Tag::ListTag(v) => TagV::List(tags_view(v@)),
        Tag::CompoundTag(v) => TagV::Compound(entries_view(v@)),
        Tag::IntArray(v) => TagV::Ints(v@),
        Tag::LongArray(v) => TagV::Longs(v@),
    }
}

/// The abstract values of a sequence of tags.
pub open spec fn tags_view(s: Seq<Tag>) -> Seq<TagV>
    decreases s,
{
    if s.len() == 0 {
        Seq::empty()
    } else {
        seq![tag_view(s[0])] + tags_view(s.drop_first())
    }
}

/// The abstract values of a sequence of named entries.
pub open spec fn entries_view(s: Seq<(String, Tag)>) -> Seq<(Seq<char>, TagV)>
    decreases s,
{
    if s.len() == 0 {
        Seq::empty()
    } else {
        seq![(s[0].0@, tag_view(s[0].1))] + entries_view(s.drop_first())
    }
}

impl View for Tag {
    type V = TagV;

    open spec fn view(&self) -> TagV {
        tag_view(*self)
    }
}

/// `tags_view` maps the sequence elementwise.
pub proof fn lemma_tags_view(s: Seq<Tag>)
    ensures
        tags_view(s).len() == s.len(),
        forall|i: int| 0 <= i < s.len() ==> #[trigger] tags_view(s)[i] == tag_view(s[i]),
    decreases s,
{
    if s.len() > 0 {
        lemma_tags_view(s.drop_first());
        assert forall|i: int| 0 <= i < s.len() implies #[trigger] tags_view(s)[i] == tag_view(
            s[i],
        ) by {
            if i > 0 {
                assert(s.drop_first()[i - 1] == s[i]);
                assert(tags_view(s)[i] == tags_view(s.drop_first())[i - 1]);
            }
        }
    }
}

/// `entries_view` maps the sequence elementwise.
pub proof fn lemma_entries_view(s: Seq<(String, Tag)>)
    ensures
        entries_view(s).len() == s.len(),
        forall|i: int|
            0 <= i < s.len() ==> #[trigger] entries_view(s)[i] == (s[i].0@, tag_view(s[i].1)),
    decreases s,
{
    if s.len() > 0 {
        lemma_entries_view(s.drop_first());
        assert forall|i: int| 0 <= i < s.len() implies #[trigger] entries_view(s)[i] == (
        s[i].0@,
        tag_view(s[i].1),
        ) by {
            if i > 0 {
                assert(s.drop_first()[i - 1] == s[i]);
                assert(entries_view(s)[i] == entries_view(s.drop_first())[i - 1]);
            }
        }
    }
}

/// Dropping the first `i` values drops their leaf counts.
pub proof fn lemma_count_list_skip(s: Seq<TagV>, i: int)
    requires
        0 <= i < s.len(),
    ensures
        count_list(s.skip(i)) == count_of(s[i]) + count_list(s.skip(i + 1)),
{
    assert(s.skip(i)[0] == s[i]);
    assert(s.skip(i).drop_first() =~= s.skip(i + 1));
}

/// Dropping the first `i` entries drops their leaf counts.
pub proof fn lemma_count_entries_skip(s: Seq<(Seq<char>, TagV)>, i: int)
    requires
        0 <= i < s.len(),
    ensures
        count_entries(s.skip(i)) == count_of(s[i].1) + count_entries(s.skip(i + 1)),
{
    assert(s.skip(i)[0] == s[i]);
    assert(s.skip(i).drop_first() =~= s.skip(i + 1));
}

impl Tag {
    /// Add to `counter` the number of scalar leaves in this tree: 1 per
    /// scalar or string, the element count of each typed array, and the
    /// recursive sum over lists and compounds.
    #[verifier::loop_isolation(false)]
    pub fn count_elements(&self, counter: &mut usize)
        requires
            *old(counter) + count_of(tag_view(*self)) <= usize::MAX,
        ensures
            *final(counter) == *old(counter) + count_of(tag_view(*self)),
        decreases *self,
    {
        match self {
            Tag::ByteTag(_) => {
                *counter = *counter + 1;
            },
            Tag::ShortTag(_) => {
                *counter = *counter + 1;
            },
            Tag::IntTag(_) => {
                *counter = *counter + 1;
            },
            Tag::LongTag(_) => {
                *counter = *counter + 1;
            },
            Tag::FloatTag(_) => {
                *counter = *counter + 1;
            },
            Tag::DoubleTag(_) => {
                *counter = *counter + 1;
            },
            Tag::ByteArray(v) => {
                *counter = *counter + v.len();
            },
            Tag::StringTag(_) => {
                *counter = *counter + 1;
            },
            Tag::ListTag(v) => {
                let ghost s = tags_view(v@);
                proof {
                    lemma_tags_view(v@);
                    assert(s.skip(0) =~= s);
                }
                let mut i: usize = 0;
                while i < v.len()
                    invariant
                        i <= v.len(),
                        s == tags_view(v@),
                        s.len() == v@.len(),
                        forall|k: int| 0 <= k < v@.len() ==> #[trigger] s[k] == tag_view(v@[k]),
                        *old(counter) + count_of(tag_view(*self)) <= usize::MAX,
                        count_list(s.skip(i as int)) <= count_of(tag_view(*self)),
                        *counter == *old(counter) + count_of(tag_view(*self)) - count_list(
                            s.skip(i as int),
                        ),
                    decreases v@.len() - i,
                {
                    proof {
                        lemma_count_list_skip(s, i as int);
                        assert(*v == self->ListTag_0);
                        assert(decreases_to!(*self => self->ListTag_0));
                        assert(decreases_to!(*v => v@[i as int]));
                    }
                    v[i].count_elements(counter);
                    i = i + 1;
                }
                proof {
                    assert(s.skip(v@.len() as int) =~= Seq::<TagV>::empty());
                }
            },
            Tag::CompoundTag(v) => {
                let ghost s = entries_view(v@);
                proof {
                    lemma_entries_view(v@);
                    assert(s.skip(0) =~= s);
                }
                let mut i: usize = 0;
                while i < v.len()
                    invariant
                        i <= v.len(),
                        s == entries_view(v@),
                        s.len() == v@.len(),
                        forall|k: int|
                            0 <= k < v@.len() ==> #[trigger] s[k] == (v@[k].0@, tag_view(v@[k].1)),
                        *old(counter) + count_of(tag_view(*self)) <= usize::MAX,
                        count_entries(s.skip(i as int)) <= count_of(tag_view(*self)),
                        *counter == *old(counter) + count_of(tag_view(*self)) - count_entries(
                            s.skip(i as int),
                        ),
                    decreases v@.len() - i,
                {
                    proof {
                        lemma_count_entries_skip(s, i as int);
                        assert(*v == self->CompoundTag_0);
                        assert(decreases_to!(*self => self->CompoundTag_0));
                        assert(decreases_to!(*v => v@[i as int]));
                        assert(decreases_to!(v@[i as int] => v@[i as int].1));
                    }
                    v[i].1.count_elements(counter);
                    i = i + 1;
                }
                proof {
                    assert(s.skip(v@.len() as int) =~= Seq::<(Seq<char>, TagV)>::empty());
                }
            },
            Tag::IntArray(v) => {
                *counter = *counter + v.len();
            },
            Tag::LongArray(v) => {
                *counter = *counter + v.len();
            },
        }
    }
}


impl Tag {
    /// The payload when this is a Byte tag.
    pub fn byte(&self) -> (r: Option<&i8>)
        ensures
            match r {
                Some(v) => self@ == TagV::Byte(*v),
                None => !(self@ is Byte),
            },
    {
        match self {
            Tag::ByteTag(v) => Some(v),
            _ => None,
        }
    }

    /// The payload when this is a Short tag.
    pub fn short(&self) -> (r: Option<&i16>)
        ensures
            match r {
                Some(v) => self@ == TagV::Short(*v),
                None => !(self@ is Short),
            },
    {
        match self {
            Tag::ShortTag(v) => Some(v),
            _ => None,
        }
    }

    /// The payload when this is an Int tag.
    pub fn int_value(&self) -> (r: Option<&i32>)
        ensures
            match r {
                Some(v) => self@ == TagV::Int(*v),
                None => !(self@ is Int),
            },
    {
        match self {
            Tag::IntTag(v) => Some(v),
            _ => None,
        }
    }

    /// The payload when this is a Long tag.
    pub fn long(&self) -> (r: Option<&i64>)
        ensures
            match r {
                Some(v) => self@ == TagV::Long(*v),
                None => !(self@ is Long),
            },
    {
        match self {
            Tag::LongTag(v) => Some(v),
            _ => None,
        }
    }

    /// The IEEE-754 bit pattern when this is a Float tag.
    pub fn float(&self) -> (r: Option<&u32>)
        ensures
            match r {
                Some(v) => self@ == TagV::Float(*v),
                None => !(self@ is Float),
            },
    {
        match self {
            Tag::FloatTag(v) => Some(v),
            _ => None,
        }
    }

    /// The IEEE-754 bit pattern when this is a Double tag.
    pub fn double(&self) -> (r: Option<&u64>)
        ensures
            match r {
                Some(v) => self@ == TagV::Double(*v),
                None => !(self@ is Double),
            },
    {
        match self {
            Tag::DoubleTag(v) => Some(v),
            _ => None,
        }
    }

    /// The payload when this is a ByteArray tag.
    pub fn byte_array(&self) -> (r: Option<&Vec<i8>>)
        ensures
            match r {
                Some(v) => self@ == TagV::Bytes(v@),
                None => !(self@ is Bytes),
            },
    {
        match self {
            Tag::ByteArray(v) => Some(v),
            _ => None,
        }
    }

    /// The payload when this is a String tag.
    pub fn string(&self) -> (r: Option<&String>)
        ensures
            match r {
                Some(v) => self@ == TagV::Str(v@),
                None => !(self@ is Str),
            },
    {
        match self {
            Tag::StringTag(v) => Some(v),
            _ => None,
        }
    }

    /// The elements when this is a List tag.
    pub fn list(&self) -> (r: Option<&Vec<Tag>>)
        ensures
            match r {
                Some(v) => self@ == TagV::List(tags_view(v@)),
                None => !(self@ is List),
            },
    {
        match self {
            Tag::ListTag(v) => Some(v),
            _ => None,
        }
    }

    /// The entries when this is a Compound tag.
    pub fn compound(&self) -> (r: Option<&Vec<(String, Tag)>>)
        ensures
            match r {
                Some(v) => self@ == TagV::Compound(entries_view(v@)),
                None => !(self@ is Compound),
            },
    {
        match self {
            Tag::CompoundTag(v) => Some(v),
            _ => None,
        }
    }

    /// The payload when this is an IntArray tag.
    pub fn int_array(&self) -> (r: Option<&Vec<i32>>)
        ensures
            match r {
                Some(v) => self@ == TagV::Ints(v@),
                None => !(self@ is Ints),
            },
    {
        match self {
            Tag::IntArray(v) => Some(v),
            _ => None,
        }
    }

    /// The payload when this is a LongArray tag.
    pub fn long_array(&self) -> (r: Option<&Vec<i64>>)
        ensures
            match r {
                Some(v) => self@ == TagV::Longs(v@),
                None => !(self@ is Longs),
            },
    {
        match self {
            Tag::LongArray(v) => Some(v),
            _ => None,
        }
    }

    /// A mutable view of the payload when this is a Byte tag.
    pub fn byte_mut(&mut self) -> (r: Option<&mut i8>)
        ensures
            match r {
                Some(v) => old(self)@ == TagV::Byte(*v) && *final(self) == Tag::ByteTag(
                    *final(v),
                ),
                None => !(old(self)@ is Byte) && *final(self) == *old(self),
            },
    {
        match self {
            Tag::ByteTag(v) => Some(v),
            _ => None,
        }
    }

    /// A mutable view of the payload when this is a Short tag.
    pub fn short_mut(&mut self) -> (r: Option<&mut i16>)
        ensures
            match r {
                Some(v) => old(self)@ == TagV::Short(*v) && *final(self) == Tag::ShortTag(
                    *final(v),
                ),
                None => !(old(self)@ is Short) && *final(self) == *old(self),
            },
    {
        match self {
            Tag::ShortTag(v) => Some(v),
            _ => None,
        }
    }

    /// A mutable view of the payload when this is an Int tag.
    pub fn int_mut(&mut self) -> (r: Option<&mut i32>)
        ensures
            match r {
                Some(v) => old(self)@ == TagV::Int(*v) && *final(self) == Tag::IntTag(*final(v)),
                None => !(old(self)@ is Int) && *final(self) == *old(self),
            },
    {
        match self {
            Tag::IntTag(v) => Some(v),
            _ => None,
        }
    }

    /// A mutable view of the payload when this is a Long tag.
    pub fn long_mut(&mut self) -> (r: Option<&mut i64>)
        ensures
            match r {
                Some(v) => old(self)@ == TagV::Long(*v) && *final(self) == Tag::LongTag(
                    *final(v),
                ),
                None => !(old(self)@ is Long) && *final(self) == *old(self),
            },
    {
        match self {
            Tag::LongTag(v) => Some(v),
            _ => None,
        }
    }

    /// A mutable view of the bit pattern when this is a Float tag.
    pub fn float_mut(&mut self) -> (r: Option<&mut u32>)
        ensures
            match r {
                Some(v) => old(self)@ == TagV::Float(*v) && *final(self) == Tag::FloatTag(
                    *final(v),
                ),
                None => !(old(self)@ is Float) && *final(self) == *old(self),
            },
    {
        match self {
            Tag::FloatTag(v) => Some(v),
            _ => None,
        }
    }

    /// A mutable view of the bit pattern when this is a Double tag.
    pub fn double_mut(&mut self) -> (r: Option<&mut u64>)
        ensures
            match r {
                Some(v) => old(self)@ == TagV::Double(*v) && *final(self) == Tag::DoubleTag(
                    *final(v),
                ),
                None => !(old(self)@ is Double) && *final(self) == *old(self),
            },
    {
        match self {
            Tag::DoubleTag(v) => Some(v),
            _ => None,
        }
    }

    /// A mutable view of the payload when this is a ByteArray tag.
    pub fn byte_array_mut(&mut self) -> (r: Option<&mut Vec<i8>>)
        ensures
            match r {
                Some(v) => old(self)@ == TagV::Bytes(v@) && *final(self) == Tag::ByteArray(
                    *final(v),
                ),
                None => !(old(self)@ is Bytes) && *final(self) == *old(self),
            },
    {
        match self {
            Tag::ByteArray(v) => Some(v),
            _ => None,
        }
    }

    /// A mutable view of the payload when this is a String tag.
    pub fn string_mut(&mut self) -> (r: Option<&mut String>)
        ensures
            match r {
                Some(v) => old(self)@ == TagV::Str(v@) && *final(self) == Tag::StringTag(
                    *final(v),
                ),
                None => !(old(self)@ is Str) && *final(self) == *old(self),
            },
    {
        match self {
            Tag::StringTag(v) => Some(v),
            _ => None,
        }
    }

    /// A mutable view of the elements when this is a List tag.
    pub fn list_mut(&mut self) -> (r: Option<&mut Vec<Tag>>)
        ensures
            match r {
                Some(v) => old(self)@ == TagV::List(tags_view(v@)) && *final(self)
                    == Tag::ListTag(*final(v)),
                None => !(old(self)@ is List) && *final(self) == *old(self),
            },
    {
        match self {
            Tag::ListTag(v) => Some(v),
            _ => None,
        }
    }

    /// A mutable view of the entries when this is a Compound tag.
    pub fn compound_mut(&mut self) -> (r: Option<&mut Vec<(String, Tag)>>)
        ensures
            match r {
                Some(v) => old(self)@ == TagV::Compound(entries_view(v@)) && *final(self)
                    == Tag::CompoundTag(*final(v)),
                None => !(old(self)@ is Compound) && *final(self) == *old(self),
            },
    {
        match self {
            Tag::CompoundTag(v) => Some(v),
            _ => None,
        }
    }

    /// A mutable view of the payload when this is an IntArray tag.
    pub fn int_array_mut(&mut self) -> (r: Option<&mut Vec<i32>>)
        ensures
            match r {
                Some(v) => old(self)@ == TagV::Ints(v@) && *final(self) == Tag::IntArray(
                    *final(v),
                ),
                None => !(old(self)@ is Ints) && *final(self) == *old(self),
            },
    {
        match self {
            Tag::IntArray(v) => Some(v),
            _ => None,
        }
    }

    /// A mutable view of the payload when this is a LongArray tag.
    pub fn long_array_mut(&mut self) -> (r: Option<&mut Vec<i64>>)
        ensures
            match r {
                Some(v) => old(self)@ == TagV::Longs(v@) && *final(self) == Tag::LongArray(
                    *final(v),
                ),
                None => !(old(self)@ is Longs) && *final(self) == *old(self),
            },
    {
        match self {
            Tag::LongArray(v) => Some(v),
            _ => None,
        }
    }
}

/// The items joined with a comma-space separator.
pub open spec fn spec_join_comma(items: Seq<Seq<char>>) -> Seq<char>
    decreases items,
{
    if items.len() == 0 {
        Seq::empty()
    } else if items.len() == 1 {
        items[0]
    } else {
        items[0] + seq![',', ' '] + spec_join_comma(items.drop_first())
    }
}

/// Appending one more item extends the joined text by a separator and the
/// item (or is the item itself when the sequence was empty).
pub proof fn lemma_join_comma_push(items: Seq<Seq<char>>, x: Seq<char>)
    ensures
        spec_join_comma(items.push(x)) == if items.len() == 0 {
            x
        } else {
            spec_join_comma(items) + seq![',', ' '] + x
        },
    decreases items,
{
    if items.len() == 0 {
        assert(items.push(x)[0] == x);
    } else if items.len() == 1 {
        assert(items.push(x)[0] == items[0]);
        assert(items.push(x).drop_first() =~= seq![x]);
        assert(spec_join_comma(seq![x]) == x);
    } else {
        assert(items.push(x)[0] == items[0]);
        assert(items.push(x).drop_first() =~= items.drop_first().push(x));
        lemma_join_comma_push(items.drop_first(), x);
        let a = items[0];
        let m = spec_join_comma(items.drop_first());
        assert(a + seq![',', ' '] + (m + seq![',', ' '] + x) =~= a + seq![',', ' '] + m + seq![
            ',',
            ' ',
        ] + x);
    }
}

/// Render already-formatted items as `[a, b, c]`.
#[verifier::loop_isolation(false)]
pub fn list_fmt(items: &Vec<String>) -> (r: String)
    ensures
        r@ == seq!['['] + spec_join_comma(items.deep_view()) + seq![']'],
{
    proof {
        reveal_strlit("[");
        reveal_strlit(", ");
        reveal_strlit("]");
        assert(("[")@ =~= seq!['[']);
        assert((", ")@ =~= seq![',', ' ']);
        assert(("]")@ =~= seq![']']);
    }
    let mut out = String::new();
    out.append("[");
    let mut i: usize = 0;
    while i < items.len()
        invariant
            i <= items.len(),
            out@ == seq!['['] + spec_join_comma(items.deep_view().take(i as int)),
        decreases items@.len() - i,
    {
        proof {
            assert(items.deep_view().take(i as int).push(items@[i as int]@) =~= items.deep_view()
                .take(i as int + 1));
            lemma_join_comma_push(items.deep_view().take(i as int), items@[i as int]@);
        }
        if i != 0 {
            out.append(", ");
        }
        out.append(items[i].as_str());
        i = i + 1;
    }
    proof {
        assert(items.deep_view().take(items@.len() as int) =~= items.deep_view());
    }
    out.append("]");
    out
}

impl Tag {
    /// A structural rendering: integer scalars in decimal, Float and
    /// Double as the decimal of their bit patterns, arrays and lists as
    /// `[e, e]`, compounds as `{k: v}`. The exact text is informational,
    /// not part of the wire contract.
    #[verifier::loop_isolation(false)]
    pub fn render(&self) -> String
        decreases *self,
    {
        match self {
            Tag::ByteTag(v) => crate::strutil::i64_to_string(*v as i64),
            Tag::ShortTag(v) => crate::strutil::i64_to_string(*v as i64),
            Tag::IntTag(v) => crate::strutil::i64_to_string(*v as i64),
            Tag::LongTag(v) => crate::strutil::i64_to_string(*v),
            Tag::FloatTag(v) => crate::strutil::u64_to_string(*v as u64),
            Tag::DoubleTag(v) => crate::strutil::u64_to_string(*v),
            Tag::ByteArray(v) => {
                let mut items: Vec<String> = Vec::new();
                let mut i: usize = 0;
                while i < v.len()
                    invariant
                        i <= v.len(),
                    decreases v@.len() - i,
                {
                    items.push(crate::strutil::i64_to_string(v[i] as i64));
                    i = i + 1;
                }
                list_fmt(&items)
            },
            Tag::StringTag(s) => s.clone(),
            Tag::ListTag(v) => {
                let mut items: Vec<String> = Vec::new();
                let mut i: usize = 0;
                while i < v.len()
                    invariant
                        i <= v.len(),
                    decreases v@.len() - i,
                {
                    proof {
                        assert(decreases_to!(*self => self->ListTag_0));
                        assert(decreases_to!(*v => v@[i as int]));
                    }
                    items.push(v[i].render());
                    i = i + 1;
                }
                list_fmt(&items)
            },
            Tag::CompoundTag(v) => {
                let mut out = String::new();
                out.append("{");
                let mut i: usize = 0;
                while i < v.len()
                    invariant
                        i <= v.len(),
                    decreases v@.len() - i,
                {
                    proof {
                        assert(decreases_to!(*self => self->CompoundTag_0));
                        assert(decreases_to!(*v => v@[i as int]));
                        assert(decreases_to!(v@[i as int] => v@[i as int].1));
                    }
                    if i != 0 {
                        out.append(", ");
                    }
                    out.append(v[i].0.as_str());
                    out.append(": ");
                    let rendered = v[i].1.render();
                    out.append(rendered.as_str());
                    i = i + 1;
                }
                out.append("}");
                out
            },
            Tag::IntArray(v) => {
                let mut items: Vec<String> = Vec::new();
                let mut i: usize = 0;
                while i < v.len()
                    invariant
                        i <= v.len(),
                    decreases v@.len() - i,
                {
                    items.push(crate::strutil::i64_to_string(v[i] as i64));
                    i = i + 1;
                }
                list_fmt(&items)
            },
            Tag::LongArray(v) => {
                let mut items: Vec<String> = Vec::new();
                let mut i: usize = 0;
                while i < v.len()
                    invariant
                        i <= v.len(),
                    decreases v@.len() - i,
                {
                    items.push(crate::strutil::i64_to_string(v[i]));
                    i = i + 1;
                }
                list_fmt(&items)
            },
        }
    }
}

} // verus!
