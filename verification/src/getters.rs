//! Typed read accessors over the earlier decoder's tag type.

use vstd::prelude::*;
use crate::parser::Tag;

verus! {

impl Tag {
    /// The payload when this is a Byte tag.
    pub fn get_as_byte(&self) -> (r: Option<i8>)
        ensures
            match r {
                Some(v) => *self == Tag::ByteTag(v),
                None => !(self is ByteTag),
            },
    {
        match self {
            Tag::ByteTag(b) => Some(*b),
            _ => None,
        }
    }

    /// The payload when this is a Short tag.
    pub fn get_as_short(&self) -> (r: Option<i16>)
        ensures
            match r {
                Some(v) => *self == Tag::ShortTag(v),
                None => !(self is ShortTag),
            },
    {
        match self {
            Tag::ShortTag(s) => Some(*s),
            _ => None,
        }
    }

    /// The payload when this is an Int tag.
    pub fn get_as_int(&self) -> (r: Option<i32>)
        ensures
            match r {
                Some(v) => *self == Tag::IntTag(v),
                None => !(self is IntTag),
            },
    {
        match self {
            Tag::IntTag(i) => Some(*i),
            _ => None,
        }
    }

    /// The payload when this is a Long tag.
    pub fn get_as_long(&self) -> (r: Option<i64>)
        ensures
            match r {
                Some(v) => *self == Tag::LongTag(v),
                None => !(self is LongTag),
            },
    {
        match self {
            Tag::LongTag(l) => Some(*l),
            _ => None,
        }
    }

    /// The IEEE-754 bit pattern when this is a Float tag.
    pub fn get_as_float(&self) -> (r: Option<u32>)
        ensures
            match r {
                Some(v) => *self == Tag::FloatTag(v),
                None => !(self is FloatTag),
            },
    {
        match self {
            Tag::FloatTag(f) => Some(*f),
            _ => None,
        }
    }

    /// The IEEE-754 bit pattern when this is a Double tag.
    pub fn get_as_double(&self) -> (r: Option<u64>)
        ensures
            match r {
                Some(v) => *self == Tag::DoubleTag(v),
                None => !(self is DoubleTag),
            },
    {
        match self {
            Tag::DoubleTag(d) => Some(*d),
            _ => None,
        }
    }

    /// The payload when this is a ByteArray tag.
    pub fn get_as_byte_array(&self) -> (r: Option<&Vec<i8>>)
        ensures
            match r {
                Some(v) => self is ByteArray && v == &self->ByteArray_0,
                None => !(self is ByteArray),
            },
    {
        match self {
            Tag::ByteArray(b) => Some(b),
            _ => None,
        }
    }

    /// The payload when this is a String tag.
    pub fn get_as_string(&self) -> (r: Option<&String>)
        ensures
            match r {
                Some(v) => self is StringTag && v == &self->StringTag_0,
                None => !(self is StringTag),
            },
    {
        match self {
            Tag::StringTag(s) => Some(s),
            _ => None,
        }
    }

    /// The elements when this is a List tag.
    pub fn get_as_list(&self) -> (r: Option<&Vec<Tag>>)
        ensures
            match r {
                Some(v) => self is ListTag && v == &self->ListTag_0,
                None => !(self is ListTag),
            },
    {
        match self {
            Tag::ListTag(l) => Some(l),
            _ => None,
        }
    }

    /// The entries when this is a Compound tag.
    pub fn get_as_compound(&self) -> (r: Option<&Vec<(String, Tag)>>)
        ensures
            match r {
                Some(v) => self is CompoundTag && v == &self->CompoundTag_0,
                None => !(self is CompoundTag),
            },
    {
        match self {
            Tag::CompoundTag(c) => Some(c),
            _ => None,
        }
    }

    /// The payload when this is an IntArray tag.
    pub fn get_as_int_array(&self) -> (r: Option<&Vec<i32>>)
        ensures
            match r {
                Some(v) => self is IntArray && v == &self->IntArray_0,
                None => !(self is IntArray),
            },
    {
        match self {
            Tag::IntArray(i) => Some(i),
            _ => None,
        }
    }

    /// The payload when this is a LongArray tag.
    pub fn get_as_long_array(&self) -> (r: Option<&Vec<i64>>)
        ensures
            match r {
                Some(v) => self is LongArray && v == &self->LongArray_0,
                None => !(self is LongArray),
            },
    {
        match self {
            Tag::LongArray(l) => Some(l),
            _ => None,
        }
    }
}

} // verus!
