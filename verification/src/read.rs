//! The reader: a recursive-descent decoder from raw NBT bytes to a tag
//! tree, verified against the abstract parser in `wire`.

use vstd::prelude::*;
use crate::wire::{
    TagV, WireErr, spec_parse_payload, spec_parse_elems, spec_parse_entries, spec_parse_doc,
    cons_entry, has_key,
};
use crate::tag::{
    Tag, TagError, tag_view, tags_view, entries_view, lemma_tags_view, lemma_entries_view,
};
use crate::scalars::{read_u16_be, read_u32_be, read_u64_be, spec_u32_from_be, spec_u64_from_be};
use crate::strutil::string_from_utf8;

verus! {

/// The codec error reported for an abstract reader error.
pub open spec fn read_err_of(e: WireErr) -> TagError {
    match e {
        WireErr::BadType => TagError::InvalidType,
        WireErr::BadUtf8 => TagError::InvalidUtf8,
        WireErr::Eof => TagError::IoError,
        WireErr::TooLong => TagError::InvalidLength,
    }
}

/// Take `length` bytes starting at `pos`, or report that the input ended.
pub fn eat(input: &Vec<u8>, pos: usize, length: usize) -> (r: Result<Vec<u8>, TagError>)
    requires
        pos <= input.len(),
    ensures
        match r {
            Ok(bytes) => pos + length <= input.len() && bytes@ == input@.subrange(
                pos as int,
                pos + length,
            ),
            Err(e) => pos + length > input.len() && e == TagError::IoError,
        },
{
    if input.len() - pos < length {
        return Err(TagError::IoError);
    }
    let mut out: Vec<u8> = Vec::new();
    let mut j: usize = 0;
    while j < length
        invariant
            j <= length,
            pos + length <= input.len(),
            out@ == input@.subrange(pos as int, pos + j),
        decreases length - j,
    {
        out.push(input[pos + j]);
        proof {
            assert(out@ =~= input@.subrange(pos as int, pos + j + 1));
        }
        j = j + 1;
    }
    Ok(out)
}

/// Whether `es` already holds an entry named `n`.
#[verifier::loop_isolation(false)]
fn contains_name(es: &Vec<(String, Tag)>, n: &String) -> (r: bool)
    ensures
        r == has_key(entries_view(es@), n@),
{
    proof {
        lemma_entries_view(es@);
    }
    let mut i: usize = 0;
    while i < es.len()
        invariant
            i <= es.len(),
            forall|k: int| 0 <= k < i ==> #[trigger] entries_view(es@)[k].0 != n@,
        decreases es@.len() - i,
    {
        if es[i].0 == *n {
            proof {
                assert(entries_view(es@)[i as int].0 == n@);
            }
            return true;
        }
        i = i + 1;
    }
    false
}

impl Tag {
    /// Decode a document from raw NBT bytes: the input is read as the
    /// entries of the root compound, ending at a 0x00 terminator or,
    /// tolerated at this top level only, at the end of the input.
    pub fn read(input: &Vec<u8>) -> (r: Result<Tag, TagError>)
        ensures
            match r {
                Ok(tag) => spec_parse_doc(input@) is Ok && tag@ == spec_parse_doc(input@)->Ok_0,
                Err(e) => spec_parse_doc(input@) is Err && e == read_err_of(
                    spec_parse_doc(input@)->Err_0,
                ),
            },
    {
        match read_entries(input, 0, true) {
            Ok((entries, _end)) => Ok(Tag::CompoundTag(entries)),
            Err(e) => Err(e),
        }
    }

    /// Decode one payload of type `data_type` at `pos`.
    #[verifier::loop_isolation(false)]
    #[verifier::rlimit(60)]
    #[verifier::spinoff_prover]
    fn read_type(data_type: u8, input: &Vec<u8>, pos: usize) -> (r: Result<(Tag, usize), TagError>)
        requires
            pos <= input.len(),
        ensures
            match r {
                Ok((tag, end)) => pos <= end <= input.len() && spec_parse_payload(
                    data_type,
                    input@,
                    pos as int,
                    false,
                ) == Ok::<(TagV, int), WireErr>((tag@, end as int)),
                Err(e) => spec_parse_payload(data_type, input@, pos as int, false) is Err && e
                    == read_err_of(spec_parse_payload(data_type, input@, pos as int, false)->Err_0),
            },
        decreases input.len() - pos, 1int,
    {
        match data_type {
            // Byte (1 byte)
            0x01 => {
                if input.len() - pos < 1 {
                    return Err(TagError::IoError);
                }
                Ok((Tag::ByteTag(#[verifier::truncate] (input[pos] as i8)), pos + 1))
            },
            // Short (2 bytes, big-endian)
            0x02 => {
                if input.len() - pos < 2 {
                    return Err(TagError::IoError);
                }
                Ok((Tag::ShortTag(#[verifier::truncate] (read_u16_be(input, pos) as i16)), pos + 2))
            },
            // Int (4 bytes, big-endian)
            0x03 => {
                if input.len() - pos < 4 {
                    return Err(TagError::IoError);
                }
                Ok((Tag::IntTag(#[verifier::truncate] (read_u32_be(input, pos) as i32)), pos + 4))
            },
            // Long (8 bytes, big-endian)
            0x04 => {
                if input.len() - pos < 8 {
                    return Err(TagError::IoError);
                }
                Ok((Tag::LongTag(#[verifier::truncate] (read_u64_be(input, pos) as i64)), pos + 8))
            },
            // Float (4 bytes, big-endian bit pattern)
            0x05 => {
                if input.len() - pos < 4 {
                    return Err(TagError::IoError);
                }
                Ok((Tag::FloatTag(read_u32_be(input, pos)), pos + 4))
            },
            // Double (8 bytes, big-endian bit pattern)
            0x06 => {
                if input.len() - pos < 8 {
                    return Err(TagError::IoError);
                }
                Ok((Tag::DoubleTag(read_u64_be(input, pos)), pos + 8))
            },
            // Byte Array (i32 length, then length bytes)
            0x07 => {
                if input.len() - pos < 4 {
                    return Err(TagError::IoError);
                }
                let declared = #[verifier::truncate] (read_u32_be(input, pos) as i32);
                let n: usize = if declared < 0 {
                    0
                } else {
                    declared as usize
                };
                if input.len() - (pos + 4) < n {
                    return Err(TagError::IoError);
                }
                let mut out: Vec<i8> = Vec::new();
                let mut j: usize = 0;
                while j < n
                    invariant
                        j <= n,
                        out@ =~= Seq::new(j as nat, |i: int| input@[pos + 4 + i] as i8),
                    decreases n - j,
                {
                    out.push(#[verifier::truncate] (input[pos + 4 + j] as i8));
                    proof {
                        assert(out@ =~= Seq::new(j as nat + 1, |i: int| input@[pos + 4 + i] as i8));
                    }
                    j = j + 1;
                }
                proof {
                    assert(out@ =~= Seq::new(n as nat, |i: int| input@[pos + 4 + i] as i8));
                }
                Ok((Tag::ByteArray(out), pos + 4 + n))
            },
            // String (u16 length, then length bytes of UTF-8)
            0x08 => {
                if input.len() - pos < 2 {
                    return Err(TagError::IoError);
                }
                let n = read_u16_be(input, pos) as usize;
                let bytes = match eat(input, pos + 2, n) {
                    Ok(b) => b,
                    Err(e) => {
                        return Err(e);
                    },
                };
                match string_from_utf8(bytes) {
                    Some(s) => Ok((Tag::StringTag(s), pos + 2 + n)),
                    None => Err(TagError::InvalidUtf8),
                }
            },
            // List (u8 element type, i32 length, then length payloads)
            0x09 => {
                if input.len() - pos < 5 {
                    return Err(TagError::IoError);
                }
                let elem_code = input[pos];
                let declared = #[verifier::truncate] (read_u32_be(input, pos + 1) as i32);
                let n: usize = if declared < 0 {
                    0
                } else {
                    declared as usize
                };
                let mut out: Vec<Tag> = Vec::new();
                let mut cur: usize = pos + 5;
                let mut i: usize = 0;
                while i < n
                    invariant
                        i <= n,
                        pos + 5 <= cur <= input.len(),
                        spec_parse_elems(elem_code, input@, pos + 5, n as nat, false) == (
                        match spec_parse_elems(
                            elem_code,
                            input@,
                            cur as int,
                            (n - i) as nat,
                            false,
                        ) {
                            Ok((l2, e2)) => Ok::<(Seq<TagV>, int), WireErr>(
                                (tags_view(out@) + l2, e2),
                            ),
                            Err(e) => Err(e),
                        }),
                    decreases n - i,
                {
                    let (tag, end) = match Tag::read_type(elem_code, input, cur) {
                        Ok(x) => x,
                        Err(e) => {
                            return Err(e);
                        },
                    };
                    proof {
                        lemma_tags_view(out@.push(tag));
                        lemma_tags_view(out@);
                        assert(tags_view(out@.push(tag)) =~= tags_view(out@) + seq![tag_view(tag)]);
                        assert((tags_view(out@) + seq![tag_view(tag)]) + tags_view(out@)
                            =~= tags_view(out@) + (seq![tag_view(tag)] + tags_view(out@)));
                    }
                    let ghost prev_out = out@;
                    out.push(tag);
                    proof {
                        let suffix = spec_parse_elems(elem_code, input@, end as int, (n - i - 1) as nat, false);
                        if suffix is Ok {
                            assert((tags_view(prev_out) + seq![tag_view(tag)]) + suffix->Ok_0.0
                                =~= tags_view(prev_out) + (seq![tag_view(tag)] + suffix->Ok_0.0));
                        }
                    }
                    cur = end;
                    i = i + 1;
                }
                proof {
                    assert(tags_view(out@) + Seq::<TagV>::empty() =~= tags_view(out@));
                }
                Ok((Tag::ListTag(out), cur))
            },
            // Compound (entries until a 0x00 terminator)
            0x0A => {
                match read_entries(input, pos, false) {
                    Ok((entries, end)) => Ok((Tag::CompoundTag(entries), end)),
                    Err(e) => Err(e),
                }
            },
            // Int Array (i32 length, then length 4-byte big-endian values)
            0x0B => {
                if input.len() - pos < 4 {
                    return Err(TagError::IoError);
                }
                let declared = #[verifier::truncate] (read_u32_be(input, pos) as i32);
                let n: usize = if declared < 0 {
                    0
                } else {
                    declared as usize
                };
                let mut out: Vec<i32> = Vec::new();
                let mut j: usize = 0;
                while j < n
                    invariant
                        j <= n,
                        j > 0 ==> pos + 4 + 4 * j <= input.len(),
                        out@ =~= Seq::new(
                            j as nat,
                            |i: int|
                                spec_u32_from_be(
                                    input@[pos + 4 + 4 * i],
                                    input@[pos + 4 + 4 * i + 1],
                                    input@[pos + 4 + 4 * i + 2],
                                    input@[pos + 4 + 4 * i + 3],
                                ) as i32,
                        ),
                    decreases n - j,
                {
                    if input.len() < 8 || input.len() - 8 < pos + 4 * j {
                        return Err(TagError::IoError);
                    }
                    let v = #[verifier::truncate] (read_u32_be(input, pos + 4 + 4 * j) as i32);
                    out.push(v);
                    proof {
                        assert(out@ =~= Seq::new(
                            j as nat + 1,
                            |i: int|
                                spec_u32_from_be(
                                    input@[pos + 4 + 4 * i],
                                    input@[pos + 4 + 4 * i + 1],
                                    input@[pos + 4 + 4 * i + 2],
                                    input@[pos + 4 + 4 * i + 3],
                                ) as i32,
                        ));
                    }
                    j = j + 1;
                }
                proof {
                    assert(pos + 4 + 4 * (n as int) <= input.len());
                }
                Ok((Tag::IntArray(out), pos + 4 + 4 * n))
            },
            // Long Array (i32 length, then length 8-byte big-endian values)
            0x0C => {
                if input.len() - pos < 4 {
                    return Err(TagError::IoError);
                }
                let declared = #[verifier::truncate] (read_u32_be(input, pos) as i32);
                let n: usize = if declared < 0 {
                    0
                } else {
                    declared as usize
                };
                let mut out: Vec<i64> = Vec::new();
                let mut j: usize = 0;
                while j < n
                    invariant
                        j <= n,
                        j > 0 ==> pos + 4 + 8 * j <= input.len(),
                        out@ =~= Seq::new(
                            j as nat,
                            |i: int|
                                spec_u64_from_be(
                                    input@[pos + 4 + 8 * i],
                                    input@[pos + 4 + 8 * i + 1],
                                    input@[pos + 4 + 8 * i + 2],
                                    input@[pos + 4 + 8 * i + 3],
                                    input@[pos + 4 + 8 * i + 4],
                                    input@[pos + 4 + 8 * i + 5],
                                    input@[pos + 4 + 8 * i + 6],
                                    input@[pos + 4 + 8 * i + 7],
                                ) as i64,
                        ),
                    decreases n - j,
                {
                    if input.len() < 12 || input.len() - 12 < pos + 8 * j {
                        return Err(TagError::IoError);
                    }
                    let v = #[verifier::truncate] (read_u64_be(input, pos + 4 + 8 * j) as i64);
                    out.push(v);
                    proof {
                        assert(out@ =~= Seq::new(
                            j as nat + 1,
                            |i: int|
                                spec_u64_from_be(
                                    input@[pos + 4 + 8 * i],
                                    input@[pos + 4 + 8 * i + 1],
                                    input@[pos + 4 + 8 * i + 2],
                                    input@[pos + 4 + 8 * i + 3],
                                    input@[pos + 4 + 8 * i + 4],
                                    input@[pos + 4 + 8 * i + 5],
                                    input@[pos + 4 + 8 * i + 6],
                                    input@[pos + 4 + 8 * i + 7],
                                ) as i64,
                        ));
                    }
                    j = j + 1;
                }
                proof {
                    assert(pos + 4 + 8 * (n as int) <= input.len());
                }
                Ok((Tag::LongArray(out), pos + 4 + 8 * n))
            },
            _ => Err(TagError::InvalidType),
        }
    }
}

/// Decode compound entries from `pos` until a 0x00 terminator; at the top
/// level only, the end of the input is tolerated in place of the
/// terminator. A later entry replaces an earlier one of the same name.
#[verifier::loop_isolation(false)]
fn read_entries(input: &Vec<u8>, pos: usize, top: bool) -> (r: Result<
    (Vec<(String, Tag)>, usize),
    TagError,
>)
    requires
        pos <= input.len(),
    ensures
        match r {
            Ok((entries, end)) => pos <= end <= input.len() && spec_parse_entries(
                input@,
                pos as int,
                false,
                top,
            ) == Ok::<(Seq<(Seq<char>, TagV)>, int), WireErr>((entries_view(entries@), end as int)),
            Err(e) => spec_parse_entries(input@, pos as int, false, top) is Err && e == read_err_of(
                spec_parse_entries(input@, pos as int, false, top)->Err_0,
            ),
        },
    decreases input.len() - pos, 0int,
{
    if pos == input.len() {
        if top {
            let empty: Vec<(String, Tag)> = Vec::new();
            proof {
                assert(entries_view(empty@) =~= Seq::<(Seq<char>, TagV)>::empty());
            }
            return Ok((empty, pos));
        } else {
            return Err(TagError::IoError);
        }
    }
    let code = input[pos];
    if code == 0x00 {
        let empty: Vec<(String, Tag)> = Vec::new();
        proof {
            assert(entries_view(empty@) =~= Seq::<(Seq<char>, TagV)>::empty());
        }
        return Ok((empty, pos + 1));
    }
    if input.len() - pos < 3 {
        return Err(TagError::IoError);
    }
    let nl = read_u16_be(input, pos + 1) as usize;
    let name_bytes = match eat(input, pos + 3, nl) {
        Ok(b) => b,
        Err(e) => {
            return Err(e);
        },
    };
    let name = match string_from_utf8(name_bytes) {
        Some(s) => s,
        None => {
            return Err(TagError::InvalidUtf8);
        },
    };
    let (tag, pend) = match Tag::read_type(code, input, pos + 3 + nl) {
        Ok(x) => x,
        Err(e) => {
            return Err(e);
        },
    };
    let (mut rest, end) = match read_entries(input, pend, top) {
        Ok(x) => x,
        Err(e) => {
            return Err(e);
        },
    };
    if contains_name(&rest, &name) {
        proof {
            assert(cons_entry(name@, tag_view(tag), entries_view(rest@)) == entries_view(rest@));
        }
        Ok((rest, end))
    } else {
        let ghost old_rest = rest@;
        rest.insert(0, (name, tag));
        proof {
            lemma_entries_view(rest@);
            lemma_entries_view(old_rest);
            assert(entries_view(rest@) =~= seq![(name@, tag_view(tag))] + entries_view(old_rest));
        }
        Ok((rest, end))
    }
}

} // verus!
