//! An earlier generation of the decoder, kept alongside the current one:
//! its tag type carries the wire's `End` sentinel as an explicit variant,
//! and a value position whose type code is 0x00 decodes to `EndTag`
//! consuming no bytes (so a list declared with element type 0x00 decodes
//! to that many `EndTag`s).

use vstd::prelude::*;
use crate::wire::{
    TagV, WireErr, spec_parse_payload, spec_parse_entries, spec_parse_doc_legacy, cons_entry,
    has_key,
};
use crate::scalars::{read_u16_be, read_u32_be, read_u64_be, spec_u32_from_be, spec_u64_from_be};
use crate::strutil::string_from_utf8;
use crate::read::eat;

verus! {

/// The errors this decoder reports.
#[derive(Debug, Clone, Copy, PartialEq, Eq, Structural)]
pub enum TagParseErr {
    InvalidType,
    InvalidUtf8,
    IoError,
}

/// One decoded value, the wire sentinel included.
#[derive(Debug, PartialEq)]
pub enum Tag {
    EndTag,
    ByteTag(i8),
    ShortTag(i16),
    IntTag(i32),
    LongTag(i64),
    FloatTag(u32),
    DoubleTag(u64),
    ByteArray(Vec<i8>),
    StringTag(String),
    ListTag(Vec<Tag>),
    CompoundTag(Vec<(String, Tag)>),
    IntArray(Vec<i32>),
    LongArray(Vec<i64>),
}

/// The abstract value of a decoded tag.
pub open spec fn ptag_view(t: Tag) -> TagV
    decreases t,
{
    match t {
        Tag::EndTag => TagV::End,
        Tag::ByteTag(v) => TagV::Byte(v),
        Tag::ShortTag(v) => TagV::Short(v),
        Tag::IntTag(v) => TagV::Int(v),
        Tag::LongTag(v) => TagV::Long(v),
        Tag::FloatTag(v) => TagV::Float(v),
        Tag::DoubleTag(v) => TagV::Double(v),
        Tag::ByteArray(v) => TagV::Bytes(v@),
        Tag::StringTag(s) => TagV::Str(s@),
        Tag::ListTag(v) => TagV::List(ptags_view(v@)),
        Tag::CompoundTag(v) => TagV::Compound(pentries_view(v@)),
        Tag::IntArray(v) => TagV::Ints(v@),
        Tag::LongArray(v) => TagV::Longs(v@),
    }
}

/// The abstract values of a sequence of decoded tags.
pub open spec fn ptags_view(s: Seq<Tag>) -> Seq<TagV>
    decreases s,
{
    if s.len() == 0 {
        Seq::empty()
    } else {
        seq![ptag_view(s[0])] + ptags_view(s.drop_first())
    }
}

/// The abstract values of a sequence of decoded entries.
pub open spec fn pentries_view(s: Seq<(String, Tag)>) -> Seq<(Seq<char>, TagV)>
    decreases s,
{
    if s.len() == 0 {
        Seq::empty()
    } else {
        seq![(s[0].0@, ptag_view(s[0].1))] + pentries_view(s.drop_first())
    }
}

impl View for Tag {
    type V = TagV;

    open spec fn view(&self) -> TagV {
        ptag_view(*self)
    }
}

/// `ptags_view` maps the sequence elementwise.
pub proof fn lemma_ptags_view(s: Seq<Tag>)
    ensures
        ptags_view(s).len() == s.len(),
        forall|i: int| 0 <= i < s.len() ==> #[trigger] ptags_view(s)[i] == ptag_view(s[i]),
    decreases s,
{
    if s.len() > 0 {
        lemma_ptags_view(s.drop_first());
        assert forall|i: int| 0 <= i < s.len() implies #[trigger] ptags_view(s)[i] == ptag_view(
            s[i],
        ) by {
            if i > 0 {
                assert(s.drop_first()[i - 1] == s[i]);
                assert(ptags_view(s)[i] == ptags_view(s.drop_first())[i - 1]);
            }
        }
    }
}

/// `pentries_view` maps the sequence elementwise.
pub proof fn lemma_pentries_view(s: Seq<(String, Tag)>)
    ensures
        pentries_view(s).len() == s.len(),
        forall|i: int|
            0 <= i < s.len() ==> #[trigger] pentries_view(s)[i] == (s[i].0@, ptag_view(s[i].1)),
    decreases s,
{
    if s.len() > 0 {
        lemma_pentries_view(s.drop_first());
        assert forall|i: int| 0 <= i < s.len() implies #[trigger] pentries_view(s)[i] == (
        s[i].0@,
        ptag_view(s[i].1),
        ) by {
            if i > 0 {
                assert(s.drop_first()[i - 1] == s[i]);
                assert(pentries_view(s)[i] == pentries_view(s.drop_first())[i - 1]);
            }
        }
    }
}

/// The error this decoder reports for an abstract reader error.
pub open spec fn parse_err_of(e: WireErr) -> TagParseErr {
    match e {
        WireErr::BadType => TagParseErr::InvalidType,
        WireErr::BadUtf8 => TagParseErr::InvalidUtf8,
        WireErr::Eof => TagParseErr::IoError,
        WireErr::TooLong => TagParseErr::IoError,
    }
}

/// Whether `es` already holds an entry named `n`.
#[verifier::loop_isolation(false)]
fn pcontains_name(es: &Vec<(String, Tag)>, n: &String) -> (r: bool)
    ensures
        r == has_key(pentries_view(es@), n@),
{
    proof {
        lemma_pentries_view(es@);
    }
    let mut i: usize = 0;
    while i < es.len()
        invariant
            i <= es.len(),
            forall|k: int| 0 <= k < i ==> #[trigger] pentries_view(es@)[k].0 != n@,
        decreases es@.len() - i,
    {
        if es[i].0 == *n {
            proof {
                assert(pentries_view(es@)[i as int].0 == n@);
            }
            return true;
        }
        i = i + 1;
    }
    false
}

impl Tag {
    /// Decode a document from raw NBT bytes: the input is read as the
    /// entries of the root compound, ending at a 0x00 terminator or,
    /// tolerated at this top level only, at the end of the input.
    pub fn parse(input: &Vec<u8>) -> (r: Result<Tag, TagParseErr>)
        ensures
            match r {
                Ok(tag) => spec_parse_doc_legacy(input@) is Ok && tag@ == spec_parse_doc_legacy(
                    input@,
                )->Ok_0,
                Err(e) => spec_parse_doc_legacy(input@) is Err && e == parse_err_of(
                    spec_parse_doc_legacy(input@)->Err_0,
                ),
            },
    {
        match parse_entries(input, 0, true) {
            Ok((entries, _end)) => Ok(Tag::CompoundTag(entries)),
            Err(e) => Err(e),
        }
    }

    /// Decode one payload of type `data_type` at `pos`; type code 0x00
    /// decodes to `EndTag` and consumes nothing.
    #[verifier::loop_isolation(false)]
    #[verifier::rlimit(60)]
    #[verifier::spinoff_prover]
    fn parse_type(data_type: u8, input: &Vec<u8>, pos: usize) -> (r: Result<
        (Tag, usize),
        TagParseErr,
    >)
        requires
            pos <= input.len(),
        ensures
            match r {
                Ok((tag, end)) => pos <= end <= input.len() && spec_parse_payload(
                    data_type,
                    input@,
                    pos as int,
                    true,
                ) == Ok::<(TagV, int), WireErr>((tag@, end as int)),
                Err(e) => spec_parse_payload(data_type, input@, pos as int, true) is Err && e
                    == parse_err_of(spec_parse_payload(data_type, input@, pos as int, true)->Err_0),
            },
        decreases input.len() - pos, 1int,
    {
        match data_type {
            0x00 => Ok((Tag::EndTag, pos)),
            // Byte (1 byte)
            0x01 => {
                if input.len() - pos < 1 {
                    return Err(TagParseErr::IoError);
                }
                Ok((Tag::ByteTag(#[verifier::truncate] (input[pos] as i8)), pos + 1))
            },
            // Short (2 bytes)
            0x02 => {
                if input.len() - pos < 2 {
                    return Err(TagParseErr::IoError);
                }
                Ok(
                    (
                        Tag::ShortTag(#[verifier::truncate] (read_u16_be(input, pos) as i16)),
                        pos + 2,
                    ),
                )
            },
            // Int (4 bytes)
            0x03 => {
                if input.len() - pos < 4 {
                    return Err(TagParseErr::IoError);
                }
                Ok(
                    (
                        Tag::IntTag(#[verifier::truncate] (read_u32_be(input, pos) as i32)),
                        pos + 4,
                    ),
                )
            },
            // Long (8 bytes)
            0x04 => {
                if input.len() - pos < 8 {
                    return Err(TagParseErr::IoError);
                }
                Ok(
                    (
                        Tag::LongTag(#[verifier::truncate] (read_u64_be(input, pos) as i64)),
                        pos + 8,
                    ),
                )
            },
            // Float (4 bytes)
            0x05 => {
                if input.len() - pos < 4 {
                    return Err(TagParseErr::IoError);
                }
                Ok((Tag::FloatTag(read_u32_be(input, pos)), pos + 4))
            },
            // Double (8 bytes)
            0x06 => {
                if input.len() - pos < 8 {
                    return Err(TagParseErr::IoError);
                }
                Ok((Tag::DoubleTag(read_u64_be(input, pos)), pos + 8))
            },
            // Byte Array (i32 length, then length bytes)
            0x07 => {
                if input.len() - pos < 4 {
                    return Err(TagParseErr::IoError);
                }
                let declared = #[verifier::truncate] (read_u32_be(input, pos) as i32);
                let n: usize = if declared < 0 {
                    0
                } else {
                    declared as usize
                };
                if input.len() - (pos + 4) < n {
                    return Err(TagParseErr::IoError);
                }
                let mut out: Vec<i8> = Vec::new();
                let mut j: usize = 0;
                while j < n
                    invariant
                        j <= n,
                        out@ =~= Seq::new(j as nat, |i: int| input@[pos + 4 + i] as i8),
                    decreases n - j,
                {
                    out.push(#[verifier::truncate] (input[pos + 4 + j] as i8));
                    proof {
                        assert(out@ =~= Seq::new(j as nat + 1, |i: int| input@[pos + 4 + i] as i8));
                    }
                    j = j + 1;
                }
                proof {
                    assert(out@ =~= Seq::new(n as nat, |i: int| input@[pos + 4 + i] as i8));
                }
                Ok((Tag::ByteArray(out), pos + 4 + n))
            },
            // String (u16 length, then length bytes of UTF-8)
            0x08 => {
                if input.len() - pos < 2 {
                    return Err(TagParseErr::IoError);
                }
                let n = read_u16_be(input, pos) as usize;
                let bytes = match eat(input, pos + 2, n) {
                    Ok(b) => b,
                    Err(_) => {
                        return Err(TagParseErr::IoError);
                    },
                };
                match string_from_utf8(bytes) {
                    Some(s) => Ok((Tag::StringTag(s), pos + 2 + n)),
                    None => Err(TagParseErr::InvalidUtf8),
                }
            },
            // List (u8 element type, i32 length, then length payloads)
            0x09 => {
                if input.len() - pos < 5 {
                    return Err(TagParseErr::IoError);
                }
                let list_type = input[pos];
                let declared = #[verifier::truncate] (read_u32_be(input, pos + 1) as i32);
                let n: usize = if declared < 0 {
                    0
                } else {
                    declared as usize
                };
                let mut out: Vec<Tag> = Vec::new();
                let mut cur: usize = pos + 5;
                let mut i: usize = 0;
                while i < n
                    invariant
                        i <= n,
                        pos + 5 <= cur <= input.len(),
                        crate::wire::spec_parse_elems(list_type, input@, pos + 5, n as nat, true)
                            == (match crate::wire::spec_parse_elems(
                            list_type,
                            input@,
                            cur as int,
                            (n - i) as nat,
                            true,
                        ) {
                            Ok((l2, e2)) => Ok::<(Seq<TagV>, int), WireErr>(
                                (ptags_view(out@) + l2, e2),
                            ),
                            Err(e) => Err(e),
                        }),
                    decreases n - i,
                {
                    let (tag, end) = match Tag::parse_type(list_type, input, cur) {
                        Ok(x) => x,
                        Err(e) => {
                            return Err(e);
                        },
                    };
                    proof {
                        lemma_ptags_view(out@.push(tag));
                        lemma_ptags_view(out@);
                        assert(ptags_view(out@.push(tag)) =~= ptags_view(out@) + seq![
                            ptag_view(tag),
                        ]);
                    }
                    let ghost prev_out = out@;
                    out.push(tag);
                    proof {
                        let suffix = crate::wire::spec_parse_elems(list_type, input@, end as int, (n - i - 1) as nat, true);
                        if suffix is Ok {
                            assert((ptags_view(prev_out) + seq![ptag_view(tag)]) + suffix->Ok_0.0
                                =~= ptags_view(prev_out) + (seq![ptag_view(tag)] + suffix->Ok_0.0));
                        }
                    }
                    cur = end;
                    i = i + 1;
                }
                proof {
                    assert(ptags_view(out@) + Seq::<TagV>::empty() =~= ptags_view(out@));
                }
                Ok((Tag::ListTag(out), cur))
            },
            // Compound (entries until a 0x00 terminator)
            0x0A => {
                match parse_entries(input, pos, false) {
                    Ok((entries, end)) => Ok((Tag::CompoundTag(entries), end)),
                    Err(e) => Err(e),
                }
            },
            // Int Array (i32 length, then length 4-byte values)
            0x0B => {
                if input.len() - pos < 4 {
                    return Err(TagParseErr::IoError);
                }
                let declared = #[verifier::truncate] (read_u32_be(input, pos) as i32);
                let n: usize = if declared < 0 {
                    0
                } else {
                    declared as usize
                };
                let mut out: Vec<i32> = Vec::new();
                let mut j: usize = 0;
                while j < n
                    invariant
                        j <= n,
                        j > 0 ==> pos + 4 + 4 * j <= input.len(),
                        out@ =~= Seq::new(
                            j as nat,
                            |i: int|
                                spec_u32_from_be(
                                    input@[pos + 4 + 4 * i],
                                    input@[pos + 4 + 4 * i + 1],
                                    input@[pos + 4 + 4 * i + 2],
                                    input@[pos + 4 + 4 * i + 3],
                                ) as i32,
                        ),
                    decreases n - j,
                {
                    if input.len() < 8 || input.len() - 8 < pos + 4 * j {
                        return Err(TagParseErr::IoError);
                    }
                    let v = #[verifier::truncate] (read_u32_be(input, pos + 4 + 4 * j) as i32);
                    out.push(v);
                    proof {
                        assert(out@ =~= Seq::new(
                            j as nat + 1,
                            |i: int|
                                spec_u32_from_be(
                                    input@[pos + 4 + 4 * i],
                                    input@[pos + 4 + 4 * i + 1],
                                    input@[pos + 4 + 4 * i + 2],
                                    input@[pos + 4 + 4 * i + 3],
                                ) as i32,
                        ));
                    }
                    j = j + 1;
                }
                proof {
                    assert(pos + 4 + 4 * (n as int) <= input.len());
                }
                Ok((Tag::IntArray(out), pos + 4 + 4 * n))
            },
            // Long Array (i32 length, then length 8-byte values)
            0x0C => {
                if input.len() - pos < 4 {
                    return Err(TagParseErr::IoError);
                }
                let declared = #[verifier::truncate] (read_u32_be(input, pos) as i32);
                let n: usize = if declared < 0 {
                    0
                } else {
                    declared as usize
                };
                let mut out: Vec<i64> = Vec::new();
                let mut j: usize = 0;
                while j < n
                    invariant
                        j <= n,
                        j > 0 ==> pos + 4 + 8 * j <= input.len(),
                        out@ =~= Seq::new(
                            j as nat,
                            |i: int|
                                spec_u64_from_be(
                                    input@[pos + 4 + 8 * i],
                                    input@[pos + 4 + 8 * i + 1],
                                    input@[pos + 4 + 8 * i + 2],
                                    input@[pos + 4 + 8 * i + 3],
                                    input@[pos + 4 + 8 * i + 4],
                                    input@[pos + 4 + 8 * i + 5],
                                    input@[pos + 4 + 8 * i + 6],
                                    input@[pos + 4 + 8 * i + 7],
                                ) as i64,
                        ),
                    decreases n - j,
                {
                    if input.len() < 12 || input.len() - 12 < pos + 8 * j {
                        return Err(TagParseErr::IoError);
                    }
                    let v = #[verifier::truncate] (read_u64_be(input, pos + 4 + 8 * j) as i64);
                    out.push(v);
                    proof {
                        assert(out@ =~= Seq::new(
                            j as nat + 1,
                            |i: int|
                                spec_u64_from_be(
                                    input@[pos + 4 + 8 * i],
                                    input@[pos + 4 + 8 * i + 1],
                                    input@[pos + 4 + 8 * i + 2],
                                    input@[pos + 4 + 8 * i + 3],
                                    input@[pos + 4 + 8 * i + 4],
                                    input@[pos + 4 + 8 * i + 5],
                                    input@[pos + 4 + 8 * i + 6],
                                    input@[pos + 4 + 8 * i + 7],
                                ) as i64,
                        ));
                    }
                    j = j + 1;
                }
                proof {
                    assert(pos + 4 + 8 * (n as int) <= input.len());
                }
                Ok((Tag::LongArray(out), pos + 4 + 8 * n))
            },
            _ => Err(TagParseErr::InvalidType),
        }
    }
}

/// Decode compound entries from `pos` until a 0x00 terminator; at the top
/// level only, the end of the input is tolerated in place of the
/// terminator. A later entry replaces an earlier one of the same name.
#[verifier::loop_isolation(false)]
fn parse_entries(input: &Vec<u8>, pos: usize, top: bool) -> (r: Result<
    (Vec<(String, Tag)>, usize),
    TagParseErr,
>)
    requires
        pos <= input.len(),
    ensures
        match r {
            Ok((entries, end)) => pos <= end <= input.len() && spec_parse_entries(
                input@,
                pos as int,
                true,
                top,
            ) == Ok::<(Seq<(Seq<char>, TagV)>, int), WireErr>(
                (pentries_view(entries@), end as int),
            ),
            Err(e) => spec_parse_entries(input@, pos as int, true, top) is Err && e
                == parse_err_of(spec_parse_entries(input@, pos as int, true, top)->Err_0),
        },
    decreases input.len() - pos, 0int,
{
    if pos == input.len() {
        if top {
            let empty: Vec<(String, Tag)> = Vec::new();
            proof {
                assert(pentries_view(empty@) =~= Seq::<(Seq<char>, TagV)>::empty());
            }
            return Ok((empty, pos));
        } else {
            return Err(TagParseErr::IoError);
        }
    }
    let code = input[pos];
    if code == 0x00 {
        let empty: Vec<(String, Tag)> = Vec::new();
        proof {
            assert(pentries_view(empty@) =~= Seq::<(Seq<char>, TagV)>::empty());
        }
        return Ok((empty, pos + 1));
    }
    if input.len() - pos < 3 {
        return Err(TagParseErr::IoError);
    }
    let nl = read_u16_be(input, pos + 1) as usize;
    let name_bytes = match eat(input, pos + 3, nl) {
        Ok(b) => b,
        Err(_) => {
            return Err(TagParseErr::IoError);
        },
    };
    let name = match string_from_utf8(name_bytes) {
        Some(s) => s,
        None => {
            return Err(TagParseErr::InvalidUtf8);
        },
    };
    let (tag, pend) = match Tag::parse_type(code, input, pos + 3 + nl) {
        Ok(x) => x,
        Err(e) => {
            return Err(e);
        },
    };
    let (mut rest, end) = match parse_entries(input, pend, top) {
        Ok(x) => x,
        Err(e) => {
            return Err(e);
        },
    };
    if pcontains_name(&rest, &name) {
        proof {
            assert(cons_entry(name@, ptag_view(tag), pentries_view(rest@)) == pentries_view(
                rest@,
            ));
        }
        Ok((rest, end))
    } else {
        let ghost old_rest = rest@;
        rest.insert(0, (name, tag));
        proof {
            lemma_pentries_view(rest@);
            lemma_pentries_view(old_rest);
            assert(pentries_view(rest@) =~= seq![(name@, ptag_view(tag))] + pentries_view(
                old_rest,
            ));
        }
        Ok((rest, end))
    }
}

} // verus!
