//! The writer: serializes a tag tree to the wire format.

use vstd::prelude::*;
use crate::wire::{
    TagV, WireErr, type_code_of, spec_write_str, spec_write_payload, spec_write_list,
    spec_write_entries, spec_write_doc, enc_i8s, enc_i32s, enc_i64s,
};
use crate::tag::{Tag, TagError, tag_view, tags_view, entries_view, lemma_tags_view,
    lemma_entries_view};
use crate::scalars::{push_u16_be, push_u32_be, push_u64_be};

verus! {

/// The codec error reported for an abstract writer error.
pub open spec fn write_err_of(e: WireErr) -> TagError {
    match e {
        WireErr::BadType => TagError::InvalidType,
        WireErr::BadUtf8 => TagError::InvalidUtf8,
        WireErr::Eof => TagError::IoError,
        WireErr::TooLong => TagError::InvalidLength,
    }
}

/// A tag's abstract value is never the `End` sentinel, so its type code is
/// never 0x00; and it is a compound exactly when the tag is one.
pub proof fn lemma_tag_view_shape(t: Tag)
    ensures
        !(tag_view(t) is End),
        type_code_of(tag_view(t)) != 0x00,
        tag_view(t) is Compound <==> t is CompoundTag,
{
    match t {
        Tag::ByteTag(_) => {},
        Tag::ShortTag(_) => {},
        Tag::IntTag(_) => {},
        Tag::LongTag(_) => {},
        Tag::FloatTag(_) => {},
        Tag::DoubleTag(_) => {},
        Tag::ByteArray(_) => {},
        Tag::StringTag(_) => {},
        Tag::ListTag(_) => {},
        Tag::CompoundTag(_) => {},
        Tag::IntArray(_) => {},
        Tag::LongArray(_) => {},
    }
}

impl Tag {
    /// Serialize a document: the root must be a compound, and its entries
    /// are appended to `buf` without a trailing terminator (the end of the
    /// stream closes the root). Any other root is an `InvalidType` error;
    /// a heterogeneous list is an `InvalidType` error; a string or
    /// sequence too long for its length prefix is an `InvalidLength`
    /// error. On an error, `buf` may hold a partial prefix.
    pub fn write(&self, buf: &mut Vec<u8>) -> (r: Result<(), TagError>)
        ensures
            match r {
                Ok(()) => spec_write_doc(self@) is Ok && final(buf)@ == old(buf)@
                    + spec_write_doc(self@)->Ok_0,
                Err(e) => spec_write_doc(self@) is Err && e == write_err_of(
                    spec_write_doc(self@)->Err_0,
                ),
            },
    {
        proof {
            lemma_tag_view_shape(*self);
        }
        match self {
            Tag::CompoundTag(v) => write_entries(v, buf),
            _ => Err(TagError::InvalidType),
        }
    }

    /// Append the single type-code byte of this tag.
    fn write_type(&self, buf: &mut Vec<u8>) -> (r: Result<(), TagError>)
        ensures
            r is Ok,
            final(buf)@ == old(buf)@ + seq![type_code_of(self@)],
    {
        buf.push(self.get_type());
        proof {
            assert(buf@ =~= old(buf)@ + seq![type_code_of(tag_view(*self))]);
        }
        Ok(())
    }

    /// The wire type code of this tag.
    fn get_type(&self) -> (r: u8)
        ensures
            r == type_code_of(self@),
    {
        match self {
            Tag::ByteTag(_) => 0x01,
            Tag::ShortTag(_) => 0x02,
            Tag::IntTag(_) => 0x03,
            Tag::LongTag(_) => 0x04,
            Tag::FloatTag(_) => 0x05,
            Tag::DoubleTag(_) => 0x06,
            Tag::ByteArray(_) => 0x07,
            Tag::StringTag(_) => 0x08,
            Tag::ListTag(_) => 0x09,
            Tag::CompoundTag(_) => 0x0A,
            Tag::IntArray(_) => 0x0B,
            Tag::LongArray(_) => 0x0C,
        }
    }

    /// Append the payload of this tag (for a compound: its entries and the
    /// 0x00 terminator).
    #[verifier::loop_isolation(false)]
    #[verifier::rlimit(60)]
    #[verifier::spinoff_prover]
    fn write_element(&self, buf: &mut Vec<u8>) -> (r: Result<(), TagError>)
        ensures
            match r {
                Ok(()) => spec_write_payload(self@) is Ok && final(buf)@ == old(buf)@
                    + spec_write_payload(self@)->Ok_0,
                Err(e) => spec_write_payload(self@) is Err && e == write_err_of(
                    spec_write_payload(self@)->Err_0,
                ),
            },
        decreases *self,
    {
        match self {
            Tag::ByteTag(value) => {
                buf.push(#[verifier::truncate] (*value as u8));
                proof {
                    assert(buf@ =~= old(buf)@ + seq![*value as u8]);
                }
                Ok(())
            },
            Tag::ShortTag(value) => {
                push_u16_be(buf, #[verifier::truncate] (*value as u16));
                Ok(())
            },
            Tag::IntTag(value) => {
                push_u32_be(buf, #[verifier::truncate] (*value as u32));
                Ok(())
            },
            Tag::LongTag(value) => {
                push_u64_be(buf, #[verifier::truncate] (*value as u64));
                Ok(())
            },
            Tag::FloatTag(value) => {
                push_u32_be(buf, *value);
                Ok(())
            },
            Tag::DoubleTag(value) => {
                push_u64_be(buf, *value);
                Ok(())
            },
            Tag::ByteArray(v) => {
                if v.len() > 0x7FFF_FFFF {
                    return Err(TagError::InvalidLength);
                }
                push_u32_be(buf, v.len() as u32);
                let ghost b0 = buf@;
                proof {
                    assert(v@.skip(0) =~= v@);
                }
                let mut j: usize = 0;
                while j < v.len()
                    invariant
                        j <= v.len(),
                        buf@ + enc_i8s(v@.skip(j as int)) == b0 + enc_i8s(v@),
                    decreases v@.len() - j,
                {
                    proof {
                        assert(v@.skip(j as int)[0] == v@[j as int]);
                        assert(v@.skip(j as int).drop_first() =~= v@.skip(j as int + 1));
                    }
                    let ghost bprev = buf@;
                    buf.push(#[verifier::truncate] (v[j] as u8));
                    proof {
                        assert(buf@ + enc_i8s(v@.skip(j as int + 1)) =~= bprev + enc_i8s(
                            v@.skip(j as int),
                        ));
                    }
                    j = j + 1;
                }
                proof {
                    assert(v@.skip(v@.len() as int) =~= Seq::<i8>::empty());
                    assert(buf@ =~= b0 + enc_i8s(v@));
                    assert(buf@ =~= old(buf)@ + spec_write_payload(tag_view(*self))->Ok_0);
                }
                Ok(())
            },
            Tag::StringTag(value) => write_string(buf, value.as_str()),
            Tag::ListTag(v) => {
                let code: u8 = if v.len() == 0 {
                    0x00
                } else {
                    v[0].get_type()
                };
                proof {
                    lemma_tags_view(v@);
                }
                if v.len() > 0x7FFF_FFFF {
                    return Err(TagError::InvalidLength);
                }
                let ghost l = tags_view(v@);
                buf.push(code);
                push_u32_be(buf, v.len() as u32);
                let ghost b0 = buf@;
                proof {
                    assert(l.skip(0) =~= l);
                }
                let mut j: usize = 0;
                while j < v.len()
                    invariant
                        j <= v.len(),
                        match spec_write_list(l, code) {
                            Ok(all) => spec_write_list(l.skip(j as int), code) is Ok && buf@
                                + spec_write_list(l.skip(j as int), code)->Ok_0 == b0 + all,
                            Err(e) => spec_write_list(l.skip(j as int), code) == Err::<
                                Seq<u8>,
                                WireErr,
                            >(e),
                        },
                    decreases v@.len() - j,
                {
                    proof {
                        assert(l.skip(j as int)[0] == l[j as int]);
                        assert(l.skip(j as int).drop_first() =~= l.skip(j as int + 1));
                        assert(decreases_to!(*self => self->ListTag_0));
                        assert(decreases_to!(*v => v@[j as int]));
                    }
                    let ec = v[j].get_type();
                    if ec != code {
                        return Err(TagError::InvalidType);
                    }
                    let ghost bprev = buf@;
                    match v[j].write_element(buf) {
                        Err(e) => {
                            return Err(e);
                        },
                        Ok(()) => {},
                    }
                    proof {
                        if spec_write_list(l, code) is Ok {
                            assert(buf@ + spec_write_list(l.skip(j as int + 1), code)->Ok_0
                                =~= bprev + spec_write_list(l.skip(j as int), code)->Ok_0);
                        }
                    }
                    j = j + 1;
                }
                proof {
                    assert(l.skip(v@.len() as int) =~= Seq::<TagV>::empty());
                    assert(spec_write_list(l, code) is Ok);
                    assert(buf@ =~= b0 + spec_write_list(l, code)->Ok_0);
                    assert(old(buf)@ + seq![code] + crate::scalars::spec_u32_to_be(
                        v@.len() as u32,
                    ) + spec_write_list(l, code)->Ok_0 =~= old(buf)@ + (seq![code]
                        + crate::scalars::spec_u32_to_be(v@.len() as u32) + spec_write_list(
                        l,
                        code,
                    )->Ok_0));
                }
                Ok(())
            },
            Tag::CompoundTag(v) => {
                proof {
                    assert(decreases_to!(*self => self->CompoundTag_0));
                }
                match write_entries(v, buf) {
                    Err(e) => Err(e),
                    Ok(()) => {
                        buf.push(0x00);
                        proof {
                            assert(buf@ =~= old(buf)@ + (spec_write_entries(
                                entries_view(v@),
                            )->Ok_0 + seq![0x00u8]));
                        }
                        Ok(())
                    },
                }
            },
            Tag::IntArray(v) => {
                if v.len() > 0x7FFF_FFFF {
                    return Err(TagError::InvalidLength);
                }
                push_u32_be(buf, v.len() as u32);
                let ghost b0 = buf@;
                proof {
                    assert(v@.skip(0) =~= v@);
                }
                let mut j: usize = 0;
                while j < v.len()
                    invariant
                        j <= v.len(),
                        buf@ + enc_i32s(v@.skip(j as int)) == b0 + enc_i32s(v@),
                    decreases v@.len() - j,
                {
                    proof {
                        assert(v@.skip(j as int)[0] == v@[j as int]);
                        assert(v@.skip(j as int).drop_first() =~= v@.skip(j as int + 1));
                    }
                    let ghost bprev = buf@;
                    push_u32_be(buf, #[verifier::truncate] (v[j] as u32));
                    proof {
                        assert(buf@ + enc_i32s(v@.skip(j as int + 1)) =~= bprev + enc_i32s(
                            v@.skip(j as int),
                        ));
                    }
                    j = j + 1;
                }
                proof {
                    assert(v@.skip(v@.len() as int) =~= Seq::<i32>::empty());
                    assert(buf@ =~= b0 + enc_i32s(v@));
                    assert(buf@ =~= old(buf)@ + spec_write_payload(tag_view(*self))->Ok_0);
                }
                Ok(())
            },
            Tag::LongArray(v) => {
                if v.len() > 0x7FFF_FFFF {
                    return Err(TagError::InvalidLength);
                }
                push_u32_be(buf, v.len() as u32);
                let ghost b0 = buf@;
                proof {
                    assert(v@.skip(0) =~= v@);
                }
                let mut j: usize = 0;
                while j < v.len()
                    invariant
                        j <= v.len(),
                        buf@ + enc_i64s(v@.skip(j as int)) == b0 + enc_i64s(v@),
                    decreases v@.len() - j,
                {
                    proof {
                        assert(v@.skip(j as int)[0] == v@[j as int]);
                        assert(v@.skip(j as int).drop_first() =~= v@.skip(j as int + 1));
                    }
                    let ghost bprev = buf@;
                    push_u64_be(buf, #[verifier::truncate] (v[j] as u64));
                    proof {
                        assert(buf@ + enc_i64s(v@.skip(j as int + 1)) =~= bprev + enc_i64s(
                            v@.skip(j as int),
                        ));
                    }
                    j = j + 1;
                }
                proof {
                    assert(v@.skip(v@.len() as int) =~= Seq::<i64>::empty());
                    assert(buf@ =~= b0 + enc_i64s(v@));
                    assert(buf@ =~= old(buf)@ + spec_write_payload(tag_view(*self))->Ok_0);
                }
                Ok(())
            },
        }
    }
}

/// Append each `type | name | payload` entry of a compound body, without a
/// terminator.
#[verifier::loop_isolation(false)]
fn write_entries(v: &Vec<(String, Tag)>, buf: &mut Vec<u8>) -> (r: Result<(), TagError>)
    ensures
        match r {
            Ok(()) => spec_write_entries(entries_view(v@)) is Ok && final(buf)@ == old(buf)@
                + spec_write_entries(entries_view(v@))->Ok_0,
            Err(e) => spec_write_entries(entries_view(v@)) is Err && e == write_err_of(
                spec_write_entries(entries_view(v@))->Err_0,
            ),
        },
    decreases *v,
{
    let ghost es = entries_view(v@);
    proof {
        lemma_entries_view(v@);
        assert(es.skip(0) =~= es);
    }
    let mut i: usize = 0;
    while i < v.len()
        invariant
            i <= v.len(),
            match spec_write_entries(es) {
                Ok(all) => spec_write_entries(es.skip(i as int)) is Ok && buf@
                    + spec_write_entries(es.skip(i as int))->Ok_0 == old(buf)@ + all,
                Err(e) => spec_write_entries(es.skip(i as int)) == Err::<Seq<u8>, WireErr>(e),
            },
        decreases v@.len() - i,
    {
        proof {
            assert(es.skip(i as int)[0] == es[i as int]);
            assert(es.skip(i as int).drop_first() =~= es.skip(i as int + 1));
            lemma_tag_view_shape(v@[i as int].1);
            assert(decreases_to!(*v => v@[i as int]));
            assert(decreases_to!(v@[i as int] => v@[i as int].1));
        }
        let ghost bprev = buf@;
        if let Err(e) = v[i].1.write_type(buf) {
            return Err(e);
        }
        match write_string(buf, v[i].0.as_str()) {
            Err(e) => {
                return Err(e);
            },
            Ok(()) => {},
        }
        match v[i].1.write_element(buf) {
            Err(e) => {
                return Err(e);
            },
            Ok(()) => {},
        }
        proof {
            if spec_write_entries(es) is Ok {
                assert(buf@ + spec_write_entries(es.skip(i as int + 1))->Ok_0 =~= bprev
                    + spec_write_entries(es.skip(i as int))->Ok_0);
            }
        }
        i = i + 1;
    }
    proof {
        assert(es.skip(v@.len() as int) =~= Seq::<(Seq<char>, TagV)>::empty());
    }
    Ok(())
}

/// Append a length-prefixed UTF-8 string: 16-bit big-endian byte length,
/// then the encoded bytes. Rejects an encoding longer than 65535 bytes.
fn write_string(buf: &mut Vec<u8>, value: &str) -> (r: Result<(), TagError>)
    ensures
        match r {
            Ok(()) => spec_write_str(value@) is Ok && final(buf)@ == old(buf)@ + spec_write_str(
                value@,
            )->Ok_0,
            Err(e) => spec_write_str(value@) is Err && e == write_err_of(
                spec_write_str(value@)->Err_0,
            ) && final(buf)@ == old(buf)@,
        },
{
    let bytes: &[u8] = value.as_bytes();
    if bytes.len() > 0xFFFF {
        return Err(TagError::InvalidLength);
    }
    push_u16_be(buf, bytes.len() as u16);
    buf.extend_from_slice(bytes);
    proof {
        assert(buf@ =~= old(buf)@ + spec_write_str(value@)->Ok_0);
    }
    Ok(())
}

} // verus!
