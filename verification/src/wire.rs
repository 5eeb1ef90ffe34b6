//! The mathematical model of the NBT wire format.
//!
//! `TagV` is the abstract tree value: the view of the executable tag types.
//! `spec_write_*` defines, byte for byte, what the writer emits (or which
//! error it reports), and `spec_parse_*` defines what the reader decodes.
//! The proofs that reader and writer are inverses live in `laws`.
//!
//! Strings are modelled as their character sequences; on the wire they are
//! length-prefixed UTF-8. Float and Double payloads are modelled as their
//! IEEE-754 bit patterns (`u32` / `u64`), which is exactly what the wire
//! carries.

use vstd::prelude::*;
use vstd::utf8::{encode_utf8, decode_utf8, valid_utf8};
use crate::scalars::{
    spec_u16_to_be, spec_u16_from_be, spec_u32_to_be, spec_u32_from_be, spec_u64_to_be,
    spec_u64_from_be,
};

verus! {

/// The abstract NBT tree value.
///
/// `End` is the wire sentinel (type code 0x00): it terminates a compound
/// body and is never a well-formed tree value on its own.
pub enum TagV {
    End,
    Byte(i8),
    Short(i16),
    Int(i32),
    Long(i64),
    Float(u32),
    Double(u64),
    Bytes(Seq<i8>),
    Str(Seq<char>),
    List(Seq<TagV>),
    Compound(Seq<(Seq<char>, TagV)>),
    Ints(Seq<i32>),
    Longs(Seq<i64>),
}

/// Abstract decoding / encoding failures, mapped by each codec entry point
/// onto its own error type.
pub enum WireErr {
    /// A type code outside the format, or a writer asked to emit what the
    /// format cannot express.
    BadType,
    /// A string or name whose bytes are not valid UTF-8.
    BadUtf8,
    /// The input ended where the format required more bytes.
    Eof,
    /// A sequence too long for its length prefix.
    TooLong,
}

/// The wire type code of a value.
pub open spec fn type_code_of(t: TagV) -> u8 {
    match t {
        TagV::End => 0x00,
        TagV::Byte(_) => 0x01,
        TagV::Short(_) => 0x02,
        TagV::Int(_) => 0x03,
        TagV::Long(_) => 0x04,
        TagV::Float(_) => 0x05,
        TagV::Double(_) => 0x06,
        TagV::Bytes(_) => 0x07,
        TagV::Str(_) => 0x08,
        TagV::List(_) => 0x09,
        TagV::Compound(_) => 0x0A,
        TagV::Ints(_) => 0x0B,
        TagV::Longs(_) => 0x0C,
    }
}

/// Whether `es` holds an entry named `n`.
pub open spec fn has_key(es: Seq<(Seq<char>, TagV)>, n: Seq<char>) -> bool {
    exists|i: int| 0 <= i < es.len() && es[i].0 == n
}

/// Combine a parsed entry with the entries parsed after it: a later entry
/// with the same name wins (mirroring map insertion during parsing).
pub open spec fn cons_entry(
    n: Seq<char>,
    v: TagV,
    es: Seq<(Seq<char>, TagV)>,
) -> Seq<(Seq<char>, TagV)> {
    if has_key(es, n) {
        es
    } else {
        seq![(n, v)] + es
    }
}

// ---------------------------------------------------------------------------
// Well-formedness: the format's own invariants on a tree value.
// ---------------------------------------------------------------------------

/// A well-formed tree value: no `End` inside the tree, every list
/// homogeneous, every string and name at most 65535 encoded bytes,
/// every sequence length expressible in a signed 32-bit prefix,
/// and compound keys unique.
pub open spec fn wf(t: TagV) -> bool
    decreases t,
{
    match t {
        TagV::End => false,
        TagV::Byte(_) => true,
        TagV::Short(_) => true,
        TagV::Int(_) => true,
        TagV::Long(_) => true,
        TagV::Float(_) => true,
        TagV::Double(_) => true,
        TagV::Bytes(s) => s.len() <= 0x7FFF_FFFF,
        TagV::Str(s) => encode_utf8(s).len() <= 0xFFFF,
        TagV::List(l) => l.len() <= 0x7FFF_FFFF && (forall|i: int|
            0 <= i < l.len() ==> type_code_of(#[trigger] l[i]) == type_code_of(l[0]))
            && wf_list(l),
        TagV::Compound(es) => (forall|i: int, j: int|
            0 <= i < j < es.len() ==> es[i].0 != es[j].0) && wf_entries(es),
        TagV::Ints(s) => s.len() <= 0x7FFF_FFFF,
        TagV::Longs(s) => s.len() <= 0x7FFF_FFFF,
    }
}

/// Every element of a list is well-formed.
pub open spec fn wf_list(l: Seq<TagV>) -> bool
    decreases l,
{
    if l.len() == 0 {
        true
    } else {
        wf(l[0]) && wf_list(l.drop_first())
    }
}

/// Every entry has a name of at most 65535 encoded bytes and a well-formed
/// value.
pub open spec fn wf_entries(es: Seq<(Seq<char>, TagV)>) -> bool
    decreases es,
{
    if es.len() == 0 {
        true
    } else {
        encode_utf8(es[0].0).len() <= 0xFFFF && wf(es[0].1) && wf_entries(es.drop_first())
    }
}

// ---------------------------------------------------------------------------
// Leaf count: the canonical recursive walk.
// ---------------------------------------------------------------------------

/// The number of scalar leaves in a tree: 1 per scalar or string, the
/// element count of each typed array, and the recursive sum over lists
/// and compounds.
pub open spec fn count_of(t: TagV) -> nat
    decreases t,
{
    match t {
        TagV::End => 0,
        TagV::Byte(_) => 1,
        TagV::Short(_) => 1,
        TagV::Int(_) => 1,
        TagV::Long(_) => 1,
        TagV::Float(_) => 1,
        TagV::Double(_) => 1,
        TagV::Bytes(s) => s.len(),
        TagV::Str(_) => 1,
        TagV::List(l) => count_list(l),
        TagV::Compound(es) => count_entries(es),
        TagV::Ints(s) => s.len(),
        TagV::Longs(s) => s.len(),
    }
}

/// The sum of leaf counts over a sequence of values.
pub open spec fn count_list(l: Seq<TagV>) -> nat
    decreases l,
{
    if l.len() == 0 {
        0
    } else {
        count_of(l[0]) + count_list(l.drop_first())
    }
}

/// The sum of leaf counts over a sequence of entries.
pub open spec fn count_entries(es: Seq<(Seq<char>, TagV)>) -> nat
    decreases es,
{
    if es.len() == 0 {
        0
    } else {
        count_of(es[0].1) + count_entries(es.drop_first())
    }
}

// ---------------------------------------------------------------------------
// The writer, abstractly: the exact bytes emitted, or the error reported.
// ---------------------------------------------------------------------------

/// The bytes of a sequence of signed 8-bit values, one each.
pub open spec fn enc_i8s(s: Seq<i8>) -> Seq<u8>
    decreases s,
{
    if s.len() == 0 {
        Seq::empty()
    } else {
        seq![s[0] as u8] + enc_i8s(s.drop_first())
    }
}

/// The concatenated big-endian bytes of a sequence of signed 32-bit values.
pub open spec fn enc_i32s(s: Seq<i32>) -> Seq<u8>
    decreases s,
{
    if s.len() == 0 {
        Seq::empty()
    } else {
        spec_u32_to_be(s[0] as u32) + enc_i32s(s.drop_first())
    }
}

/// The concatenated big-endian bytes of a sequence of signed 64-bit values.
pub open spec fn enc_i64s(s: Seq<i64>) -> Seq<u8>
    decreases s,
{
    if s.len() == 0 {
        Seq::empty()
    } else {
        spec_u64_to_be(s[0] as u64) + enc_i64s(s.drop_first())
    }
}

/// A length-prefixed UTF-8 string: 16-bit big-endian byte length, then the
/// encoded bytes. Fails when the encoding does not fit the prefix.
pub open spec fn spec_write_str(s: Seq<char>) -> Result<Seq<u8>, WireErr> {
    let b = encode_utf8(s);
    if b.len() > 0xFFFF {
        Err(WireErr::TooLong)
    } else {
        Ok(spec_u16_to_be(b.len() as u16) + b)
    }
}

/// The payload bytes of a value (for a compound: its entries followed by
/// the 0x00 terminator), or the first error the writer meets.
pub open spec fn spec_write_payload(t: TagV) -> Result<Seq<u8>, WireErr>
    decreases t,
{
    match t {
        TagV::End => Err(WireErr::BadType),
        TagV::Byte(v) => Ok(seq![v as u8]),
        TagV::Short(v) => Ok(spec_u16_to_be(v as u16)),
        TagV::Int(v) => Ok(spec_u32_to_be(v as u32)),
        TagV::Long(v) => Ok(spec_u64_to_be(v as u64)),
        TagV::Float(bits) => Ok(spec_u32_to_be(bits)),
        TagV::Double(bits) => Ok(spec_u64_to_be(bits)),
        TagV::Bytes(s) => if s.len() > 0x7FFF_FFFF {
            Err(WireErr::TooLong)
        } else {
            Ok(spec_u32_to_be(s.len() as u32) + enc_i8s(s))
        },
        TagV::Str(s) => spec_write_str(s),
        TagV::List(l) => {
            let code = if l.len() == 0 {
                0x00u8
            } else {
                type_code_of(l[0])
            };
            if l.len() > 0x7FFF_FFFF {
                Err(WireErr::TooLong)
            } else {
                match spec_write_list(l, code) {
                    Ok(eb) => Ok(seq![code] + spec_u32_to_be(l.len() as u32) + eb),
                    Err(e) => Err(e),
                }
            }
        },
        TagV::Compound(es) => match spec_write_entries(es) {
            Ok(eb) => Ok(eb + seq![0x00u8]),
            Err(e) => Err(e),
        },
        TagV::Ints(s) => if s.len() > 0x7FFF_FFFF {
            Err(WireErr::TooLong)
        } else {
            Ok(spec_u32_to_be(s.len() as u32) + enc_i32s(s))
        },
        TagV::Longs(s) => if s.len() > 0x7FFF_FFFF {
            Err(WireErr::TooLong)
        } else {
            Ok(spec_u32_to_be(s.len() as u32) + enc_i64s(s))
        },
    }
}

/// The concatenated payloads of a list's elements, each checked against the
/// declared element type code.
pub open spec fn spec_write_list(l: Seq<TagV>, code: u8) -> Result<Seq<u8>, WireErr>
    decreases l,
{
    if l.len() == 0 {
        Ok(Seq::empty())
    } else if type_code_of(l[0]) != code {
        Err(WireErr::BadType)
    } else {
        match spec_write_payload(l[0]) {
            Err(e) => Err(e),
            Ok(b) => match spec_write_list(l.drop_first(), code) {
                Ok(rest) => Ok(b + rest),
                Err(e) => Err(e),
            },
        }
    }
}

/// The concatenated `type | name | payload` encodings of a compound's
/// entries, without a terminator.
pub open spec fn spec_write_entries(es: Seq<(Seq<char>, TagV)>) -> Result<Seq<u8>, WireErr>
    decreases es,
{
    if es.len() == 0 {
        Ok(Seq::empty())
    } else {
        let code = type_code_of(es[0].1);
        if code == 0x00 {
            Err(WireErr::BadType)
        } else {
            match spec_write_str(es[0].0) {
                Err(e) => Err(e),
                Ok(nb) => match spec_write_payload(es[0].1) {
                    Err(e) => Err(e),
                    Ok(pb) => match spec_write_entries(es.drop_first()) {
                        Ok(rest) => Ok(seq![code] + nb + pb + rest),
                        Err(e) => Err(e),
                    },
                },
            }
        }
    }
}

/// What the writer emits for a whole document: the root must be a compound,
/// whose entries are written without a trailing terminator (the end of the
/// stream closes the root, as the reader tolerates).
pub open spec fn spec_write_doc(t: TagV) -> Result<Seq<u8>, WireErr> {
    match t {
        TagV::Compound(es) => spec_write_entries(es),
        _ => Err(WireErr::BadType),
    }
}

// ---------------------------------------------------------------------------
// The reader, abstractly: value and end position, or the error met.
// ---------------------------------------------------------------------------

/// Decode one payload of type `code` at `pos`. When `end_ok` holds, type
/// code 0x00 decodes to the `End` sentinel consuming nothing; otherwise it
/// is rejected (a value position never holds an `End`).
pub open spec fn spec_parse_payload(code: u8, b: Seq<u8>, pos: int, end_ok: bool) -> Result<
    (TagV, int),
    WireErr,
>
    decreases b.len() - pos, 1int, 0int,
{
    if pos < 0 || pos > b.len() {
        Err(WireErr::Eof)
    } else if code == 0x00 {
        if end_ok {
            Ok((TagV::End, pos))
        } else {
            Err(WireErr::BadType)
        }
    } else if code == 0x01 {
        if pos + 1 <= b.len() {
            Ok((TagV::Byte(b[pos] as i8), pos + 1))
        } else {
            Err(WireErr::Eof)
        }
    } else if code == 0x02 {
        if pos + 2 <= b.len() {
            Ok((TagV::Short(spec_u16_from_be(b[pos], b[pos + 1]) as i16), pos + 2))
        } else {
            Err(WireErr::Eof)
        }
    } else if code == 0x03 {
        if pos + 4 <= b.len() {
            Ok(
                (
                    TagV::Int(
                        spec_u32_from_be(b[pos], b[pos + 1], b[pos + 2], b[pos + 3]) as i32,
                    ),
                    pos + 4,
                ),
            )
        } else {
            Err(WireErr::Eof)
        }
    } else if code == 0x04 {
        if pos + 8 <= b.len() {
            Ok(
                (
                    TagV::Long(
                        spec_u64_from_be(
                            b[pos],
                            b[pos + 1],
                            b[pos + 2],
                            b[pos + 3],
                            b[pos + 4],
                            b[pos + 5],
                            b[pos + 6],
                            b[pos + 7],
                        ) as i64,
                    ),
                    pos + 8,
                ),
            )
        } else {
            Err(WireErr::Eof)
        }
    } else if code == 0x05 {
        if pos + 4 <= b.len() {
            Ok((TagV::Float(spec_u32_from_be(b[pos], b[pos + 1], b[pos + 2], b[pos + 3])), pos + 4))
        } else {
            Err(WireErr::Eof)
        }
    } else if code == 0x06 {
        if pos + 8 <= b.len() {
            Ok(
                (
                    TagV::Double(
                        spec_u64_from_be(
                            b[pos],
                            b[pos + 1],
                            b[pos + 2],
                            b[pos + 3],
                            b[pos + 4],
                            b[pos + 5],
                            b[pos + 6],
                            b[pos + 7],
                        ),
                    ),
                    pos + 8,
                ),
            )
        } else {
            Err(WireErr::Eof)
        }
    } else if code == 0x07 {
        if pos + 4 <= b.len() {
            let declared = spec_u32_from_be(b[pos], b[pos + 1], b[pos + 2], b[pos + 3]) as i32;
            let n: int = if declared < 0 {
                0
            } else {
                declared as int
            };
            if pos + 4 + n <= b.len() {
                Ok((TagV::Bytes(Seq::new(n as nat, |i: int| b[pos + 4 + i] as i8)), pos + 4 + n))
            } else {
                Err(WireErr::Eof)
            }
        } else {
            Err(WireErr::Eof)
        }
    } else if code == 0x08 {
        if pos + 2 <= b.len() {
            let n = spec_u16_from_be(b[pos], b[pos + 1]) as int;
            if pos + 2 + n <= b.len() {
                let nb = b.subrange(pos + 2, pos + 2 + n);
                if valid_utf8(nb) {
                    Ok((TagV::Str(decode_utf8(nb)), pos + 2 + n))
                } else {
                    Err(WireErr::BadUtf8)
                }
            } else {
                Err(WireErr::Eof)
            }
        } else {
            Err(WireErr::Eof)
        }
    } else if code == 0x09 {
        if pos + 5 <= b.len() {
            let elem_code = b[pos];
            let declared = spec_u32_from_be(
                b[pos + 1],
                b[pos + 2],
                b[pos + 3],
                b[pos + 4],
            ) as i32;
            let n: int = if declared < 0 {
                0
            } else {
                declared as int
            };
            match spec_parse_elems(elem_code, b, pos + 5, n as nat, end_ok) {
                Ok((l, end)) => Ok((TagV::List(l), end)),
                Err(e) => Err(e),
            }
        } else {
            Err(WireErr::Eof)
        }
    } else if code == 0x0A {
        match spec_parse_entries(b, pos, end_ok, false) {
            Ok((es, end)) => Ok((TagV::Compound(es), end)),
            Err(e) => Err(e),
        }
    } else if code == 0x0B {
        if pos + 4 <= b.len() {
            let declared = spec_u32_from_be(b[pos], b[pos + 1], b[pos + 2], b[pos + 3]) as i32;
            let n: int = if declared < 0 {
                0
            } else {
                declared as int
            };
            if pos + 4 + 4 * n <= b.len() {
                Ok(
                    (
                        TagV::Ints(
                            Seq::new(
                                n as nat,
                                |i: int|
                                    spec_u32_from_be(
                                        b[pos + 4 + 4 * i],
                                        b[pos + 4 + 4 * i + 1],
                                        b[pos + 4 + 4 * i + 2],
                                        b[pos + 4 + 4 * i + 3],
                                    ) as i32,
                            ),
                        ),
                        pos + 4 + 4 * n,
                    ),
                )
            } else {
                Err(WireErr::Eof)
            }
        } else {
            Err(WireErr::Eof)
        }
    } else if code == 0x0C {
        if pos + 4 <= b.len() {
            let declared = spec_u32_from_be(b[pos], b[pos + 1], b[pos + 2], b[pos + 3]) as i32;
            let n: int = if declared < 0 {
                0
            } else {
                declared as int
            };
            if pos + 4 + 8 * n <= b.len() {
                Ok(
                    (
                        TagV::Longs(
                            Seq::new(
                                n as nat,
                                |i: int|
                                    spec_u64_from_be(
                                        b[pos + 4 + 8 * i],
                                        b[pos + 4 + 8 * i + 1],
                                        b[pos + 4 + 8 * i + 2],
                                        b[pos + 4 + 8 * i + 3],
                                        b[pos + 4 + 8 * i + 4],
                                        b[pos + 4 + 8 * i + 5],
                                        b[pos + 4 + 8 * i + 6],
                                        b[pos + 4 + 8 * i + 7],
                                    ) as i64,
                            ),
                        ),
                        pos + 4 + 8 * n,
                    ),
                )
            } else {
                Err(WireErr::Eof)
            }
        } else {
            Err(WireErr::Eof)
        }
    } else {
        Err(WireErr::BadType)
    }
}

/// Decode `n` consecutive payloads of one element type.
pub open spec fn spec_parse_elems(code: u8, b: Seq<u8>, pos: int, n: nat, end_ok: bool) -> Result<
    (Seq<TagV>, int),
    WireErr,
>
    decreases b.len() - pos, 2int, n,
{
    if pos < 0 || pos > b.len() {
        Err(WireErr::Eof)
    } else if n == 0 {
        Ok((Seq::empty(), pos))
    } else {
        match spec_parse_payload(code, b, pos, end_ok) {
            Err(e) => Err(e),
            Ok((v, end)) => if pos <= end <= b.len() {
                match spec_parse_elems(code, b, end, (n - 1) as nat, end_ok) {
                    Ok((l, end2)) => Ok((seq![v] + l, end2)),
                    Err(e) => Err(e),
                }
            } else {
                Err(WireErr::Eof)
            },
        }
    }
}

/// Decode compound entries from `pos` until a 0x00 terminator. At the top
/// level (`top`), the end of the input is tolerated in place of the
/// terminator; in a nested compound it is an error.
pub open spec fn spec_parse_entries(b: Seq<u8>, pos: int, end_ok: bool, top: bool) -> Result<
    (Seq<(Seq<char>, TagV)>, int),
    WireErr,
>
    decreases b.len() - pos, 0int, 0int,
{
    if pos < 0 || pos > b.len() {
        Err(WireErr::Eof)
    } else if pos == b.len() {
        if top {
            Ok((Seq::empty(), pos))
        } else {
            Err(WireErr::Eof)
        }
    } else if b[pos] == 0x00 {
        Ok((Seq::empty(), pos + 1))
    } else {
        let code = b[pos];
        if pos + 3 > b.len() {
            Err(WireErr::Eof)
        } else {
            let nl = spec_u16_from_be(b[pos + 1], b[pos + 2]) as int;
            if pos + 3 + nl > b.len() {
                Err(WireErr::Eof)
            } else {
                let nb = b.subrange(pos + 3, pos + 3 + nl);
                if !valid_utf8(nb) {
                    Err(WireErr::BadUtf8)
                } else {
                    match spec_parse_payload(code, b, pos + 3 + nl, end_ok) {
                        Err(e) => Err(e),
                        Ok((v, pend)) => if pos + 3 + nl <= pend && pend <= b.len() {
                            match spec_parse_entries(b, pend, end_ok, top) {
                                Ok((es, end2)) => Ok((cons_entry(decode_utf8(nb), v, es), end2)),
                                Err(e) => Err(e),
                            }
                        } else {
                            Err(WireErr::Eof)
                        },
                    }
                }
            }
        }
    }
}

/// What the reader decodes from a whole input: the root compound read as a
/// body of entries from the first byte, tolerating end of input in place of
/// the final terminator.
pub open spec fn spec_parse_doc(b: Seq<u8>) -> Result<TagV, WireErr> {
    match spec_parse_entries(b, 0, false, true) {
        Ok((es, _)) => Ok(TagV::Compound(es)),
        Err(e) => Err(e),
    }
}


/// What the earlier decoder decodes from a whole input: as
/// `spec_parse_doc`, but a value position whose type code is 0x00 decodes
/// to the `End` sentinel.
pub open spec fn spec_parse_doc_legacy(b: Seq<u8>) -> Result<TagV, WireErr> {
    match spec_parse_entries(b, 0, true, true) {
        Ok((es, _)) => Ok(TagV::Compound(es)),
        Err(e) => Err(e),
    }
}

} // verus!
