//! The laws of the codec: a well-formed tree always writes, what was
//! written parses back to the same tree, and what parses is well-formed —
//! together, reader and writer are exact inverses.

use vstd::prelude::*;
use vstd::utf8::{encode_utf8, decode_utf8};
use crate::wire::{
    TagV, WireErr, type_code_of, wf, wf_list, wf_entries, has_key, cons_entry, enc_i8s, enc_i32s,
    enc_i64s, spec_write_str, spec_write_payload, spec_write_list, spec_write_entries,
    spec_write_doc, spec_parse_payload, spec_parse_elems, spec_parse_entries, spec_parse_doc,
};
use crate::scalars::{
    spec_u16_from_be, spec_u32_to_be, spec_u32_from_be, spec_u64_to_be,
    spec_u64_from_be, lemma_u16_be_round_trip, lemma_u32_be_round_trip, lemma_u64_be_round_trip,
    lemma_i8_bits_round_trip, lemma_i16_bits_round_trip, lemma_i32_bits_round_trip,
    lemma_i64_bits_round_trip,
};

verus! {

/// A value's type code is 0x00 exactly when the value is the `End`
/// sentinel.
pub proof fn lemma_code_zero_is_end(t: TagV)
    ensures
        (type_code_of(t) == 0x00) <==> (t is End),
{
    match t {
        TagV::End => {},
        TagV::Byte(_) => {},
        TagV::Short(_) => {},
        TagV::Int(_) => {},
        TagV::Long(_) => {},
        TagV::Float(_) => {},
        TagV::Double(_) => {},
        TagV::Bytes(_) => {},
        TagV::Str(_) => {},
        TagV::List(_) => {},
        TagV::Compound(_) => {},
        TagV::Ints(_) => {},
        TagV::Longs(_) => {},
    }
}

/// `enc_i8s` is the elementwise bit reinterpretation.
pub proof fn lemma_enc_i8s(s: Seq<i8>)
    ensures
        enc_i8s(s).len() == s.len(),
        forall|i: int| 0 <= i < s.len() ==> #[trigger] enc_i8s(s)[i] == s[i] as u8,
    decreases s,
{
    if s.len() > 0 {
        lemma_enc_i8s(s.drop_first());
        assert forall|i: int| 0 <= i < s.len() implies #[trigger] enc_i8s(s)[i] == s[i] as u8 by {
            if i > 0 {
                assert(s.drop_first()[i - 1] == s[i]);
                assert(enc_i8s(s)[i] == enc_i8s(s.drop_first())[i - 1]);
            }
        }
    }
}

/// The length of `enc_i32s`.
pub proof fn lemma_enc_i32s_len(s: Seq<i32>)
    ensures
        enc_i32s(s).len() == 4 * s.len(),
    decreases s,
{
    if s.len() > 0 {
        lemma_enc_i32s_len(s.drop_first());
    }
}

/// The four bytes of element `i` inside `enc_i32s`.
pub proof fn lemma_enc_i32s_index(s: Seq<i32>, i: int)
    requires
        0 <= i < s.len(),
    ensures
        enc_i32s(s)[4 * i] == spec_u32_to_be(s[i] as u32)[0],
        enc_i32s(s)[4 * i + 1] == spec_u32_to_be(s[i] as u32)[1],
        enc_i32s(s)[4 * i + 2] == spec_u32_to_be(s[i] as u32)[2],
        enc_i32s(s)[4 * i + 3] == spec_u32_to_be(s[i] as u32)[3],
    decreases s,
{
    lemma_enc_i32s_len(s);
    if i == 0 {
    } else {
        lemma_enc_i32s_index(s.drop_first(), i - 1);
        lemma_enc_i32s_len(s.drop_first());
        assert(s.drop_first()[i - 1] == s[i]);
        assert(enc_i32s(s)[4 * i] == enc_i32s(s.drop_first())[4 * (i - 1)]);
        assert(enc_i32s(s)[4 * i + 1] == enc_i32s(s.drop_first())[4 * (i - 1) + 1]);
        assert(enc_i32s(s)[4 * i + 2] == enc_i32s(s.drop_first())[4 * (i - 1) + 2]);
        assert(enc_i32s(s)[4 * i + 3] == enc_i32s(s.drop_first())[4 * (i - 1) + 3]);
    }
}

/// The length of `enc_i64s`.
pub proof fn lemma_enc_i64s_len(s: Seq<i64>)
    ensures
        enc_i64s(s).len() == 8 * s.len(),
    decreases s,
{
    if s.len() > 0 {
        lemma_enc_i64s_len(s.drop_first());
    }
}

/// The eight bytes of element `i` inside `enc_i64s`.
pub proof fn lemma_enc_i64s_index(s: Seq<i64>, i: int)
    requires
        0 <= i < s.len(),
    ensures
        enc_i64s(s)[8 * i] == spec_u64_to_be(s[i] as u64)[0],
        enc_i64s(s)[8 * i + 1] == spec_u64_to_be(s[i] as u64)[1],
        enc_i64s(s)[8 * i + 2] == spec_u64_to_be(s[i] as u64)[2],
        enc_i64s(s)[8 * i + 3] == spec_u64_to_be(s[i] as u64)[3],
        enc_i64s(s)[8 * i + 4] == spec_u64_to_be(s[i] as u64)[4],
        enc_i64s(s)[8 * i + 5] == spec_u64_to_be(s[i] as u64)[5],
        enc_i64s(s)[8 * i + 6] == spec_u64_to_be(s[i] as u64)[6],
        enc_i64s(s)[8 * i + 7] == spec_u64_to_be(s[i] as u64)[7],
    decreases s,
{
    lemma_enc_i64s_len(s);
    if i == 0 {
    } else {
        lemma_enc_i64s_index(s.drop_first(), i - 1);
        lemma_enc_i64s_len(s.drop_first());
        assert(s.drop_first()[i - 1] == s[i]);
        assert(enc_i64s(s)[8 * i] == enc_i64s(s.drop_first())[8 * (i - 1)]);
        assert(enc_i64s(s)[8 * i + 1] == enc_i64s(s.drop_first())[8 * (i - 1) + 1]);
        assert(enc_i64s(s)[8 * i + 2] == enc_i64s(s.drop_first())[8 * (i - 1) + 2]);
        assert(enc_i64s(s)[8 * i + 3] == enc_i64s(s.drop_first())[8 * (i - 1) + 3]);
        assert(enc_i64s(s)[8 * i + 4] == enc_i64s(s.drop_first())[8 * (i - 1) + 4]);
        assert(enc_i64s(s)[8 * i + 5] == enc_i64s(s.drop_first())[8 * (i - 1) + 5]);
        assert(enc_i64s(s)[8 * i + 6] == enc_i64s(s.drop_first())[8 * (i - 1) + 6]);
        assert(enc_i64s(s)[8 * i + 7] == enc_i64s(s.drop_first())[8 * (i - 1) + 7]);
    }
}

/// A well-formed value always writes successfully.
pub proof fn lemma_wf_writes(t: TagV)
    requires
        wf(t),
    ensures
        spec_write_payload(t) is Ok,
    decreases t,
{
    broadcast use vstd::utf8::encode_utf8_valid_utf8;

    match t {
        TagV::List(l) => {
            let code = if l.len() == 0 {
                0x00u8
            } else {
                type_code_of(l[0])
            };
            lemma_wf_list_writes(l, code);
        },
        TagV::Compound(es) => {
            lemma_wf_entries_writes(es);
        },
        _ => {},
    }
}

/// Every element of a well-formed homogeneous list writes successfully.
pub proof fn lemma_wf_list_writes(l: Seq<TagV>, code: u8)
    requires
        wf_list(l),
        forall|i: int| 0 <= i < l.len() ==> type_code_of(#[trigger] l[i]) == code,
    ensures
        spec_write_list(l, code) is Ok,
    decreases l,
{
    if l.len() > 0 {
        lemma_wf_writes(l[0]);
        assert(forall|i: int|
            0 <= i < l.drop_first().len() ==> type_code_of(#[trigger] l.drop_first()[i]) == code);
        lemma_wf_list_writes(l.drop_first(), code);
    }
}

/// Every entry of a well-formed compound body writes successfully.
pub proof fn lemma_wf_entries_writes(es: Seq<(Seq<char>, TagV)>)
    requires
        wf_entries(es),
    ensures
        spec_write_entries(es) is Ok,
    decreases es,
{
    if es.len() > 0 {
        lemma_code_zero_is_end(es[0].1);
        lemma_wf_writes(es[0].1);
        lemma_wf_entries_writes(es.drop_first());
    }
}



/// Elementwise reconstruction of an IntArray payload written for `s`.
#[verifier::rlimit(100)]
#[verifier::spinoff_prover]
proof fn lemma_ints_elems(s: Seq<i32>, b: Seq<u8>, pos: int)
    requires
        s.len() <= 0x7FFF_FFFF,
        forall|k: int|
            pos <= k < pos + spec_write_payload(TagV::Ints(s))->Ok_0.len() ==> #[trigger] b[k]
                == spec_write_payload(TagV::Ints(s))->Ok_0[k - pos],
    ensures
        Seq::new(
            s.len(),
            |i: int|
                spec_u32_from_be(
                    b[pos + 4 + 4 * i],
                    b[pos + 4 + 4 * i + 1],
                    b[pos + 4 + 4 * i + 2],
                    b[pos + 4 + 4 * i + 3],
                ) as i32,
        ) =~= s,
{
    let wb = spec_write_payload(TagV::Ints(s))->Ok_0;
    lemma_enc_i32s_len(s);
    assert forall|i: int|
        0 <= i < s.len() implies spec_u32_from_be(
        b[pos + 4 + 4 * i],
        b[pos + 4 + 4 * i + 1],
        b[pos + 4 + 4 * i + 2],
        b[pos + 4 + 4 * i + 3],
    ) as i32 == s[i] by {
        lemma_enc_i32s_index(s, i);
        assert(b[pos + 4 + 4 * i] == wb[4 + 4 * i]);
        assert(b[pos + 4 + 4 * i + 1] == wb[4 + 4 * i + 1]);
        assert(b[pos + 4 + 4 * i + 2] == wb[4 + 4 * i + 2]);
        assert(b[pos + 4 + 4 * i + 3] == wb[4 + 4 * i + 3]);
        assert(wb[4 + 4 * i] == enc_i32s(s)[4 * i]);
        assert(wb[4 + 4 * i + 1] == enc_i32s(s)[4 * i + 1]);
        assert(wb[4 + 4 * i + 2] == enc_i32s(s)[4 * i + 2]);
        assert(wb[4 + 4 * i + 3] == enc_i32s(s)[4 * i + 3]);
        lemma_u32_be_round_trip(s[i] as u32);
        lemma_i32_bits_round_trip(s[i]);
    }
}

/// Elementwise reconstruction of a LongArray payload written for `s`.
#[verifier::rlimit(100)]
#[verifier::spinoff_prover]
proof fn lemma_longs_elems(s: Seq<i64>, b: Seq<u8>, pos: int)
    requires
        s.len() <= 0x7FFF_FFFF,
        forall|k: int|
            pos <= k < pos + spec_write_payload(TagV::Longs(s))->Ok_0.len() ==> #[trigger] b[k]
                == spec_write_payload(TagV::Longs(s))->Ok_0[k - pos],
    ensures
        Seq::new(
            s.len(),
            |i: int|
                spec_u64_from_be(
                    b[pos + 4 + 8 * i],
                    b[pos + 4 + 8 * i + 1],
                    b[pos + 4 + 8 * i + 2],
                    b[pos + 4 + 8 * i + 3],
                    b[pos + 4 + 8 * i + 4],
                    b[pos + 4 + 8 * i + 5],
                    b[pos + 4 + 8 * i + 6],
                    b[pos + 4 + 8 * i + 7],
                ) as i64,
        ) =~= s,
{
    let wb = spec_write_payload(TagV::Longs(s))->Ok_0;
    lemma_enc_i64s_len(s);
    assert forall|i: int|
        0 <= i < s.len() implies spec_u64_from_be(
        b[pos + 4 + 8 * i],
        b[pos + 4 + 8 * i + 1],
        b[pos + 4 + 8 * i + 2],
        b[pos + 4 + 8 * i + 3],
        b[pos + 4 + 8 * i + 4],
        b[pos + 4 + 8 * i + 5],
        b[pos + 4 + 8 * i + 6],
        b[pos + 4 + 8 * i + 7],
    ) as i64 == s[i] by {
        lemma_enc_i64s_index(s, i);
        assert(b[pos + 4 + 8 * i] == wb[4 + 8 * i]);
        assert(b[pos + 4 + 8 * i + 1] == wb[4 + 8 * i + 1]);
        assert(b[pos + 4 + 8 * i + 2] == wb[4 + 8 * i + 2]);
        assert(b[pos + 4 + 8 * i + 3] == wb[4 + 8 * i + 3]);
        assert(b[pos + 4 + 8 * i + 4] == wb[4 + 8 * i + 4]);
        assert(b[pos + 4 + 8 * i + 5] == wb[4 + 8 * i + 5]);
        assert(b[pos + 4 + 8 * i + 6] == wb[4 + 8 * i + 6]);
        assert(b[pos + 4 + 8 * i + 7] == wb[4 + 8 * i + 7]);
        assert(wb[4 + 8 * i] == enc_i64s(s)[8 * i]);
        assert(wb[4 + 8 * i + 1] == enc_i64s(s)[8 * i + 1]);
        assert(wb[4 + 8 * i + 2] == enc_i64s(s)[8 * i + 2]);
        assert(wb[4 + 8 * i + 3] == enc_i64s(s)[8 * i + 3]);
        assert(wb[4 + 8 * i + 4] == enc_i64s(s)[8 * i + 4]);
        assert(wb[4 + 8 * i + 5] == enc_i64s(s)[8 * i + 5]);
        assert(wb[4 + 8 * i + 6] == enc_i64s(s)[8 * i + 6]);
        assert(wb[4 + 8 * i + 7] == enc_i64s(s)[8 * i + 7]);
        lemma_u64_be_round_trip(s[i] as u64);
        lemma_i64_bits_round_trip(s[i]);
    }
}

/// What the writer emitted for one payload parses back, at any position in
/// any larger buffer, to exactly the written value.
#[verifier::rlimit(100)]
#[verifier::spinoff_prover]
pub proof fn lemma_payload_round_trip(t: TagV, b: Seq<u8>, pos: int, end_ok: bool)
    requires
        wf(t),
        spec_write_payload(t) is Ok,
        0 <= pos,
        pos + spec_write_payload(t)->Ok_0.len() <= b.len(),
        b.subrange(pos, pos + spec_write_payload(t)->Ok_0.len()) == spec_write_payload(t)->Ok_0,
    ensures
        spec_parse_payload(type_code_of(t), b, pos, end_ok) == Ok::<(TagV, int), WireErr>(
            (t, pos + spec_write_payload(t)->Ok_0.len()),
        ),
    decreases t,
{
    broadcast use vstd::utf8::encode_utf8_valid_utf8;
    broadcast use vstd::utf8::encode_utf8_decode_utf8;

    let wb = spec_write_payload(t)->Ok_0;
    assert forall|k: int| pos <= k < pos + wb.len() implies #[trigger] b[k] == wb[k - pos] by {
        assert(b.subrange(pos, pos + wb.len())[k - pos] == b[k]);
    }
    match t {
        TagV::End => {},
        TagV::Byte(v) => {
            lemma_i8_bits_round_trip(v);
        },
        TagV::Short(v) => {
            lemma_u16_be_round_trip(v as u16);
            lemma_i16_bits_round_trip(v);
        },
        TagV::Int(v) => {
            lemma_u32_be_round_trip(v as u32);
            lemma_i32_bits_round_trip(v);
        },
        TagV::Long(v) => {
            lemma_u64_be_round_trip(v as u64);
            lemma_i64_bits_round_trip(v);
        },
        TagV::Float(bits) => {
            lemma_u32_be_round_trip(bits);
        },
        TagV::Double(bits) => {
            lemma_u64_be_round_trip(bits);
        },
        TagV::Bytes(s) => {
            lemma_enc_i8s(s);
            lemma_u32_be_round_trip(s.len() as u32);
            let declared = spec_u32_from_be(b[pos], b[pos + 1], b[pos + 2], b[pos + 3]) as i32;
            assert(declared == s.len());
            assert forall|i: int| 0 <= i < s.len() implies b[pos + 4 + i] as i8 == s[i] by {
                assert(b[pos + 4 + i] == wb[4 + i]);
                assert(wb[4 + i] == enc_i8s(s)[i]);
                lemma_i8_bits_round_trip(s[i]);
            }
            assert(Seq::new(s.len(), |i: int| b[pos + 4 + i] as i8) =~= s);
        },
        TagV::Str(s) => {
            let eub = encode_utf8(s);
            lemma_u16_be_round_trip(eub.len() as u16);
            let n = spec_u16_from_be(b[pos], b[pos + 1]) as int;
            assert(n == eub.len());
            assert(b.subrange(pos + 2, pos + 2 + n) =~= eub);
            assert(decode_utf8(eub) == s);
        },
        TagV::List(l) => {
            let code = if l.len() == 0 {
                0x00u8
            } else {
                type_code_of(l[0])
            };
            let lb = spec_write_list(l, code)->Ok_0;
            lemma_u32_be_round_trip(l.len() as u32);
            let declared = spec_u32_from_be(
                b[pos + 1],
                b[pos + 2],
                b[pos + 3],
                b[pos + 4],
            ) as i32;
            assert(declared == l.len());
            assert(b.subrange(pos + 5, pos + 5 + lb.len()) =~= lb);
            lemma_list_round_trip(l, code, b, pos + 5, end_ok);
        },
        TagV::Compound(es) => {
            let eb = spec_write_entries(es)->Ok_0;
            assert(b[pos + eb.len()] == wb[eb.len() as int]);
            assert(b.subrange(pos, pos + eb.len()) =~= eb);
            lemma_entries_round_trip(es, b, pos, end_ok, false);
            lemma_entries_round_trip(es, b, pos, end_ok, true);
        },
        TagV::Ints(s) => {
            lemma_u32_be_round_trip(s.len() as u32);
            lemma_enc_i32s_len(s);
            lemma_ints_elems(s, b, pos);
        },
        TagV::Longs(s) => {
            lemma_u32_be_round_trip(s.len() as u32);
            lemma_enc_i64s_len(s);
            lemma_longs_elems(s, b, pos);
        },
    }
}

/// What the writer emitted for a homogeneous list's elements parses back
/// to exactly those elements.
#[verifier::rlimit(100)]
#[verifier::spinoff_prover]
pub proof fn lemma_list_round_trip(l: Seq<TagV>, code: u8, b: Seq<u8>, pos: int, end_ok: bool)
    requires
        wf_list(l),
        forall|i: int| 0 <= i < l.len() ==> type_code_of(#[trigger] l[i]) == code,
        spec_write_list(l, code) is Ok,
        0 <= pos,
        pos + spec_write_list(l, code)->Ok_0.len() <= b.len(),
        b.subrange(pos, pos + spec_write_list(l, code)->Ok_0.len()) == spec_write_list(
            l,
            code,
        )->Ok_0,
    ensures
        spec_parse_elems(code, b, pos, l.len(), end_ok) == Ok::<(Seq<TagV>, int), WireErr>(
            (l, pos + spec_write_list(l, code)->Ok_0.len()),
        ),
    decreases l,
{
    let lb = spec_write_list(l, code)->Ok_0;
    assert forall|k: int| pos <= k < pos + lb.len() implies #[trigger] b[k] == lb[k - pos] by {
        assert(b.subrange(pos, pos + lb.len())[k - pos] == b[k]);
    }
    if l.len() == 0 {
        assert(Seq::<TagV>::empty() =~= l);
    } else {
        let pb = spec_write_payload(l[0])->Ok_0;
        let rest = spec_write_list(l.drop_first(), code)->Ok_0;
        assert(lb == pb + rest);
        assert(b.subrange(pos, pos + pb.len()) =~= pb);
        lemma_payload_round_trip(l[0], b, pos, end_ok);
        assert(b.subrange(pos + pb.len(), pos + pb.len() + rest.len()) =~= rest);
        assert(forall|i: int|
            0 <= i < l.drop_first().len() ==> type_code_of(#[trigger] l.drop_first()[i]) == code);
        lemma_list_round_trip(l.drop_first(), code, b, pos + pb.len(), end_ok);
        assert(seq![l[0]] + l.drop_first() =~= l);
    }
}

/// What the writer emitted for a compound body parses back to exactly
/// those entries: up to a following 0x00 terminator byte, or, at the top
/// level, up to the end of the input.
#[verifier::rlimit(100)]
#[verifier::spinoff_prover]
pub proof fn lemma_entries_round_trip(
    es: Seq<(Seq<char>, TagV)>,
    b: Seq<u8>,
    pos: int,
    end_ok: bool,
    top: bool,
)
    requires
        wf_entries(es),
        forall|i: int, j: int| 0 <= i < j < es.len() ==> es[i].0 != es[j].0,
        spec_write_entries(es) is Ok,
        0 <= pos,
        pos + spec_write_entries(es)->Ok_0.len() <= b.len(),
        b.subrange(pos, pos + spec_write_entries(es)->Ok_0.len()) == spec_write_entries(es)->Ok_0,
        (pos + spec_write_entries(es)->Ok_0.len() < b.len() && b[pos + spec_write_entries(
            es,
        )->Ok_0.len()] == 0x00) || (top && pos + spec_write_entries(es)->Ok_0.len() == b.len()),
    ensures
        spec_parse_entries(b, pos, end_ok, top) == Ok::<(Seq<(Seq<char>, TagV)>, int), WireErr>(
            (
                es,
                if pos + spec_write_entries(es)->Ok_0.len() < b.len() {
                    pos + spec_write_entries(es)->Ok_0.len() + 1
                } else {
                    pos + spec_write_entries(es)->Ok_0.len()
                },
            ),
        ),
    decreases es,
{
    broadcast use vstd::utf8::encode_utf8_valid_utf8;
    broadcast use vstd::utf8::encode_utf8_decode_utf8;

    let eb = spec_write_entries(es)->Ok_0;
    assert forall|k: int| pos <= k < pos + eb.len() implies #[trigger] b[k] == eb[k - pos] by {
        assert(b.subrange(pos, pos + eb.len())[k - pos] == b[k]);
    }
    if es.len() == 0 {
        assert(Seq::<(Seq<char>, TagV)>::empty() =~= es);
    } else {
        let name = es[0].0;
        let v = es[0].1;
        let code = type_code_of(v);
        let eub = encode_utf8(name);
        let nb = spec_write_str(name)->Ok_0;
        let pb = spec_write_payload(v)->Ok_0;
        let rest = spec_write_entries(es.drop_first())->Ok_0;
        assert(eb == seq![code] + nb + pb + rest);
        lemma_code_zero_is_end(v);
        assert(b[pos] == code);
        lemma_u16_be_round_trip(eub.len() as u16);
        assert(b[pos + 1] == nb[0]);
        assert(b[pos + 2] == nb[1]);
        let nl = spec_u16_from_be(b[pos + 1], b[pos + 2]) as int;
        assert(nl == eub.len());
        assert(b.subrange(pos + 3, pos + 3 + nl) =~= eub);
        assert(decode_utf8(eub) == name);
        assert(b.subrange(pos + 3 + nl, pos + 3 + nl + pb.len()) =~= pb);
        lemma_payload_round_trip(v, b, pos + 3 + nl, end_ok);
        let pend = pos + 3 + nl + pb.len();
        assert(b.subrange(pend, pend + rest.len()) =~= rest);
        lemma_entries_round_trip(es.drop_first(), b, pend, end_ok, top);
        assert(!has_key(es.drop_first(), name)) by {
            assert forall|i: int| 0 <= i < es.drop_first().len() implies es.drop_first()[i].0
                != name by {
                assert(es.drop_first()[i] == es[i + 1]);
            }
        }
        assert(cons_entry(name, v, es.drop_first()) =~= es);
    }
}


/// What the reader decodes at a value position is well-formed and carries
/// the type code it was decoded under.
#[verifier::rlimit(100)]
#[verifier::spinoff_prover]
pub proof fn lemma_parse_payload_wf(code: u8, b: Seq<u8>, pos: int)
    requires
        spec_parse_payload(code, b, pos, false) is Ok,
    ensures
        wf(spec_parse_payload(code, b, pos, false)->Ok_0.0),
        type_code_of(spec_parse_payload(code, b, pos, false)->Ok_0.0) == code,
        pos <= spec_parse_payload(code, b, pos, false)->Ok_0.1 <= b.len(),
    decreases b.len() - pos, 1int, 0int,
{
    broadcast use vstd::utf8::decode_utf8_encode_utf8;

    if code == 0x08 {
        let n = spec_u16_from_be(b[pos], b[pos + 1]) as int;
        let nb = b.subrange(pos + 2, pos + 2 + n);
        assert(encode_utf8(decode_utf8(nb)) == nb);
    } else if code == 0x09 {
        let elem_code = b[pos];
        let declared = spec_u32_from_be(b[pos + 1], b[pos + 2], b[pos + 3], b[pos + 4]) as i32;
        let n: int = if declared < 0 {
            0
        } else {
            declared as int
        };
        lemma_parse_elems_wf(elem_code, b, pos + 5, n as nat);
    } else if code == 0x0A {
        lemma_parse_entries_wf(b, pos, false);
    }
}

/// Every element the reader decodes for a list is well-formed and carries
/// the list's declared element type: reading succeeds only when the whole
/// list is homogeneous under that type.
#[verifier::rlimit(100)]
#[verifier::spinoff_prover]
pub proof fn lemma_parse_elems_wf(code: u8, b: Seq<u8>, pos: int, n: nat)
    requires
        spec_parse_elems(code, b, pos, n, false) is Ok,
    ensures
        ({
            let l = spec_parse_elems(code, b, pos, n, false)->Ok_0.0;
            &&& l.len() == n
            &&& wf_list(l)
            &&& forall|i: int| 0 <= i < l.len() ==> type_code_of(#[trigger] l[i]) == code
            &&& pos <= spec_parse_elems(code, b, pos, n, false)->Ok_0.1 <= b.len()
        }),
    decreases b.len() - pos, 2int, n,
{
    if n == 0 {
    } else {
        lemma_parse_payload_wf(code, b, pos);
        let (v, end) = spec_parse_payload(code, b, pos, false)->Ok_0;
        lemma_parse_elems_wf(code, b, end, (n - 1) as nat);
        let l2 = spec_parse_elems(code, b, end, (n - 1) as nat, false)->Ok_0.0;
        assert((seq![v] + l2).drop_first() =~= l2);
    }
}

/// Every entry the reader decodes for a compound body is well-formed, and
/// the decoded entries carry pairwise distinct names.
#[verifier::rlimit(100)]
#[verifier::spinoff_prover]
pub proof fn lemma_parse_entries_wf(b: Seq<u8>, pos: int, top: bool)
    requires
        spec_parse_entries(b, pos, false, top) is Ok,
    ensures
        ({
            let es = spec_parse_entries(b, pos, false, top)->Ok_0.0;
            &&& wf_entries(es)
            &&& forall|i: int, j: int| 0 <= i < j < es.len() ==> es[i].0 != es[j].0
            &&& pos <= spec_parse_entries(b, pos, false, top)->Ok_0.1 <= b.len()
        }),
    decreases b.len() - pos, 0int, 0int,
{
    broadcast use vstd::utf8::decode_utf8_encode_utf8;

    if pos < 0 || pos > b.len() {
    } else if pos == b.len() {
    } else if b[pos] == 0x00 {
    } else {
        let code = b[pos];
        let nl = spec_u16_from_be(b[pos + 1], b[pos + 2]) as int;
        let nb = b.subrange(pos + 3, pos + 3 + nl);
        let name = decode_utf8(nb);
        assert(encode_utf8(name) == nb);
        lemma_parse_payload_wf(code, b, pos + 3 + nl);
        let (v, pend) = spec_parse_payload(code, b, pos + 3 + nl, false)->Ok_0;
        lemma_parse_entries_wf(b, pend, top);
        let rest = spec_parse_entries(b, pend, false, top)->Ok_0.0;
        if has_key(rest, name) {
        } else {
            let es = seq![(name, v)] + rest;
            assert(es.drop_first() =~= rest);
            assert forall|i: int, j: int| 0 <= i < j < es.len() implies es[i].0 != es[j].0 by {
                if i == 0 {
                    assert(es[j] == rest[j - 1]);
                    assert(!has_key(rest, name));
                    assert(0 <= j - 1 < rest.len());
                } else {
                    assert(es[i] == rest[i - 1]);
                    assert(es[j] == rest[j - 1]);
                }
            }
        }
    }
}

// ---------------------------------------------------------------------------
// The codec's laws, stated over whole documents.
// ---------------------------------------------------------------------------

/// Round-trip identity: every well-formed tree whose root is a compound
/// writes successfully, and reading the written bytes yields the same
/// tree.
pub proof fn lemma_write_then_read(t: TagV)
    requires
        wf(t),
        t is Compound,
    ensures
        spec_write_doc(t) is Ok,
        spec_parse_doc(spec_write_doc(t)->Ok_0) == Ok::<TagV, WireErr>(t),
{
    let es = t->Compound_0;
    lemma_wf_entries_writes(es);
    let eb = spec_write_entries(es)->Ok_0;
    assert(eb.subrange(0, eb.len() as int) =~= eb);
    lemma_entries_round_trip(es, eb, 0, false, true);
}

/// Byte round-trip: any input that parses yields a well-formed tree, that
/// tree writes successfully, and the written bytes parse to the same tree
/// as the original input.
pub proof fn lemma_read_then_write(b: Seq<u8>)
    requires
        spec_parse_doc(b) is Ok,
    ensures
        wf(spec_parse_doc(b)->Ok_0),
        spec_write_doc(spec_parse_doc(b)->Ok_0) is Ok,
        spec_parse_doc(spec_write_doc(spec_parse_doc(b)->Ok_0)->Ok_0) == spec_parse_doc(b),
{
    lemma_parse_entries_wf(b, 0, true);
    let t = spec_parse_doc(b)->Ok_0;
    lemma_write_then_read(t);
}

/// Terminator discipline: the payload of every well-formed compound ends
/// with the 0x00 terminator byte.
pub proof fn lemma_compound_payload_terminated(t: TagV)
    requires
        wf(t),
        t is Compound,
    ensures
        spec_write_payload(t) is Ok,
        spec_write_payload(t)->Ok_0.len() > 0,
        spec_write_payload(t)->Ok_0.last() == 0x00,
{
    lemma_wf_writes(t);
}

/// List homogeneity, writer side: a list holding an element whose type
/// differs from the first element's type never writes.
pub proof fn lemma_heterogeneous_list_write_fails(l: Seq<TagV>, i: int)
    requires
        0 <= i < l.len(),
        type_code_of(l[i]) != type_code_of(l[0]),
    ensures
        spec_write_payload(TagV::List(l)) is Err,
{
    if l.len() <= 0x7FFF_FFFF {
        lemma_list_mismatch(l, type_code_of(l[0]), i);
    }
}

/// A list with an element whose type differs from the declared element
/// code never writes.
proof fn lemma_list_mismatch(l: Seq<TagV>, code: u8, i: int)
    requires
        0 <= i < l.len(),
        type_code_of(l[i]) != code,
    ensures
        spec_write_list(l, code) is Err,
    decreases l,
{
    if type_code_of(l[0]) == code {
        if spec_write_payload(l[0]) is Ok {
            assert(l.drop_first()[i - 1] == l[i]);
            lemma_list_mismatch(l.drop_first(), code, i - 1);
        }
    }
}


/// Endianness: a 16-bit scalar is read most-significant byte first, so
/// swapping two distinct payload bytes yields a different value.
pub proof fn lemma_swapped_bytes_read_differently(b0: u8, b1: u8)
    requires
        b0 != b1,
    ensures
        spec_u16_from_be(b0, b1) != spec_u16_from_be(b1, b0),
{
    assert(b0 != b1 ==> ((b0 as u16) << 8 | (b1 as u16)) != ((b1 as u16) << 8 | (
    b0 as u16))) by (bit_vector);
}

/// Terminator discipline, reader side: a compound body that reaches the
/// end of the input without its 0x00 terminator is an error, except at
/// the top level, where the end of the input is read as an implicit
/// terminator.
pub proof fn lemma_end_of_input_closes_top_level_only(b: Seq<u8>, end_ok: bool, top: bool)
    ensures
        spec_parse_entries(b, b.len() as int, end_ok, top) == if top {
            Ok::<(Seq<(Seq<char>, TagV)>, int), WireErr>((Seq::empty(), b.len() as int))
        } else {
            Err::<(Seq<(Seq<char>, TagV)>, int), WireErr>(WireErr::Eof)
        },
{
}

} // verus!
