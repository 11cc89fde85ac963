use vstd::prelude::*;

use crate::text::{
    first_nul, is_wide_text, lemma_first_nul_after_text, lemma_utf16_of_injective,
    lemma_utf16_of_nul_free, text_of, utf16_of, valid_utf16,
};
use crate::util::{le_bytes_of_units, lemma_units_of_le_bytes_inverse};
use crate::value::{
    decode_multi, decode_spec, decodes_to, encode_spec, le_u32_bytes, le_u64_bytes, multi_string_entries,
    multi_string_units, read_le_u32, read_le_u64, read_be_u32, be_u32_bytes, split_at_nul,
    terminated_units, DataView, Error, Type, TYPE_TAG_MAX,
};

verus! {

proof fn lemma_u32_bytes(v: u32)
    ensures
        read_le_u32(le_u32_bytes(v)) == v,
        read_be_u32(be_u32_bytes(v)) == v,
{
    let b = le_u32_bytes(v);
    assert(b[0] + 0x100 * b[1] + 0x10000 * b[2] + 0x1000000 * b[3] == v) by (nonlinear_arith)
        requires
            b[0] == v % 0x100,
            b[1] == v / 0x100 % 0x100,
            b[2] == v / 0x10000 % 0x100,
            b[3] == v / 0x1000000,
            0 <= v < 0x1_0000_0000,
    {
    }
}

proof fn lemma_u64_bytes(w: u64)
    ensures
        read_le_u64(le_u64_bytes(w)) == w,
{
    let lo = (w % 0x1_0000_0000) as u32;
    let hi = (w / 0x1_0000_0000) as u32;
    lemma_u32_bytes(lo);
    lemma_u32_bytes(hi);
    let b = le_u64_bytes(w);
    assert(b.skip(4) =~= le_u32_bytes(hi));
    assert(read_le_u32(b) == read_le_u32(le_u32_bytes(lo)));
    assert(lo + 0x1_0000_0000 * hi == w);
}

/// Numbers come back from their stored bytes: a `U32`, a `U32BE` and a
/// `U64` value decode to the value that was encoded.
#[verifier::rlimit(30)]
pub proof fn lemma_scalar_round_trip(v: u32, w: u64)
    ensures
        decode_spec(Type::U32.tag(), encode_spec(DataView::U32(v))) == Ok::<DataView, Error>(DataView::U32(v)),
        decode_spec(Type::U32BE.tag(), encode_spec(DataView::U32BE(v))) == Ok::<DataView, Error>(DataView::U32BE(v)),
        decode_spec(Type::U64.tag(), encode_spec(DataView::U64(w))) == Ok::<DataView, Error>(DataView::U64(w)),
{
    lemma_u32_bytes(v);
    lemma_u64_bytes(w);
    assert(encode_spec(DataView::U32(v)) == le_u32_bytes(v));
    assert(encode_spec(DataView::U32BE(v)) == be_u32_bytes(v));
    assert(encode_spec(DataView::U64(w)) == le_u64_bytes(w));
}

/// Text round-trips: a NUL-free, well-formed string stored as a `String` or
/// an `ExpandString` decodes to the same code units.
pub proof fn lemma_text_round_trip(s: Seq<u16>)
    requires
        is_wide_text(s),
    ensures
        decode_spec(Type::String.tag(), encode_spec(DataView::String(s))) == Ok::<DataView, Error>(DataView::String(s)),
        decode_spec(Type::ExpandString.tag(), encode_spec(DataView::ExpandString(s))) == Ok::<DataView, Error>(DataView::ExpandString(s)),
{
    let u = s.push(0u16);
    let b = le_bytes_of_units(u);
    lemma_units_of_le_bytes_inverse(u);
    assert(b.len() % 2 == 0);
    assert(u[s.len() as int] == 0u16);
    lemma_first_nul_after_text(s, Seq::empty());
    assert(s + seq![0u16] + Seq::<u16>::empty() =~= u);
    assert(u.take(first_nul(u)) =~= s);
}

/// Unicode text round-trips: text without a NUL character, stored as a
/// `String`, decodes to its own UTF-16 form, whose text is the same text.
pub proof fn lemma_unicode_text_round_trip(cs: Seq<char>)
    requires
        !cs.contains('\0'),
    ensures
        decode_spec(Type::String.tag(), encode_spec(DataView::String(utf16_of(cs)))) == Ok::<DataView, Error>(DataView::String(utf16_of(cs))),
        text_of(utf16_of(cs)) == cs,
{
    lemma_utf16_of_nul_free(cs);
    assert(valid_utf16(utf16_of(cs)));
    lemma_text_round_trip(utf16_of(cs));
    let t = text_of(utf16_of(cs));
    assert(utf16_of(t) == utf16_of(cs));
    lemma_utf16_of_injective(t, cs);
}

proof fn lemma_split_nul_free(x: Seq<u16>)
    requires
        !x.contains(0u16),
    ensures
        split_at_nul(x) == seq![x],
    decreases x.len(),
{
    if x.len() > 0 {
        let init = x.drop_last();
        assert(!init.contains(0u16)) by {
            if init.contains(0u16) {
                let k = choose|k: int| 0 <= k < init.len() && init[k] == 0u16;
                assert(x[k] == 0u16);
            }
        }
        lemma_split_nul_free(init);
        assert(x.last() != 0u16) by {
            assert(x[x.len() - 1] == x.last());
        }
        assert(init.push(x.last()) =~= x);
        assert(seq![init].update(0, init.push(x.last())) =~= seq![x]);
    } else {
        assert(x =~= Seq::<u16>::empty());
    }
}

proof fn lemma_split_after_nul(a: Seq<u16>, x: Seq<u16>)
    requires
        !x.contains(0u16),
    ensures
        split_at_nul(a.push(0u16) + x) == split_at_nul(a).push(x),
    decreases x.len(),
{
    if x.len() == 0 {
        assert(x =~= Seq::<u16>::empty());
        assert(a.push(0u16) + x =~= a.push(0u16));
        assert((a.push(0u16)).drop_last() =~= a);
    } else {
        let init = x.drop_last();
        assert(!init.contains(0u16)) by {
            if init.contains(0u16) {
                let k = choose|k: int| 0 <= k < init.len() && init[k] == 0u16;
                assert(x[k] == 0u16);
            }
        }
        lemma_split_after_nul(a, init);
        let s = a.push(0u16) + x;
        assert(s.drop_last() =~= a.push(0u16) + init);
        assert(s.last() == x.last());
        assert(x.last() != 0u16) by {
            assert(x[x.len() - 1] == x.last());
        }
        let p = split_at_nul(a).push(init);
        assert(p.update(p.len() - 1, p.last().push(x.last())) =~= split_at_nul(a).push(x)) by {
            assert(init.push(x.last()) =~= x);
        }
    }
}

proof fn lemma_split_terminated(l: Seq<Seq<u16>>)
    requires
        l.len() > 0,
        forall|i: int| 0 <= i < l.len() ==> !(#[trigger] l[i]).contains(0u16),
    ensures
        terminated_units(l).len() > 0,
        terminated_units(l).last() == 0u16,
        split_at_nul(terminated_units(l).drop_last()) == l,
        l.len() > 1 ==> terminated_units(l).drop_last().len() > 0,
        l.len() == 1 ==> terminated_units(l).drop_last() == l[0],
    decreases l.len(),
{
    let init = l.drop_last();
    let x = l.last();
    assert(!x.contains(0u16)) by {
        assert(l[l.len() - 1] == x);
    }
    let t = terminated_units(l);
    assert(t == terminated_units(init) + x.push(0u16));
    assert(t.drop_last() =~= terminated_units(init) + x);
    if init.len() == 0 {
        assert(terminated_units(init) =~= Seq::<u16>::empty());
        assert(t.drop_last() =~= x);
        lemma_split_nul_free(x);
        assert(l =~= seq![x]);
    } else {
        assert forall|i: int| 0 <= i < init.len() implies !(#[trigger] init[i]).contains(0u16) by {
            assert(init[i] == l[i]);
        }
        lemma_split_terminated(init);
        let a = terminated_units(init).drop_last();
        assert(terminated_units(init) =~= a.push(0u16));
        assert(t.drop_last() =~= a.push(0u16) + x);
        lemma_split_after_nul(a, x);
        assert(init.push(x) =~= l);
    }
}

#[verifier::rlimit(30)]
proof fn lemma_decode_multi_of_encoding(l: Seq<Seq<u16>>)
    requires
        forall|i: int| 0 <= i < l.len() ==> is_wide_text(#[trigger] l[i]),
        l != seq![Seq::<u16>::empty()],
    ensures
        decode_multi(le_bytes_of_units(multi_string_units(l))) == Ok::<Seq<Seq<u16>>, Error>(l),
{
    let u = multi_string_units(l);
    let b = le_bytes_of_units(u);
    lemma_units_of_le_bytes_inverse(u);
    assert(b.len() % 2 == 0);
    let body = u.take(u.len() - 2);
    if l.len() == 0 {
        assert(body =~= Seq::<u16>::empty());
        assert(multi_string_entries(body) =~= l);
    } else {
        assert forall|i: int| 0 <= i < l.len() implies !(#[trigger] l[i]).contains(0u16) by {
            assert(is_wide_text(l[i]));
        }
        lemma_split_terminated(l);
        let t = terminated_units(l);
        assert(u[u.len() - 2] == t.last());
        assert(body =~= t.drop_last());
        if l.len() == 1 {
            assert(l[0].len() > 0) by {
                if l[0].len() == 0 {
                    assert(l =~= seq![Seq::<u16>::empty()]);
                }
            }
        }
        assert(multi_string_entries(body) == l);
    }
    let entries = multi_string_entries(body);
    assert forall|i: int| 0 <= i < entries.len() implies valid_utf16(#[trigger] entries[i]) by {
        assert(is_wide_text(l[i]));
    }
}

/// Multi-strings round-trip: a list of NUL-free, well-formed strings decodes
/// to the same list, in order. The one list left out is the list holding a
/// single empty string, whose encoding is that of the empty list.
pub proof fn lemma_multi_string_round_trip(l: Seq<Seq<u16>>)
    requires
        forall|i: int| 0 <= i < l.len() ==> is_wide_text(#[trigger] l[i]),
        l != seq![Seq::<u16>::empty()],
    ensures
        decode_spec(Type::MultiString.tag(), encode_spec(DataView::MultiString(l))) == Ok::<DataView, Error>(DataView::MultiString(l)),
{
    lemma_decode_multi_of_encoding(l);
}

/// A tag beyond the known range is refused, whatever the buffer holds.
pub proof fn lemma_unknown_tag_rejected(ty: u32, b: Seq<u8>)
    requires
        ty > TYPE_TAG_MAX,
    ensures
        decode_spec(ty, b) == Err::<DataView, Error>(Error::UnhandledType(ty)),
{
}

/// A binary buffer decodes to itself, whatever it holds.
pub proof fn lemma_binary_passthrough(b: Seq<u8>)
    ensures
        decode_spec(Type::Binary.tag(), b) == Ok::<DataView, Error>(DataView::Binary(b)),
{
}

/// Decoding depends on the tag and the bytes alone: two results of decoding
/// the same input agree.
pub proof fn lemma_decode_deterministic(
    ty: u32,
    b: Seq<u8>,
    r1: Result<crate::value::Data, Error>,
    r2: Result<crate::value::Data, Error>,
)
    requires
        decodes_to(ty, b, r1),
        decodes_to(ty, b, r2),
    ensures
        r1 is Ok <==> r2 is Ok,
        (r1 is Ok && r2 is Ok) ==> r1->Ok_0@ == r2->Ok_0@,
        (r1 is Err && r2 is Err) ==> r1->Err_0 == r2->Err_0,
{
}

} // verus!
