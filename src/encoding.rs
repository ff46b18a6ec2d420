use vstd::prelude::*;
use vstd::utf8::{encode_utf8, encode_utf8_decode_utf8};
use crate::key::{enc_keys, enc_text, enc_value, field_codes, item_codes, le_bytes};
use crate::value::ValueView;

verus! {

/// Whether every length inside a value fits in 64 bits, as it does for any
/// value held in memory.
pub open spec fn fits(v: ValueView) -> bool
    decreases v,
{
    match v {
        ValueView::Bytes(b) => b.len() <= u64::MAX,
        ValueView::Regex(s) => encode_utf8(s).len() <= u64::MAX,
        ValueView::Array(items) => items.len() <= u64::MAX && forall|i: int|
            0 <= i < items.len() ==> fits(#[trigger] items[i]),
        ValueView::Object(fields) => fields.len() <= u64::MAX && forall|i: int|
            0 <= i < fields.len() ==> encode_utf8(#[trigger] fields[i].0).len() <= u64::MAX
                && fits(fields[i].1),
        _ => true,
    }
}

proof fn split_equal(x1: Seq<u8>, r1: Seq<u8>, x2: Seq<u8>, r2: Seq<u8>)
    requires
        x1.len() == x2.len(),
        x1 + r1 == x2 + r2,
    ensures
        x1 == x2,
        r1 == r2,
{
    assert(x1 =~= (x1 + r1).subrange(0, x1.len() as int));
    assert(x2 =~= (x2 + r2).subrange(0, x2.len() as int));
    assert(r1 =~= (x1 + r1).subrange(x1.len() as int, (x1 + r1).len() as int));
    assert(r2 =~= (x2 + r2).subrange(x2.len() as int, (x2 + r2).len() as int));
}

proof fn le_bytes_injective(a: u64, b: u64)
    requires
        le_bytes(a) == le_bytes(b),
    ensures
        a == b,
{
    assert(le_bytes(a)[0] == le_bytes(b)[0]);
    assert(le_bytes(a)[1] == le_bytes(b)[1]);
    assert(le_bytes(a)[2] == le_bytes(b)[2]);
    assert(le_bytes(a)[3] == le_bytes(b)[3]);
    assert(le_bytes(a)[4] == le_bytes(b)[4]);
    assert(le_bytes(a)[5] == le_bytes(b)[5]);
    assert(le_bytes(a)[6] == le_bytes(b)[6]);
    assert(le_bytes(a)[7] == le_bytes(b)[7]);
    assert(a == b) by (bit_vector)
        requires
            a as u8 == b as u8,
            (a >> 8u64) as u8 == (b >> 8u64) as u8,
            (a >> 16u64) as u8 == (b >> 16u64) as u8,
            (a >> 24u64) as u8 == (b >> 24u64) as u8,
            (a >> 32u64) as u8 == (b >> 32u64) as u8,
            (a >> 40u64) as u8 == (b >> 40u64) as u8,
            (a >> 48u64) as u8 == (b >> 48u64) as u8,
            (a >> 56u64) as u8 == (b >> 56u64) as u8,
    ;
}

proof fn signed_bits_injective(a: i64, b: i64)
    requires
        le_bytes(a as u64) == le_bytes(b as u64),
    ensures
        a == b,
{
    le_bytes_injective(a as u64, b as u64);
    assert(a == b) by (bit_vector)
        requires
            a as u64 == b as u64,
    ;
}

/// A tagged header of a tag byte and a 64-bit length, then the rest.
proof fn split_header(t: u8, n1: u64, r1: Seq<u8>, n2: u64, r2: Seq<u8>)
    requires
        seq![t] + le_bytes(n1) + r1 == seq![t] + le_bytes(n2) + r2,
    ensures
        n1 == n2,
        r1 == r2,
{
    split_equal(seq![t] + le_bytes(n1), r1, seq![t] + le_bytes(n2), r2);
    assert(le_bytes(n1) =~= (seq![t] + le_bytes(n1)).subrange(1, 9));
    assert(le_bytes(n2) =~= (seq![t] + le_bytes(n2)).subrange(1, 9));
    le_bytes_injective(n1, n2);
}

proof fn text_prefix_free(s1: Seq<char>, r1: Seq<u8>, s2: Seq<char>, r2: Seq<u8>)
    requires
        encode_utf8(s1).len() <= u64::MAX,
        encode_utf8(s2).len() <= u64::MAX,
        enc_text(s1) + r1 == enc_text(s2) + r2,
    ensures
        s1 == s2,
        r1 == r2,
{
    let b1 = encode_utf8(s1);
    let b2 = encode_utf8(s2);
    assert(enc_text(s1) + r1 =~= le_bytes(b1.len() as u64) + (b1 + r1));
    assert(enc_text(s2) + r2 =~= le_bytes(b2.len() as u64) + (b2 + r2));
    split_equal(le_bytes(b1.len() as u64), b1 + r1, le_bytes(b2.len() as u64), b2 + r2);
    le_bytes_injective(b1.len() as u64, b2.len() as u64);
    split_equal(b1, r1, b2, r2);
    encode_utf8_decode_utf8(s1);
    encode_utf8_decode_utf8(s2);
}

/// The encoding of a value ends where the value ends: after equal bytes,
/// equal values and equal remainders.
#[verifier::spinoff_prover]
#[verifier::rlimit(60)]
proof fn value_prefix_free(v1: ValueView, r1: Seq<u8>, v2: ValueView, r2: Seq<u8>)
    requires
        fits(v1),
        fits(v2),
        enc_value(v1) + r1 == enc_value(v2) + r2,
    ensures
        v1 == v2,
        r1 == r2,
    decreases v1,
{
    let e1 = enc_value(v1);
    let e2 = enc_value(v2);
    assert(e1[0] == (e1 + r1)[0]);
    assert(e2[0] == (e2 + r2)[0]);
    match v1 {
        ValueView::Null => {
            split_equal(e1, r1, e2, r2);
        },
        ValueView::Boolean(b) => {
            split_equal(e1, r1, e2, r2);
            assert(e1[1] == e2[1]);
        },
        ValueView::Integer(n) => {
            let m = v2->Integer_0;
            split_equal(e1, r1, e2, r2);
            assert(le_bytes(n as u64) =~= e1.subrange(1, 9));
            assert(le_bytes(m as u64) =~= e2.subrange(1, 9));
            signed_bits_injective(n, m);
        },
        ValueView::Float(bits) => {
            split_equal(e1, r1, e2, r2);
            assert(le_bytes(bits) =~= e1.subrange(1, 9));
            assert(le_bytes(v2->Float_0) =~= e2.subrange(1, 9));
            le_bytes_injective(bits, v2->Float_0);
        },
        ValueView::Timestamp(t) => {
            let u = v2->Timestamp_0;
            split_equal(e1, r1, e2, r2);
            assert(le_bytes(t as u64) =~= e1.subrange(1, 9));
            assert(le_bytes(u as u64) =~= e2.subrange(1, 9));
            signed_bits_injective(t, u);
        },
        ValueView::Bytes(b1) => {
            let b2 = v2->Bytes_0;
            assert(e1 + r1 =~= seq![4u8] + le_bytes(b1.len() as u64) + (b1 + r1));
            assert(e2 + r2 =~= seq![4u8] + le_bytes(b2.len() as u64) + (b2 + r2));
            split_header(4u8, b1.len() as u64, b1 + r1, b2.len() as u64, b2 + r2);
            split_equal(b1, r1, b2, r2);
        },
        ValueView::Regex(s1) => {
            let s2 = v2->Regex_0;
            assert(e1 + r1 =~= seq![6u8] + (enc_text(s1) + r1));
            assert(e2 + r2 =~= seq![6u8] + (enc_text(s2) + r2));
            split_equal(seq![6u8], enc_text(s1) + r1, seq![6u8], enc_text(s2) + r2);
            text_prefix_free(s1, r1, s2, r2);
        },
        ValueView::Array(a) => {
            let b = v2->Array_0;
            let c1 = item_codes(a).flatten();
            let c2 = item_codes(b).flatten();
            assert(e1 + r1 =~= seq![7u8] + le_bytes(a.len() as u64) + (c1 + r1));
            assert(e2 + r2 =~= seq![7u8] + le_bytes(b.len() as u64) + (c2 + r2));
            split_header(7u8, a.len() as u64, c1 + r1, b.len() as u64, c2 + r2);
            items_prefix_free(a, r1, b, r2);
        },
        ValueView::Object(a) => {
            let b = v2->Object_0;
            let c1 = field_codes(a).flatten();
            let c2 = field_codes(b).flatten();
            assert(e1 + r1 =~= seq![8u8] + le_bytes(a.len() as u64) + (c1 + r1));
            assert(e2 + r2 =~= seq![8u8] + le_bytes(b.len() as u64) + (c2 + r2));
            split_header(8u8, a.len() as u64, c1 + r1, b.len() as u64, c2 + r2);
            fields_prefix_free(a, r1, b, r2);
        },
    }
}

proof fn items_prefix_free(a: Seq<ValueView>, r1: Seq<u8>, b: Seq<ValueView>, r2: Seq<u8>)
    requires
        a.len() == b.len(),
        forall|i: int| 0 <= i < a.len() ==> fits(#[trigger] a[i]),
        forall|i: int| 0 <= i < b.len() ==> fits(#[trigger] b[i]),
        item_codes(a).flatten() + r1 == item_codes(b).flatten() + r2,
    ensures
        a == b,
        r1 == r2,
    decreases a,
{
    if a.len() == 0 {
        assert(a =~= b);
        assert(item_codes(a).flatten() =~= Seq::<u8>::empty());
        assert(item_codes(b).flatten() =~= Seq::<u8>::empty());
        assert(r1 =~= item_codes(a).flatten() + r1);
        assert(r2 =~= item_codes(b).flatten() + r2);
    } else {
        let ta = a.subrange(1, a.len() as int);
        let tb = b.subrange(1, b.len() as int);
        assert(item_codes(a).drop_first() =~= item_codes(ta));
        assert(item_codes(b).drop_first() =~= item_codes(tb));
        let f1 = item_codes(ta).flatten();
        let f2 = item_codes(tb).flatten();
        assert(item_codes(a).flatten() + r1 =~= enc_value(a[0]) + (f1 + r1));
        assert(item_codes(b).flatten() + r2 =~= enc_value(b[0]) + (f2 + r2));
        value_prefix_free(a[0], f1 + r1, b[0], f2 + r2);
        assert(forall|i: int| 0 <= i < ta.len() ==> #[trigger] ta[i] == a[i + 1]);
        assert(forall|i: int| 0 <= i < tb.len() ==> #[trigger] tb[i] == b[i + 1]);
        items_prefix_free(ta, r1, tb, r2);
        assert forall|i: int| 0 <= i < a.len() implies a[i] == b[i] by {
            if i > 0 {
                assert(a[i] == ta[i - 1]);
                assert(b[i] == tb[i - 1]);
            }
        }
        assert(a =~= b);
    }
}

proof fn fields_prefix_free(
    a: Seq<(Seq<char>, ValueView)>,
    r1: Seq<u8>,
    b: Seq<(Seq<char>, ValueView)>,
    r2: Seq<u8>,
)
    requires
        a.len() == b.len(),
        forall|i: int|
            0 <= i < a.len() ==> encode_utf8(#[trigger] a[i].0).len() <= u64::MAX && fits(a[i].1),
        forall|i: int|
            0 <= i < b.len() ==> encode_utf8(#[trigger] b[i].0).len() <= u64::MAX && fits(b[i].1),
        field_codes(a).flatten() + r1 == field_codes(b).flatten() + r2,
    ensures
        a == b,
        r1 == r2,
    decreases a,
{
    if a.len() == 0 {
        assert(a =~= b);
        assert(field_codes(a).flatten() =~= Seq::<u8>::empty());
        assert(field_codes(b).flatten() =~= Seq::<u8>::empty());
        assert(r1 =~= field_codes(a).flatten() + r1);
        assert(r2 =~= field_codes(b).flatten() + r2);
    } else {
        let ta = a.subrange(1, a.len() as int);
        let tb = b.subrange(1, b.len() as int);
        assert(field_codes(a).drop_first() =~= field_codes(ta));
        assert(field_codes(b).drop_first() =~= field_codes(tb));
        let f1 = field_codes(ta).flatten();
        let f2 = field_codes(tb).flatten();
        assert(field_codes(a).flatten() + r1 =~= enc_text(a[0].0) + (enc_value(a[0].1) + (f1
            + r1)));
        assert(field_codes(b).flatten() + r2 =~= enc_text(b[0].0) + (enc_value(b[0].1) + (f2
            + r2)));
        text_prefix_free(a[0].0, enc_value(a[0].1) + (f1 + r1), b[0].0, enc_value(b[0].1) + (f2
            + r2));
        assert(decreases_to!(a => a[0]));
        value_prefix_free(a[0].1, f1 + r1, b[0].1, f2 + r2);
        assert(forall|i: int| 0 <= i < ta.len() ==> #[trigger] ta[i] == a[i + 1]);
        assert(forall|i: int| 0 <= i < tb.len() ==> #[trigger] tb[i] == b[i + 1]);
        fields_prefix_free(ta, r1, tb, r2);
        assert forall|i: int| 0 <= i < a.len() implies a[i] == b[i] by {
            if i > 0 {
                assert(a[i] == ta[i - 1]);
                assert(b[i] == tb[i - 1]);
            }
        }
        assert(a =~= b);
    }
}

/// Distinct lookup sequences feed the hasher distinct bytes, so two of them
/// derive the same key only where the hash itself collides.
pub proof fn distinct_lookups_encode_distinctly(a: Seq<ValueView>, b: Seq<ValueView>)
    requires
        a.len() <= u64::MAX,
        b.len() <= u64::MAX,
        forall|i: int| 0 <= i < a.len() ==> fits(#[trigger] a[i]),
        forall|i: int| 0 <= i < b.len() ==> fits(#[trigger] b[i]),
        enc_keys(a) == enc_keys(b),
    ensures
        a == b,
{
    let c1 = item_codes(a).flatten();
    let c2 = item_codes(b).flatten();
    assert(enc_keys(a) =~= le_bytes(a.len() as u64) + (c1 + Seq::<u8>::empty()));
    assert(enc_keys(b) =~= le_bytes(b.len() as u64) + (c2 + Seq::<u8>::empty()));
    split_equal(
        le_bytes(a.len() as u64),
        c1 + Seq::<u8>::empty(),
        le_bytes(b.len() as u64),
        c2 + Seq::<u8>::empty(),
    );
    le_bytes_injective(a.len() as u64, b.len() as u64);
    items_prefix_free(a, Seq::empty(), b, Seq::empty());
}

} // verus!
