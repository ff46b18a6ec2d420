use vstd::prelude::*;
use vstd::utf8::encode_utf8;
use std::collections::hash_map::DefaultHasher;
use std::hash::Hasher;
use vstd::std_specs::hash::DefaultHasherAdditionalSpecFns;
use crate::value::{Value, ValueView};

verus! {

broadcast use vstd::seq_lib::group_seq_properties;

/// Little-endian bytes of a 64-bit word.
pub open spec fn le_bytes(n: u64) -> Seq<u8> {
    seq![
        n as u8,
        (n >> 8u64) as u8,
        (n >> 16u64) as u8,
        (n >> 24u64) as u8,
        (n >> 32u64) as u8,
        (n >> 40u64) as u8,
        (n >> 48u64) as u8,
        (n >> 56u64) as u8,
    ]
}

/// A text as its UTF-8 byte length followed by its UTF-8 bytes.
pub open spec fn enc_text(s: Seq<char>) -> Seq<u8> {
    le_bytes(encode_utf8(s).len() as u64) + encode_utf8(s)
}

/// The byte encoding of a value that key derivation feeds to the hasher: a tag
/// byte per variant, a length before every sequence, then the contents.
pub open spec fn enc_value(v: ValueView) -> Seq<u8>
    decreases v,
{
    match v {
        ValueView::Null => seq![0u8],
        ValueView::Boolean(b) => seq![1u8, if b { 1u8 } else { 0u8 }],
        ValueView::Integer(n) => seq![2u8] + le_bytes(n as u64),
        ValueView::Float(bits) => seq![3u8] + le_bytes(bits),
        ValueView::Bytes(b) => seq![4u8] + le_bytes(b.len() as u64) + b,
        ValueView::Timestamp(t) => seq![5u8] + le_bytes(t as u64),
        ValueView::Regex(s) => seq![6u8] + enc_text(s),
        ValueView::Array(items) => seq![7u8] + le_bytes(items.len() as u64) + item_codes(
            items,
        ).flatten(),
        ValueView::Object(fields) => seq![8u8] + le_bytes(fields.len() as u64) + field_codes(
            fields,
        ).flatten(),
    }
}

/// The encodings of the values of a sequence, one each.
pub open spec fn item_codes(items: Seq<ValueView>) -> Seq<Seq<u8>>
    decreases items,
{
    Seq::new(
        items.len(),
        |i: int|
            if 0 <= i < items.len() {
                enc_value(items[i])
            } else {
                Seq::empty()
            },
    )
}

/// The encodings of the fields of an object: each name, then its value.
pub open spec fn field_codes(fields: Seq<(Seq<char>, ValueView)>) -> Seq<Seq<u8>>
    decreases fields,
{
    Seq::new(
        fields.len(),
        |i: int|
            if 0 <= i < fields.len() {
                enc_text(fields[i].0) + enc_value(fields[i].1)
            } else {
                Seq::empty()
            },
    )
}

/// The encoding of an ordered sequence of lookup values.
pub open spec fn enc_keys(keys: Seq<ValueView>) -> Seq<u8> {
    le_bytes(keys.len() as u64) + item_codes(keys).flatten()
}

/// The models of a sequence of values.
pub open spec fn views(values: Seq<Value>) -> Seq<ValueView> {
    Seq::new(values.len(), |i: int| values[i]@)
}

/// The 64-bit key derived from an ordered sequence of lookup values: the
/// process's default hasher run over their encoding in one write.
pub open spec fn key_of(keys: Seq<ValueView>) -> u64 {
    DefaultHasher::spec_finish(seq![enc_keys(keys)])
}

fn push_u64(out: &mut Vec<u8>, n: u64)
    ensures
        final(out)@ == old(out)@ + le_bytes(n),
{
    out.push(n as u8);
    out.push((n >> 8u64) as u8);
    out.push((n >> 16u64) as u8);
    out.push((n >> 24u64) as u8);
    out.push((n >> 32u64) as u8);
    out.push((n >> 40u64) as u8);
    out.push((n >> 48u64) as u8);
    out.push((n >> 56u64) as u8);
    assert(final(out)@ =~= old(out)@ + le_bytes(n));
}

fn push_slice(out: &mut Vec<u8>, bytes: &[u8])
    ensures
        final(out)@ == old(out)@ + bytes@,
{
    let ghost start = out@;
    let mut i: usize = 0;
    while i < bytes.len()
        invariant
            i <= bytes@.len(),
            out@ == start + bytes@.take(i as int),
        decreases bytes@.len() - i,
    {
        out.push(bytes[i]);
        i = i + 1;
        assert(out@ =~= start + bytes@.take(i as int));
    }
    assert(bytes@.take(i as int) =~= bytes@);
}

fn push_text(out: &mut Vec<u8>, s: &String)
    ensures
        final(out)@ == old(out)@ + enc_text(s@),
{
    let bytes = s.as_str().as_bytes();
    push_u64(out, bytes.len() as u64);
    push_slice(out, bytes);
    assert(final(out)@ =~= old(out)@ + enc_text(s@));
}

fn encode_value(v: &Value, out: &mut Vec<u8>)
    ensures
        final(out)@ == old(out)@ + enc_value(v@),
    decreases v,
{
    let ghost start = out@;
    match v {
        Value::Null => {
            out.push(0u8);
        },
        Value::Boolean(b) => {
            out.push(1u8);
            out.push(if *b { 1u8 } else { 0u8 });
        },
        Value::Integer(n) => {
            out.push(2u8);
            push_u64(out, #[verifier::truncate] (*n as u64));
        },
        Value::Float(bits) => {
            out.push(3u8);
            push_u64(out, *bits);
        },
        Value::Bytes(b) => {
            out.push(4u8);
            push_u64(out, b.len() as u64);
            push_slice(out, b.as_slice());
        },
        Value::Timestamp(t) => {
            out.push(5u8);
            push_u64(out, #[verifier::truncate] (*t as u64));
        },
        Value::Regex(s) => {
            out.push(6u8);
            push_text(out, s);
        },
        Value::Array(items) => {
            out.push(7u8);
            push_u64(out, items.len() as u64);
            let ghost head = out@;
            let ghost parts = Seq::new(items@.len(), |j: int| enc_value(items@[j]@));
            let mut i: usize = 0;
            while i < items.len()
                invariant
                    *v == Value::Array(*items),
                    i <= items@.len(),
                    parts == Seq::new(items@.len(), |j: int| enc_value(items@[j]@)),
                    out@ == head + parts.take(i as int).flatten(),
                decreases items@.len() - i,
            {
                proof {
                    vstd::std_specs::vec::axiom_vec_index_decreases(*items, i as int);
                    assert(decreases_to!(*v => (*v)->Array_0));
                }
                encode_value(&items[i], out);
                proof {
                    parts.take(i as int).lemma_flatten_push(parts[i as int]);
                    assert(parts.take(i as int).push(parts[i as int]) =~= parts.take(i + 1));
                }
                i = i + 1;
            }
            proof {
                let iv = match v@ {
                    ValueView::Array(s) => s,
                    _ => Seq::empty(),
                };
                assert(v@ == ValueView::Array(iv));
                assert(iv.len() == items@.len());
                assert(forall|j: int| 0 <= j < iv.len() ==> iv[j] == items@[j]@);
                assert(parts.take(i as int) =~= item_codes(iv));
                assert(out@ =~= start + enc_value(v@));
            }
        },
        Value::Object(fields) => {
            out.push(8u8);
            push_u64(out, fields.len() as u64);
            let ghost head = out@;
            let ghost parts = Seq::new(
                fields@.len(),
                |j: int| enc_text(fields@[j].0@) + enc_value(fields@[j].1@),
            );
            let mut i: usize = 0;
            while i < fields.len()
                invariant
                    *v == Value::Object(*fields),
                    i <= fields@.len(),
                    parts == Seq::new(
                        fields@.len(),
                        |j: int| enc_text(fields@[j].0@) + enc_value(fields@[j].1@),
                    ),
                    out@ == head + parts.take(i as int).flatten(),
                decreases fields@.len() - i,
            {
                let ghost before = out@;
                push_text(out, &fields[i].0);
                proof {
                    vstd::std_specs::vec::axiom_vec_index_decreases(*fields, i as int);
                    assert(decreases_to!(*v => (*v)->Object_0));
                    assert(decreases_to!(fields[i as int] => fields[i as int].1));
                }
                encode_value(&fields[i].1, out);
                proof {
                    parts.take(i as int).lemma_flatten_push(parts[i as int]);
                    assert(parts.take(i as int).push(parts[i as int]) =~= parts.take(i + 1));
                    assert(out@ =~= before + parts[i as int]);
                }
                i = i + 1;
            }
            proof {
                let fv = match v@ {
                    ValueView::Object(s) => s,
                    _ => Seq::empty(),
                };
                assert(fv.len() == fields@.len());
                assert(forall|j: int| 0 <= j < fv.len() ==> fv[j] == (fields@[j].0@, fields@[j].1@));
                assert(v@ == ValueView::Object(fv));
                assert(parts.take(i as int) =~= field_codes(fv));
                assert(out@ =~= start + enc_value(v@));
            }
        },
    }
    proof {
        assert(out@ =~= start + enc_value(v@));
    }
}

/// Derives the 64-bit context key of an ordered sequence of lookup values.
/// Values with equal models give equal keys; the key is a hash, so distinct
/// sequences may, rarely, share one.
pub fn derive_key(keys: &Vec<Value>) -> (r: u64)
    ensures
        r == key_of(views(keys@)),
{
    let mut buf: Vec<u8> = Vec::new();
    push_u64(&mut buf, keys.len() as u64);
    let ghost head = buf@;
    let ghost parts = Seq::new(keys@.len(), |j: int| enc_value(keys@[j]@));
    let mut i: usize = 0;
    while i < keys.len()
        invariant
            i <= keys@.len(),
            parts == Seq::new(keys@.len(), |j: int| enc_value(keys@[j]@)),
            buf@ == head + parts.take(i as int).flatten(),
        decreases keys@.len() - i,
    {
        encode_value(&keys[i], &mut buf);
        proof {
            parts.take(i as int).lemma_flatten_push(parts[i as int]);
            assert(parts.take(i as int).push(parts[i as int]) =~= parts.take(i + 1));
        }
        i = i + 1;
    }
    proof {
        let kv = views(keys@);
        assert(parts.take(i as int) =~= item_codes(kv));
        assert(buf@ =~= enc_keys(kv));
    }
    let mut hasher = DefaultHasher::new();
    hasher.write(buf.as_slice());
    proof {
        assert(hasher@ =~= seq![enc_keys(views(keys@))]);
    }
    hasher.finish()
}

} // verus!

verus! {

/// Key derivation is deterministic: two lookup sequences whose values are
/// structurally equal, one by one and in the same order, derive the same key.
pub proof fn equal_lookups_derive_equal_keys(a: Seq<Value>, b: Seq<Value>)
    requires
        a.len() == b.len(),
        forall|i: int| 0 <= i < a.len() ==> (#[trigger] a[i])@ == b[i]@,
    ensures
        key_of(views(a)) == key_of(views(b)),
{
    assert(views(a) =~= views(b));
}

} // verus!
