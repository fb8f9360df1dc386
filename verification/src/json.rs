//! The side-car summary descriptor: a small JSON document holding the model
//! summary's fields, serialized by verified code so that the stored bytes are
//! proved to be exactly the serialization of the reported summary.

use vstd::prelude::*;
use crate::xml::{ModelSummary, SummaryModel};

verus! {

/// The decimal digits of `n`, most significant first, no leading zeros
/// (a single `0` for zero).
pub open spec fn dec_digits(n: nat) -> Seq<u8>
    decreases n,
{
    if n < 10 {
        seq![(48 + n) as u8]
    } else {
        dec_digits(n / 10).push((48 + n % 10) as u8)
    }
}

/// One byte of a JSON string body: quote and backslash are escaped with a
/// backslash, every other byte stands as itself.
pub open spec fn escape_byte(b: u8) -> Seq<u8> {
    if b == 34 || b == 92 {
        seq![92u8, b]
    } else {
        seq![b]
    }
}

/// The JSON string body for `s`.
pub open spec fn escape_json(s: Seq<u8>) -> Seq<u8>
    decreases s.len(),
{
    if s.len() == 0 {
        Seq::empty()
    } else {
        escape_json(s.drop_last()) + escape_byte(s.last())
    }
}

/// `{\n  "unit": ` as bytes.
pub open spec fn piece_open_unit() -> Seq<u8> {
    seq![123u8, 10u8, 32u8, 32u8, 34u8, 117u8, 110u8, 105u8, 116u8, 34u8, 58u8, 32u8]
}

/// `,\n  "object_count": ` as bytes.
pub open spec fn piece_object() -> Seq<u8> {
    seq![44u8, 10u8, 32u8, 32u8, 34u8, 111u8, 98u8, 106u8, 101u8, 99u8, 116u8, 95u8, 99u8,
        111u8, 117u8, 110u8, 116u8, 34u8, 58u8, 32u8]
}

/// `,\n  "mesh_object_count": ` as bytes.
pub open spec fn piece_mesh() -> Seq<u8> {
    seq![44u8, 10u8, 32u8, 32u8, 34u8, 109u8, 101u8, 115u8, 104u8, 95u8, 111u8, 98u8, 106u8,
        101u8, 99u8, 116u8, 95u8, 99u8, 111u8, 117u8, 110u8, 116u8, 34u8, 58u8, 32u8]
}

/// `,\n  "components_object_count": ` as bytes.
pub open spec fn piece_components() -> Seq<u8> {
    seq![44u8, 10u8, 32u8, 32u8, 34u8, 99u8, 111u8, 109u8, 112u8, 111u8, 110u8, 101u8, 110u8,
        116u8, 115u8, 95u8, 111u8, 98u8, 106u8, 101u8, 99u8, 116u8, 95u8, 99u8, 111u8, 117u8,
        110u8, 116u8, 34u8, 58u8, 32u8]
}

/// `,\n  "build_item_count": ` as bytes.
pub open spec fn piece_item() -> Seq<u8> {
    seq![44u8, 10u8, 32u8, 32u8, 34u8, 98u8, 117u8, 105u8, 108u8, 100u8, 95u8, 105u8, 116u8,
        101u8, 109u8, 95u8, 99u8, 111u8, 117u8, 110u8, 116u8, 34u8, 58u8, 32u8]
}

/// `,\n  "metadata_count": ` as bytes.
pub open spec fn piece_metadata() -> Seq<u8> {
    seq![44u8, 10u8, 32u8, 32u8, 34u8, 109u8, 101u8, 116u8, 97u8, 100u8, 97u8, 116u8, 97u8,
        95u8, 99u8, 111u8, 117u8, 110u8, 116u8, 34u8, 58u8, 32u8]
}

/// `\n}` as bytes.
pub open spec fn piece_close() -> Seq<u8> {
    seq![10u8, 125u8]
}

/// `null` as bytes.
pub open spec fn lit_null() -> Seq<u8> {
    seq![110u8, 117u8, 108u8, 108u8]
}

/// The JSON value for the unit field: `null` or a quoted, escaped string.
pub open spec fn unit_json(unit: Option<Seq<u8>>) -> Seq<u8> {
    match unit {
        None => lit_null(),
        Some(u) => seq![34u8] + escape_json(u) + seq![34u8],
    }
}

/// The whole serialized summary descriptor.
pub open spec fn spec_summary_json(m: SummaryModel) -> Seq<u8> {
    piece_open_unit() + unit_json(m.unit)
        + piece_object() + dec_digits(m.object_count)
        + piece_mesh() + dec_digits(m.mesh_object_count)
        + piece_components() + dec_digits(m.components_object_count)
        + piece_item() + dec_digits(m.build_item_count)
        + piece_metadata() + dec_digits(m.metadata_count)
        + piece_close()
}

/// Appends a byte slice.
fn push_bytes(out: &mut Vec<u8>, s: &[u8])
    ensures
        final(out)@ == old(out)@ + s@,
{
    let mut i: usize = 0;
    while i < s.len()
        invariant
            i <= s@.len(),
            out@ =~= old(out)@ + s@.take(i as int),
        decreases s@.len() - i,
    {
        out.push(s[i]);
        i += 1;
    }
    assert(out@ =~= old(out)@ + s@);
}

/// Appends the decimal digits of `n`.
fn push_dec(out: &mut Vec<u8>, n: usize)
    ensures
        final(out)@ == old(out)@ + dec_digits(n as nat),
    decreases n,
{
    if n < 10 {
        out.push(48 + n as u8);
    } else {
        push_dec(out, n / 10);
        out.push(48 + (n % 10) as u8);
    }
}

/// Appends the escaped JSON string body of `s`.
fn push_escaped(out: &mut Vec<u8>, s: &Vec<u8>)
    ensures
        final(out)@ == old(out)@ + escape_json(s@),
{
    let mut i: usize = 0;
    while i < s.len()
        invariant
            i <= s@.len(),
            out@ =~= old(out)@ + escape_json(s@.take(i as int)),
        decreases s@.len() - i,
    {
        proof {
            assert(s@.take(i + 1 as int).drop_last() =~= s@.take(i as int));
            assert(s@.take(i + 1 as int).last() == s@[i as int]);
        }
        let b = s[i];
        if b == 34 || b == 92 {
            out.push(92);
        }
        out.push(b);
        i += 1;
    }
    assert(s@.take(s@.len() as int) =~= s@);
}

/// Serializes a summary as the side-car descriptor's bytes.
pub fn summary_to_json(s: &ModelSummary) -> (r: Vec<u8>)
    ensures
        r@ == spec_summary_json(s@),
{
    let p_open: Vec<u8> =
        vec![123u8, 10u8, 32u8, 32u8, 34u8, 117u8, 110u8, 105u8, 116u8, 34u8, 58u8, 32u8];
    let p_object: Vec<u8> = vec![44u8, 10u8, 32u8, 32u8, 34u8, 111u8, 98u8, 106u8, 101u8, 99u8,
        116u8, 95u8, 99u8, 111u8, 117u8, 110u8, 116u8, 34u8, 58u8, 32u8];
    let p_mesh: Vec<u8> = vec![44u8, 10u8, 32u8, 32u8, 34u8, 109u8, 101u8, 115u8, 104u8, 95u8,
        111u8, 98u8, 106u8, 101u8, 99u8, 116u8, 95u8, 99u8, 111u8, 117u8, 110u8, 116u8, 34u8,
        58u8, 32u8];
    let p_components: Vec<u8> = vec![44u8, 10u8, 32u8, 32u8, 34u8, 99u8, 111u8, 109u8, 112u8,
        111u8, 110u8, 101u8, 110u8, 116u8, 115u8, 95u8, 111u8, 98u8, 106u8, 101u8, 99u8, 116u8,
        95u8, 99u8, 111u8, 117u8, 110u8, 116u8, 34u8, 58u8, 32u8];
    let p_item: Vec<u8> = vec![44u8, 10u8, 32u8, 32u8, 34u8, 98u8, 117u8, 105u8, 108u8, 100u8,
        95u8, 105u8, 116u8, 101u8, 109u8, 95u8, 99u8, 111u8, 117u8, 110u8, 116u8, 34u8, 58u8,
        32u8];
    let p_metadata: Vec<u8> = vec![44u8, 10u8, 32u8, 32u8, 34u8, 109u8, 101u8, 116u8, 97u8,
        100u8, 97u8, 116u8, 97u8, 95u8, 99u8, 111u8, 117u8, 110u8, 116u8, 34u8, 58u8, 32u8];
    let p_close: Vec<u8> = vec![10u8, 125u8];
    let p_null: Vec<u8> = vec![110u8, 117u8, 108u8, 108u8];
    proof {
        assert(p_open@ =~= piece_open_unit());
        assert(p_object@ =~= piece_object());
        assert(p_mesh@ =~= piece_mesh());
        assert(p_components@ =~= piece_components());
        assert(p_item@ =~= piece_item());
        assert(p_metadata@ =~= piece_metadata());
        assert(p_close@ =~= piece_close());
        assert(p_null@ =~= lit_null());
    }
    let mut out: Vec<u8> = Vec::new();
    push_bytes(&mut out, p_open.as_slice());
    match &s.unit {
        None => push_bytes(&mut out, p_null.as_slice()),
        Some(u) => {
            out.push(34);
            push_escaped(&mut out, u);
            out.push(34);
            proof {
                assert(s@.unit == Some(u@));
                assert(unit_json(s@.unit) == seq![34u8] + escape_json(u@) + seq![34u8]);
                assert(out@ =~= piece_open_unit() + (seq![34u8] + escape_json(u@) + seq![34u8]));
            }
        },
    }
    push_bytes(&mut out, p_object.as_slice());
    push_dec(&mut out, s.object_count);
    push_bytes(&mut out, p_mesh.as_slice());
    push_dec(&mut out, s.mesh_object_count);
    push_bytes(&mut out, p_components.as_slice());
    push_dec(&mut out, s.components_object_count);
    push_bytes(&mut out, p_item.as_slice());
    push_dec(&mut out, s.build_item_count);
    push_bytes(&mut out, p_metadata.as_slice());
    push_dec(&mut out, s.metadata_count);
    push_bytes(&mut out, p_close.as_slice());
    proof {
        assert(out@ =~= spec_summary_json(s@));
    }
    out
}


/// An ASCII decimal digit.
pub open spec fn is_digit(b: u8) -> bool {
    48 <= b && b <= 57
}

/// The length of the run of digits that ends `t`.
pub open spec fn digit_suffix_len(t: Seq<u8>) -> nat
    decreases t.len(),
{
    if t.len() == 0 || !is_digit(t.last()) {
        0
    } else {
        digit_suffix_len(t.drop_last()) + 1
    }
}

/// The value of a digit sequence, most significant digit first.
pub open spec fn digits_value(ds: Seq<u8>) -> nat
    decreases ds.len(),
{
    if ds.len() == 0 {
        0
    } else {
        digits_value(ds.drop_last()) * 10 + (ds.last() - 48) as nat
    }
}

/// The inverse of `escape_json`: a trailing quote or backslash can only come
/// from an escape pair, any other byte stands for itself.
pub open spec fn unescape_json(t: Seq<u8>) -> Seq<u8>
    decreases t.len(),
{
    if t.len() == 0 {
        Seq::empty()
    } else if t.len() >= 2 && (t.last() == 34 || t.last() == 92) {
        unescape_json(t.take(t.len() - 2)).push(t.last())
    } else {
        unescape_json(t.drop_last()).push(t.last())
    }
}

/// The decimal digits of `n` are all digits, and there is at least one.
proof fn lemma_dec_digits_shape(n: nat)
    ensures
        dec_digits(n).len() >= 1,
        forall|i: int| 0 <= i < dec_digits(n).len() ==> is_digit(#[trigger] dec_digits(n)[i]),
    decreases n,
{
    if n >= 10 {
        lemma_dec_digits_shape(n / 10);
    }
}

/// Reading the decimal digits of `n` back gives `n`.
proof fn lemma_digits_value_round(n: nat)
    ensures
        digits_value(dec_digits(n)) == n,
    decreases n,
{
    if n < 10 {
        assert(dec_digits(n) == seq![(48 + n) as u8]);
        assert(dec_digits(n).drop_last() =~= Seq::<u8>::empty());
        assert(dec_digits(n).last() == (48 + n) as u8);
        assert((48 + n) as u8 == 48 + n);
        assert(digits_value(Seq::<u8>::empty()) == 0);
        assert(digits_value(dec_digits(n))
            == digits_value(dec_digits(n).drop_last()) * 10
                + (dec_digits(n).last() - 48) as nat);
    } else {
        lemma_digits_value_round(n / 10);
        assert(n % 10 < 10);
        assert(dec_digits(n) == dec_digits(n / 10).push((48 + n % 10) as u8));
        assert(dec_digits(n).drop_last() =~= dec_digits(n / 10));
        assert(dec_digits(n).last() == (48 + n % 10) as u8);
        assert((48 + n % 10) as u8 == 48 + n % 10);
        assert(digits_value(dec_digits(n)) == (n / 10) * 10 + n % 10);
        assert(n / 10 * 10 + n % 10 == n) by (nonlinear_arith);
    }
}

/// Appending the digits of `n` to a text that does not end in a digit makes
/// exactly those digits the digit suffix.
proof fn lemma_digit_suffix_concat(t: Seq<u8>, n: nat)
    requires
        t.len() == 0 || !is_digit(t.last()),
    ensures
        digit_suffix_len(t + dec_digits(n)) == dec_digits(n).len(),
    decreases n,
{
    lemma_dec_digits_shape(n);
    let s = t + dec_digits(n);
    assert(s.last() == dec_digits(n)[dec_digits(n).len() - 1]);
    assert(is_digit(s.last()));
    if n < 10 {
        assert(s.drop_last() =~= t);
        assert(digit_suffix_len(t) == 0);
        assert(digit_suffix_len(s) == 1);
    } else {
        lemma_digit_suffix_concat(t, n / 10);
        assert(s.drop_last() =~= t + dec_digits(n / 10));
        assert(dec_digits(n).len() == dec_digits(n / 10).len() + 1);
    }
}

/// Unescaping undoes escaping.
proof fn lemma_unescape_escape(s: Seq<u8>)
    ensures
        unescape_json(escape_json(s)) == s,
    decreases s.len(),
{
    if s.len() > 0 {
        lemma_unescape_escape(s.drop_last());
        let e = escape_json(s);
        let b = s.last();
        if b == 34 || b == 92 {
            assert(e == escape_json(s.drop_last()) + seq![92u8, b]);
            assert(e.last() == b);
            assert(e.take(e.len() - 2) =~= escape_json(s.drop_last()));
            assert(unescape_json(e) =~= s.drop_last().push(b));
            assert(s.drop_last().push(b) =~= s);
        } else {
            assert(e == escape_json(s.drop_last()) + seq![b]);
            assert(e.last() == b);
            assert(e.drop_last() =~= escape_json(s.drop_last()));
            assert(unescape_json(e) =~= s.drop_last().push(b));
            assert(s.drop_last().push(b) =~= s);
        }
    } else {
        assert(escape_json(s).len() == 0);
    }
}

/// Two escaped bodies that read the same come from the same string.
proof fn lemma_escape_injective(s1: Seq<u8>, s2: Seq<u8>)
    requires
        escape_json(s1) == escape_json(s2),
    ensures
        s1 == s2,
{
    lemma_unescape_escape(s1);
    lemma_unescape_escape(s2);
}

/// Two unit fields that serialize the same are the same.
proof fn lemma_unit_json_injective(u1: Option<Seq<u8>>, u2: Option<Seq<u8>>)
    requires
        unit_json(u1) == unit_json(u2),
    ensures
        u1 == u2,
{
    match (u1, u2) {
        (None, None) => {},
        (None, Some(b)) => {
            assert(unit_json(u1)[0] == 110);
            assert(unit_json(u2)[0] == 34);
        },
        (Some(a), None) => {
            assert(unit_json(u1)[0] == 34);
            assert(unit_json(u2)[0] == 110);
        },
        (Some(a), Some(b)) => {
            let ja = unit_json(u1);
            let jb = unit_json(u2);
            assert(ja.len() == escape_json(a).len() + 2);
            assert(jb.len() == escape_json(b).len() + 2);
            assert(escape_json(a) =~= ja.subrange(1, ja.len() - 1));
            assert(escape_json(b) =~= jb.subrange(1, jb.len() - 1));
            lemma_escape_injective(a, b);
        },
    }
}

/// Equal texts that each end in a fixed piece followed by a count's digits
/// carry the same count and agree before it.
proof fn lemma_strip_piece_count(x: Seq<u8>, y: Seq<u8>, p: Seq<u8>, n1: nat, n2: nat)
    requires
        p.len() > 0,
        !is_digit(p.last()),
        x + p + dec_digits(n1) == y + p + dec_digits(n2),
    ensures
        n1 == n2,
        x == y,
{
    let a = x + p;
    let b = y + p;
    assert(a.last() == p.last());
    assert(b.last() == p.last());
    assert(a + dec_digits(n1) =~= x + p + dec_digits(n1));
    assert(b + dec_digits(n2) =~= y + p + dec_digits(n2));
    let s = a + dec_digits(n1);
    lemma_digit_suffix_concat(a, n1);
    lemma_digit_suffix_concat(b, n2);
    assert(s == b + dec_digits(n2));
    assert(digit_suffix_len(s) == dec_digits(n1).len());
    assert(digit_suffix_len(s) == dec_digits(n2).len());
    let len_d = dec_digits(n1).len();
    assert(dec_digits(n1) =~= s.subrange(s.len() - len_d, s.len() as int));
    assert(dec_digits(n2) =~= s.subrange(s.len() - len_d, s.len() as int));
    lemma_digits_value_round(n1);
    lemma_digits_value_round(n2);
    assert(a =~= s.take(s.len() - len_d));
    assert(b =~= s.take(s.len() - len_d));
    assert(x =~= a.take(a.len() - p.len()));
    assert(y =~= b.take(b.len() - p.len()));
}

/// The stored descriptor pins the summary down: no two summaries serialize
/// to the same bytes, so reading the side-car descriptor back recovers
/// exactly the fields that the extractor reported when it was written.
pub proof fn lemma_summary_json_injective(m1: SummaryModel, m2: SummaryModel)
    requires
        spec_summary_json(m1) == spec_summary_json(m2),
    ensures
        m1 == m2,
{
    let u1 = piece_open_unit() + unit_json(m1.unit);
    let u2 = piece_open_unit() + unit_json(m2.unit);
    let q1 = u1 + piece_object() + dec_digits(m1.object_count);
    let q2 = u2 + piece_object() + dec_digits(m2.object_count);
    let s1 = q1 + piece_mesh() + dec_digits(m1.mesh_object_count);
    let s2 = q2 + piece_mesh() + dec_digits(m2.mesh_object_count);
    let t1 = s1 + piece_components() + dec_digits(m1.components_object_count);
    let t2 = s2 + piece_components() + dec_digits(m2.components_object_count);
    let w1 = t1 + piece_item() + dec_digits(m1.build_item_count);
    let w2 = t2 + piece_item() + dec_digits(m2.build_item_count);
    let x1 = w1 + piece_metadata() + dec_digits(m1.metadata_count);
    let x2 = w2 + piece_metadata() + dec_digits(m2.metadata_count);
    assert(spec_summary_json(m1) =~= x1 + piece_close());
    assert(spec_summary_json(m2) =~= x2 + piece_close());
    let j = spec_summary_json(m1);
    assert(x1 =~= j.take(j.len() - 2));
    assert(x2 =~= j.take(j.len() - 2));
    assert(x1 == x2);
    assert(w1 + piece_metadata() + dec_digits(m1.metadata_count)
        == w2 + piece_metadata() + dec_digits(m2.metadata_count));
    lemma_strip_piece_count(w1, w2, piece_metadata(), m1.metadata_count, m2.metadata_count);
    lemma_strip_piece_count(t1, t2, piece_item(), m1.build_item_count, m2.build_item_count);
    lemma_strip_piece_count(
        s1,
        s2,
        piece_components(),
        m1.components_object_count,
        m2.components_object_count,
    );
    lemma_strip_piece_count(q1, q2, piece_mesh(), m1.mesh_object_count, m2.mesh_object_count);
    lemma_strip_piece_count(u1, u2, piece_object(), m1.object_count, m2.object_count);
    assert(unit_json(m1.unit) =~= u1.skip(piece_open_unit().len() as int));
    assert(unit_json(m2.unit) =~= u2.skip(piece_open_unit().len() as int));
    lemma_unit_json_injective(m1.unit, m2.unit);
}

} // verus!
