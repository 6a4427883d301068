//! Round trip: reading back what the canonical writer wrote yields the same
//! record.  Together with the parser and writer contracts this gives the
//! decode -> re-serialize -> decode law for whole cell files.

use vstd::prelude::*;

use crate::bytes::{
    dig_seq, dig_seq_pad, digits_end, is_digit, is_ident, lemma_dig_seq_digits, lemma_digits_pad_roundtrip, lemma_digits_roundtrip,
    lemma_pow10_pos, lemma_pow10_19, pow10, skip_ws, spec_read_uint, lemma_ident_end_exact};
use crate::dec::{lemma_canon_of_canonical, Dec, DEC_PARSE_MAX};
use crate::parse::{
    empty_partial, spec_field, spec_fields, spec_finish, spec_cell_text, PartialCellV,
    kw_body, kw_collider, kw_collider_offset, kw_components, kw_cuboid, kw_dynamic, kw_indices,
    kw_kinematic, kw_layer, kw_mesh, kw_scale, kw_scene, kw_static, kw_vertices, quote_end,
    spec_body, spec_close_brace, spec_close_paren, spec_collider, spec_eat, spec_entry_items,
    spec_entry_list, spec_ident, spec_index_items, spec_index_list, spec_layer, spec_scalar,
    spec_text, spec_vec3, spec_vec3_items, spec_vec3_list};
use crate::record::{text_ok, AttrEntryV, BodyKind, CellRecordV, ShapeSpecV, Vec3};
use crate::ser::{
    ser_body, ser_cell, ser_collider, ser_dec, ser_entry, ser_entry_items, ser_entry_list,
    ser_index_items, ser_index_list, ser_layer, ser_layer_block, ser_offset_block, ser_text,
    ser_vec3, ser_vec3_items, ser_vec3_list};

verus! {

/// Splitting an embedded concatenation: if `a + b` stands at `pos`, then `a`
/// stands at `pos` and `b` right after it.
pub proof fn lemma_split(s: Seq<u8>, pos: int, a: Seq<u8>, b: Seq<u8>)
    requires
        0 <= pos,
        pos + a.len() + b.len() <= s.len(),
        s.subrange(pos, pos + a.len() + b.len()) == a + b,
    ensures
        s.subrange(pos, pos + a.len()) == a,
        s.subrange(pos + a.len(), pos + a.len() + b.len()) == b,
{
    let whole = s.subrange(pos, pos + a.len() + b.len());
    assert forall|i: int| 0 <= i < a.len() implies #[trigger] s.subrange(pos, pos + a.len())[i]
        == a[i] by {
        assert(whole[i] == (a + b)[i]);
    }
    assert(s.subrange(pos, pos + a.len()) =~= a);
    assert forall|i: int| 0 <= i < b.len() implies #[trigger] s.subrange(
        pos + a.len(),
        pos + a.len() + b.len(),
    )[i] == b[i] by {
        assert(whole[a.len() + i] == (a + b)[a.len() + i]);
    }
    assert(s.subrange(pos + a.len(), pos + a.len() + b.len()) =~= b);
}

/// The byte at `pos` of an embedded word.
pub proof fn lemma_byte_at(s: Seq<u8>, pos: int, w: Seq<u8>, i: int)
    requires
        0 <= pos,
        pos + w.len() <= s.len(),
        s.subrange(pos, pos + w.len()) == w,
        0 <= i < w.len(),
    ensures
        s[pos + i] == w[i],
{
    assert(s.subrange(pos, pos + w.len())[i] == w[i]);
}

/// Reading back a canonical digit string bounded by `max`.
pub proof fn lemma_rt_uint(s: Seq<u8>, pos: int, n: nat, max: u64)
    requires
        0 <= pos,
        n <= max,
        n < 10_000_000_000_000_000_000,
        pos + dig_seq(n).len() <= s.len(),
        s.subrange(pos, pos + dig_seq(n).len() as int) == dig_seq(n),
        pos + dig_seq(n).len() == s.len() || !is_digit(s[pos + dig_seq(n).len()]),
    ensures
        spec_read_uint(s, pos, max) == Some((n as u64, pos + dig_seq(n).len())),
        skip_ws(s, pos) == pos,
{
    lemma_digits_roundtrip(s, pos, n);
    lemma_dig_seq_digits(n);
    assert(dig_seq(n).len() <= 19) by {
        lemma_pow10_19();
        lemma_dig_seq_len_le(n, 19);
    }
    lemma_byte_at(s, pos, dig_seq(n), 0);
    assert(is_digit(s[pos]));
    assert(skip_ws(s, pos) == pos);
}

/// A number below `10^k` needs at most `k` digits.
pub proof fn lemma_dig_seq_len_le(n: nat, k: nat)
    requires
        n < pow10(k),
        k >= 1,
    ensures
        dig_seq(n).len() <= k,
    decreases n,
{
    if n >= 10 {
        assert(pow10(k) == 10 * pow10((k - 1) as nat));
        assert(n / 10 < pow10((k - 1) as nat));
        assert(k - 1 >= 1) by {
            assert(pow10(1) == 10 * pow10(0));
            if k == 1 {
                assert(n < 10);
            }
        }
        lemma_dig_seq_len_le(n / 10, (k - 1) as nat);
    }
}

/// The first byte past `pos` holding a quote, when the embedded text is
/// quote-free, stands right after the text.
pub proof fn lemma_quote_end_exact(s: Seq<u8>, pos: int, end: int)
    requires
        0 <= pos <= end <= s.len(),
        forall|i: int| pos <= i < end ==> s[i] != 34,
        end < s.len() && s[end] == 34,
    ensures
        quote_end(s, pos) == end,
    decreases end - pos,
{
    if pos < end {
        lemma_quote_end_exact(s, pos + 1, end);
    }
}

/// Reading back a written string.
pub proof fn lemma_rt_text(s: Seq<u8>, pos: int, t: Seq<u8>)
    requires
        0 <= pos,
        text_ok(t),
        pos + ser_text(t).len() <= s.len(),
        s.subrange(pos, pos + ser_text(t).len() as int) == ser_text(t),
    ensures
        spec_text(s, pos) == Some((t, pos + ser_text(t).len())),
        skip_ws(s, pos) == pos,
{
    let w = ser_text(t);
    let l = w.len() as int;
    assert(w[0] == 34 && w[l - 1] == 34);
    lemma_byte_at(s, pos, w, 0);
    assert(skip_ws(s, pos) == pos);
    assert(spec_eat(s, pos, 34) == Some(pos + 1));
    assert forall|i: int| pos + 1 <= i < pos + 1 + t.len() implies s[i] != 34 by {
        lemma_byte_at(s, pos, w, i - pos);
        assert(w[i - pos] == t[i - pos - 1]);
    }
    lemma_byte_at(s, pos, w, l - 1);
    lemma_quote_end_exact(s, pos + 1, pos + 1 + t.len());
    assert(s.subrange(pos + 1, pos + 1 + t.len()) =~= t) by {
        assert forall|i: int| 0 <= i < t.len() implies #[trigger] s.subrange(
            pos + 1,
            pos + 1 + t.len(),
        )[i] == t[i] by {
            lemma_byte_at(s, pos, w, i + 1);
            assert(w[i + 1] == t[i]);
        }
    }
}

/// Reading back a written identifier word.
pub proof fn lemma_rt_ident(s: Seq<u8>, pos: int, w: Seq<u8>)
    requires
        0 <= pos,
        w.len() >= 1,
        forall|i: int| 0 <= i < w.len() ==> is_ident(#[trigger] w[i]),
        pos + w.len() <= s.len(),
        s.subrange(pos, pos + w.len() as int) == w,
        pos + w.len() == s.len() || !is_ident(s[pos + w.len()]),
    ensures
        spec_ident(s, pos) == (w, pos + w.len()),
        skip_ws(s, pos) == pos,
{
    lemma_byte_at(s, pos, w, 0);
    assert(skip_ws(s, pos) == pos);
    assert forall|i: int| pos <= i < pos + w.len() implies is_ident(s[i]) by {
        lemma_byte_at(s, pos, w, i - pos);
    }
    lemma_ident_end_exact(s, pos, pos + w.len() as int);
}

/// Reading back a written canonical scalar, when no digit or point follows.
#[verifier::spinoff_prover]
#[verifier::rlimit(60)]
pub proof fn lemma_rt_dec(s: Seq<u8>, pos: int, d: Dec)
    requires
        0 <= pos,
        d.wf(),
        pos + ser_dec(d).len() <= s.len(),
        s.subrange(pos, pos + ser_dec(d).len() as int) == ser_dec(d),
        pos + ser_dec(d).len() == s.len() || (!is_digit(s[pos + ser_dec(d).len()]) && s[pos
            + ser_dec(d).len()] != 46),
    ensures
        spec_scalar(s, pos) == Some((d, pos + ser_dec(d).len())),
        skip_ws(s, pos) == pos,
{
    let w = ser_dec(d);
    let l = w.len() as int;
    let sign: Seq<u8> = if d.neg {
        seq![45u8]
    } else {
        Seq::empty()
    };
    let p1 = pos + sign.len();
    let m = d.mantissa as nat;
    if d.frac == 0 {
        lemma_split(s, pos, sign, dig_seq(m));
        lemma_dig_seq_digits(m);
        lemma_byte_at(s, p1, dig_seq(m), 0);
        if d.neg {
            lemma_byte_at(s, pos, w, 0);
        }
        assert(skip_ws(s, pos) == pos);
        // The sign is read exactly when it was written.
        assert((s[pos] == 45) == d.neg) by {
            if !d.neg {
                assert(is_digit(s[pos]));
            }
        }
        lemma_rt_uint(s, p1, m, DEC_PARSE_MAX);
        let e1 = p1 + dig_seq(m).len();
        assert(e1 == pos + l);
        assert(!(e1 < s.len() && s[e1] == 46));
        lemma_canon_of_canonical(d);
    } else {
        let p10 = pow10(d.frac as nat);
        lemma_pow10_pos(d.frac as nat);
        let ip = m / p10;
        let fp = m % p10;
        let digs = dig_seq(ip);
        let padded = dig_seq_pad(fp, d.frac as nat);
        assert(fp < p10) by {
            vstd::arithmetic::div_mod::lemma_mod_bound(m as int, p10 as int);
        }
        crate::bytes::lemma_dig_seq_pad_digits(fp, d.frac as nat);
        assert(w =~= sign + (digs + seq![46u8] + padded));
        lemma_split(s, pos, sign, digs + seq![46u8] + padded);
        assert(digs + seq![46u8] + padded =~= digs + (seq![46u8] + padded));
        lemma_split(s, p1, digs, seq![46u8] + padded);
        let pdot = p1 + digs.len();
        lemma_split(s, pdot, seq![46u8], padded);
        lemma_dig_seq_digits(ip);
        lemma_byte_at(s, p1, digs, 0);
        if d.neg {
            lemma_byte_at(s, pos, w, 0);
        }
        assert(skip_ws(s, pos) == pos);
        assert((s[pos] == 45) == d.neg) by {
            if !d.neg {
                assert(is_digit(s[pos]));
            }
        }
        assert(ip <= DEC_PARSE_MAX) by {
            vstd::arithmetic::div_mod::lemma_fundamental_div_mod(m as int, p10 as int);
            vstd::arithmetic::div_mod::lemma_mod_bound(m as int, p10 as int);
            if ip > 0 {
                vstd::arithmetic::mul::lemma_mul_increases(p10 as int, ip as int);
            }
        }
        lemma_byte_at(s, pdot, seq![46u8], 0);
        lemma_rt_uint(s, p1, ip, DEC_PARSE_MAX);
        let e1 = pdot;
        let fe = pdot + 1 + padded.len();
        assert(fp < p10) by {
            vstd::arithmetic::div_mod::lemma_mod_bound(m as int, p10 as int);
        }
        lemma_digits_pad_roundtrip(s, pdot + 1, fp, d.frac as nat);
        assert(digits_end(s, pdot + 1) == fe);
        assert(ip * p10 + fp == m) by {
            vstd::arithmetic::div_mod::lemma_fundamental_div_mod(m as int, p10 as int);
        }
        lemma_canon_of_canonical(d);
        assert(fe == pos + l);
    }
}

/// Every keyword of the grammar is a nonempty identifier word.
pub proof fn lemma_kw_idents()
    ensures
        forall|i: int| 0 <= i < kw_scene().len() ==> is_ident(#[trigger] kw_scene()[i]),
        forall|i: int| 0 <= i < kw_collider().len() ==> is_ident(#[trigger] kw_collider()[i]),
        forall|i: int|
            0 <= i < kw_collider_offset().len() ==> is_ident(#[trigger] kw_collider_offset()[i]),
        forall|i: int| 0 <= i < kw_body().len() ==> is_ident(#[trigger] kw_body()[i]),
        forall|i: int| 0 <= i < kw_scale().len() ==> is_ident(#[trigger] kw_scale()[i]),
        forall|i: int| 0 <= i < kw_components().len() ==> is_ident(#[trigger] kw_components()[i]),
        forall|i: int| 0 <= i < kw_layer().len() ==> is_ident(#[trigger] kw_layer()[i]),
        forall|i: int| 0 <= i < kw_cuboid().len() ==> is_ident(#[trigger] kw_cuboid()[i]),
        forall|i: int| 0 <= i < kw_mesh().len() ==> is_ident(#[trigger] kw_mesh()[i]),
        forall|i: int| 0 <= i < kw_vertices().len() ==> is_ident(#[trigger] kw_vertices()[i]),
        forall|i: int| 0 <= i < kw_indices().len() ==> is_ident(#[trigger] kw_indices()[i]),
        forall|i: int| 0 <= i < kw_static().len() ==> is_ident(#[trigger] kw_static()[i]),
        forall|i: int| 0 <= i < kw_dynamic().len() ==> is_ident(#[trigger] kw_dynamic()[i]),
        forall|i: int| 0 <= i < kw_kinematic().len() ==> is_ident(#[trigger] kw_kinematic()[i]),
{
}

/// The field names of equal length are still distinct words.
pub proof fn lemma_kw_distinct()
    ensures
        kw_scene() != kw_scale(),
        kw_scene() != kw_layer(),
        kw_scale() != kw_layer(),
    {
    assert(kw_scene()[2] == 101 && kw_scale()[2] == 97);
    assert(kw_scene()[0] == 115 && kw_layer()[0] == 108);
    assert(kw_scale()[0] == 115);
}

/// At a closing parenthesis, the optional trailing comma is absent.
pub proof fn lemma_rt_close_paren(s: Seq<u8>, p: int)
    requires
        0 <= p < s.len(),
        s[p] == 41,
    ensures
        spec_close_paren(s, p) == Some(p + 1),
{
    assert(skip_ws(s, p) == p);
}

pub proof fn lemma_rt_close_brace(s: Seq<u8>, p: int)
    requires
        0 <= p < s.len(),
        s[p] == 125,
    ensures
        spec_close_brace(s, p) == Some(p + 1),
{
    assert(skip_ws(s, p) == p);
}

/// Reading back a written vector.
#[verifier::spinoff_prover]
#[verifier::rlimit(60)]
pub proof fn lemma_rt_vec3(s: Seq<u8>, pos: int, v: Vec3)
    requires
        0 <= pos,
        v.wf(),
        pos + ser_vec3(v).len() <= s.len(),
        s.subrange(pos, pos + ser_vec3(v).len() as int) == ser_vec3(v),
    ensures
        spec_vec3(s, pos) == Some((v, pos + ser_vec3(v).len())),
        skip_ws(s, pos) == pos,
{
    let dx = ser_dec(v.x);
    let dy = ser_dec(v.y);
    let dz = ser_dec(v.z);
    let t5 = dz + seq![41u8];
    let t4 = seq![44u8] + t5;
    let t3 = dy + t4;
    let t2 = seq![44u8] + t3;
    let t1 = dx + t2;
    let t0 = seq![40u8] + t1;
    assert(ser_vec3(v) =~= t0);
    lemma_split(s, pos, seq![40u8], t1);
    lemma_byte_at(s, pos, seq![40u8], 0);
    assert(skip_ws(s, pos) == pos);
    let p0 = pos + 1;
    lemma_split(s, p0, dx, t2);
    let p1 = p0 + dx.len();
    lemma_split(s, p1, seq![44u8], t3);
    lemma_byte_at(s, p1, seq![44u8], 0);
    lemma_rt_dec(s, p0, v.x);
    assert(spec_eat(s, p1, 44) == Some(p1 + 1));
    let p2 = p1 + 1;
    lemma_split(s, p2, dy, t4);
    let p3 = p2 + dy.len();
    lemma_split(s, p3, seq![44u8], t5);
    lemma_byte_at(s, p3, seq![44u8], 0);
    lemma_rt_dec(s, p2, v.y);
    assert(spec_eat(s, p3, 44) == Some(p3 + 1));
    let p4 = p3 + 1;
    lemma_split(s, p4, dz, seq![41u8]);
    let p5 = p4 + dz.len();
    lemma_byte_at(s, p5, seq![41u8], 0);
    lemma_rt_dec(s, p4, v.z);
    lemma_rt_close_paren(s, p5);
    assert(p5 + 1 == pos + ser_vec3(v).len());
}

/// Reading back the items of a written vector list.
#[verifier::spinoff_prover]
#[verifier::rlimit(60)]
pub proof fn lemma_rt_vec3_items(s: Seq<u8>, pos: int, vs: Seq<Vec3>, i: int)
    requires
        0 <= pos,
        0 <= i < vs.len(),
        forall|j: int| 0 <= j < vs.len() ==> (#[trigger] vs[j]).wf(),
        pos + ser_vec3_items(vs, i).len() <= s.len(),
        s.subrange(pos, pos + ser_vec3_items(vs, i).len() as int) == ser_vec3_items(vs, i),
    ensures
        spec_vec3_items(s, pos) == Some((vs.subrange(i, vs.len() as int), pos + ser_vec3_items(
            vs,
            i,
        ).len())),
    decreases vs.len() - i,
{
    let w = ser_vec3_items(vs, i);
    let head = ser_vec3(vs[i]);
    if i == vs.len() - 1 {
        assert(w =~= head + seq![93u8]);
        lemma_split(s, pos, head, seq![93u8]);
        let p1 = pos + head.len();
        lemma_byte_at(s, p1, seq![93u8], 0);
        lemma_rt_vec3(s, pos, vs[i]);
        assert(skip_ws(s, p1) == p1);
        assert(seq![vs[i]] =~= vs.subrange(i, vs.len() as int));
    } else {
        let rest = ser_vec3_items(vs, i + 1);
        let t1 = seq![44u8] + rest;
        assert(w =~= head + t1);
        lemma_split(s, pos, head, t1);
        let p1 = pos + head.len();
        lemma_split(s, p1, seq![44u8], rest);
        lemma_byte_at(s, p1, seq![44u8], 0);
        lemma_rt_vec3(s, pos, vs[i]);
        assert(skip_ws(s, p1) == p1);
        let q2 = p1 + 1;
        // The next item begins with its opening parenthesis.
        let head2 = ser_vec3(vs[i + 1]);
        assert(rest[0] == 40) by {
            if i + 1 == vs.len() - 1 {
                assert(rest =~= head2 + seq![93u8]);
            } else {
                assert(rest =~= head2 + (seq![44u8] + ser_vec3_items(vs, i + 2)));
            }
            assert(rest[0] == head2[0]);
        }
        lemma_byte_at(s, q2, rest, 0);
        assert(skip_ws(s, q2) == q2);
        lemma_rt_vec3_items(s, q2, vs, i + 1);
        assert(seq![vs[i]] + vs.subrange(i + 1, vs.len() as int) =~= vs.subrange(
            i,
            vs.len() as int,
        ));
    }
}

/// Reading back a whole written vector list.
pub proof fn lemma_rt_vec3_list(s: Seq<u8>, pos: int, vs: Seq<Vec3>)
    requires
        0 <= pos,
        forall|j: int| 0 <= j < vs.len() ==> (#[trigger] vs[j]).wf(),
        pos + ser_vec3_list(vs).len() <= s.len(),
        s.subrange(pos, pos + ser_vec3_list(vs).len() as int) == ser_vec3_list(vs),
    ensures
        spec_vec3_list(s, pos) == Some((vs, pos + ser_vec3_list(vs).len())),
        skip_ws(s, pos) == pos,
{
    let items = ser_vec3_items(vs, 0);
    assert(ser_vec3_list(vs) =~= seq![91u8] + items);
    lemma_split(s, pos, seq![91u8], items);
    lemma_byte_at(s, pos, seq![91u8], 0);
    assert(skip_ws(s, pos) == pos);
    let p = pos + 1;
    if vs.len() == 0 {
        assert(items =~= seq![93u8]);
        lemma_byte_at(s, p, items, 0);
        assert(skip_ws(s, p) == p);
        assert(Seq::<Vec3>::empty() =~= vs);
    } else {
        let head = ser_vec3(vs[0]);
        assert(items[0] == 40) by {
            if vs.len() == 1 {
                assert(items =~= head + seq![93u8]);
            } else {
                assert(items =~= head + (seq![44u8] + ser_vec3_items(vs, 1)));
            }
            assert(items[0] == head[0]);
        }
        lemma_byte_at(s, p, items, 0);
        assert(skip_ws(s, p) == p);
        lemma_rt_vec3_items(s, p, vs, 0);
        assert(vs.subrange(0, vs.len() as int) =~= vs);
    }
}

/// Reading back the items of a written index list.
#[verifier::spinoff_prover]
#[verifier::rlimit(60)]
pub proof fn lemma_rt_index_items(s: Seq<u8>, pos: int, is: Seq<u16>, i: int)
    requires
        0 <= pos,
        0 <= i < is.len(),
        pos + ser_index_items(is, i).len() <= s.len(),
        s.subrange(pos, pos + ser_index_items(is, i).len() as int) == ser_index_items(is, i),
    ensures
        spec_index_items(s, pos) == Some((is.subrange(i, is.len() as int), pos + ser_index_items(
            is,
            i,
        ).len())),
    decreases is.len() - i,
{
    let w = ser_index_items(is, i);
    let head = dig_seq(is[i] as nat);
    lemma_dig_seq_digits(is[i] as nat);
    if i == is.len() - 1 {
        assert(w =~= head + seq![93u8]);
        lemma_split(s, pos, head, seq![93u8]);
        let p1 = pos + head.len();
        lemma_byte_at(s, p1, seq![93u8], 0);
        lemma_rt_uint(s, pos, is[i] as nat, 65535);
        assert(skip_ws(s, p1) == p1);
        assert(seq![is[i]] =~= is.subrange(i, is.len() as int));
        assert((is[i] as u64) as u16 == is[i]);
    } else {
        let rest = ser_index_items(is, i + 1);
        let t1 = seq![44u8] + rest;
        assert(w =~= head + t1);
        lemma_split(s, pos, head, t1);
        let p1 = pos + head.len();
        lemma_split(s, p1, seq![44u8], rest);
        lemma_byte_at(s, p1, seq![44u8], 0);
        lemma_rt_uint(s, pos, is[i] as nat, 65535);
        assert(skip_ws(s, p1) == p1);
        let q2 = p1 + 1;
        let head2 = dig_seq(is[i + 1] as nat);
        lemma_dig_seq_digits(is[i + 1] as nat);
        assert(is_digit(rest[0]) && rest[0] != 93) by {
            if i + 1 == is.len() - 1 {
                assert(rest =~= head2 + seq![93u8]);
            } else {
                assert(rest =~= head2 + (seq![44u8] + ser_index_items(is, i + 2)));
            }
            assert(rest[0] == head2[0]);
        }
        lemma_byte_at(s, q2, rest, 0);
        assert(skip_ws(s, q2) == q2);
        lemma_rt_index_items(s, q2, is, i + 1);
        assert(seq![is[i]] + is.subrange(i + 1, is.len() as int) =~= is.subrange(
            i,
            is.len() as int,
        ));
        assert((is[i] as u64) as u16 == is[i]);
    }
}

/// Reading back a whole written index list.
pub proof fn lemma_rt_index_list(s: Seq<u8>, pos: int, is: Seq<u16>)
    requires
        0 <= pos,
        pos + ser_index_list(is).len() <= s.len(),
        s.subrange(pos, pos + ser_index_list(is).len() as int) == ser_index_list(is),
    ensures
        spec_index_list(s, pos) == Some((is, pos + ser_index_list(is).len())),
        skip_ws(s, pos) == pos,
{
    let items = ser_index_items(is, 0);
    assert(ser_index_list(is) =~= seq![91u8] + items);
    lemma_split(s, pos, seq![91u8], items);
    lemma_byte_at(s, pos, seq![91u8], 0);
    assert(skip_ws(s, pos) == pos);
    let p = pos + 1;
    if is.len() == 0 {
        assert(items =~= seq![93u8]);
        lemma_byte_at(s, p, items, 0);
        assert(skip_ws(s, p) == p);
        assert(Seq::<u16>::empty() =~= is);
    } else {
        let head = dig_seq(is[0] as nat);
        lemma_dig_seq_digits(is[0] as nat);
        assert(is_digit(items[0]) && items[0] != 93) by {
            if is.len() == 1 {
                assert(items =~= head + seq![93u8]);
            } else {
                assert(items =~= head + (seq![44u8] + ser_index_items(is, 1)));
            }
            assert(items[0] == head[0]);
        }
        lemma_byte_at(s, p, items, 0);
        assert(skip_ws(s, p) == p);
        lemma_rt_index_items(s, p, is, 0);
        assert(is.subrange(0, is.len() as int) =~= is);
    }
}

/// Reading back one written attribute entry followed by its separator.
#[verifier::spinoff_prover]
#[verifier::rlimit(60)]
pub proof fn lemma_rt_entry_items(s: Seq<u8>, pos: int, es: Seq<AttrEntryV>, i: int)
    requires
        0 <= pos,
        0 <= i < es.len(),
        forall|j: int|
            0 <= j < es.len() ==> text_ok((#[trigger] es[j]).name) && text_ok(es[j].payload),
        pos + ser_entry_items(es, i).len() <= s.len(),
        s.subrange(pos, pos + ser_entry_items(es, i).len() as int) == ser_entry_items(es, i),
    ensures
        spec_entry_items(s, pos) == Some((es.subrange(i, es.len() as int), pos + ser_entry_items(
            es,
            i,
        ).len())),
    decreases es.len() - i,
{
    let w = ser_entry_items(es, i);
    let name = ser_text(es[i].name);
    let payload = ser_text(es[i].payload);
    let tail: Seq<u8> = if i == es.len() - 1 {
        seq![125u8]
    } else {
        seq![44u8] + ser_entry_items(es, i + 1)
    };
    let t2 = payload + tail;
    let t1 = seq![58u8] + t2;
    assert(w =~= name + t1) by {
        assert(ser_entry(es[i]) =~= (name + seq![58u8]) + payload);
    }
    lemma_split(s, pos, name, t1);
    lemma_rt_text(s, pos, es[i].name);
    let p1 = pos + name.len();
    lemma_split(s, p1, seq![58u8], t2);
    lemma_byte_at(s, p1, seq![58u8], 0);
    assert(spec_eat(s, p1, 58) == Some(p1 + 1));
    let p2 = p1 + 1;
    lemma_split(s, p2, payload, tail);
    lemma_rt_text(s, p2, es[i].payload);
    let p3 = p2 + payload.len();
    if i == es.len() - 1 {
        lemma_byte_at(s, p3, tail, 0);
        assert(skip_ws(s, p3) == p3);
        assert(seq![es[i]] =~= es.subrange(i, es.len() as int));
    } else {
        let rest = ser_entry_items(es, i + 1);
        lemma_split(s, p3, seq![44u8], rest);
        lemma_byte_at(s, p3, seq![44u8], 0);
        assert(skip_ws(s, p3) == p3);
        let q2 = p3 + 1;
        assert(rest[0] == 34 && rest[0] != 125) by {
            let name2 = ser_text(es[i + 1].name);
            if i + 1 == es.len() - 1 {
                assert(rest =~= name2 + (seq![58u8] + (ser_text(es[i + 1].payload) + seq![
                    125u8,
                ])));
            } else {
                assert(rest =~= name2 + (seq![58u8] + (ser_text(es[i + 1].payload) + (seq![44u8]
                    + ser_entry_items(es, i + 2)))));
            }
            assert(rest[0] == name2[0]);
        }
        lemma_byte_at(s, q2, rest, 0);
        assert(skip_ws(s, q2) == q2);
        lemma_rt_entry_items(s, q2, es, i + 1);
        assert(seq![es[i]] + es.subrange(i + 1, es.len() as int) =~= es.subrange(
            i,
            es.len() as int,
        ));
    }
}

/// Reading back a whole written attribute-entry list.
pub proof fn lemma_rt_entry_list(s: Seq<u8>, pos: int, es: Seq<AttrEntryV>)
    requires
        0 <= pos,
        forall|j: int|
            0 <= j < es.len() ==> text_ok((#[trigger] es[j]).name) && text_ok(es[j].payload),
        pos + ser_entry_list(es).len() <= s.len(),
        s.subrange(pos, pos + ser_entry_list(es).len() as int) == ser_entry_list(es),
    ensures
        spec_entry_list(s, pos) == Some((es, pos + ser_entry_list(es).len())),
        skip_ws(s, pos) == pos,
{
    let items = ser_entry_items(es, 0);
    assert(ser_entry_list(es) =~= seq![123u8] + items);
    lemma_split(s, pos, seq![123u8], items);
    lemma_byte_at(s, pos, seq![123u8], 0);
    assert(skip_ws(s, pos) == pos);
    let p = pos + 1;
    if es.len() == 0 {
        assert(items =~= seq![125u8]);
        lemma_byte_at(s, p, items, 0);
        assert(skip_ws(s, p) == p);
        assert(Seq::<AttrEntryV>::empty() =~= es);
    } else {
        let name0 = ser_text(es[0].name);
        assert(items[0] == 34 && items[0] != 125) by {
            if es.len() == 1 {
                assert(items =~= name0 + (seq![58u8] + (ser_text(es[0].payload) + seq![125u8])));
            } else {
                assert(items =~= name0 + (seq![58u8] + (ser_text(es[0].payload) + (seq![44u8]
                    + ser_entry_items(es, 1)))));
            }
            assert(items[0] == name0[0]);
        }
        lemma_byte_at(s, p, items, 0);
        assert(skip_ws(s, p) == p);
        lemma_rt_entry_items(s, p, es, 0);
        assert(es.subrange(0, es.len() as int) =~= es);
    }
}

/// Reading back a written body kind, when no identifier byte follows.
pub proof fn lemma_rt_body(s: Seq<u8>, pos: int, b: BodyKind)
    requires
        0 <= pos,
        pos + ser_body(b).len() <= s.len(),
        s.subrange(pos, pos + ser_body(b).len() as int) == ser_body(b),
        pos + ser_body(b).len() == s.len() || !is_ident(s[pos + ser_body(b).len()]),
    ensures
        spec_body(s, pos) == Some((b, pos + ser_body(b).len())),
        skip_ws(s, pos) == pos,
{
    lemma_kw_idents();
    lemma_rt_ident(s, pos, ser_body(b));
}

/// Reading back a written layer pair.
#[verifier::spinoff_prover]
#[verifier::rlimit(60)]
pub proof fn lemma_rt_layer(s: Seq<u8>, pos: int, l: (u32, u32))
    requires
        0 <= pos,
        pos + ser_layer(l).len() <= s.len(),
        s.subrange(pos, pos + ser_layer(l).len() as int) == ser_layer(l),
    ensures
        spec_layer(s, pos) == Some((l, pos + ser_layer(l).len())),
        skip_ws(s, pos) == pos,
{
    let da = dig_seq(l.0 as nat);
    let db = dig_seq(l.1 as nat);
    let t3 = db + seq![41u8];
    let t2 = seq![44u8] + t3;
    let t1 = da + t2;
    assert(ser_layer(l) =~= seq![40u8] + t1);
    lemma_split(s, pos, seq![40u8], t1);
    lemma_byte_at(s, pos, seq![40u8], 0);
    assert(skip_ws(s, pos) == pos);
    let p0 = pos + 1;
    lemma_split(s, p0, da, t2);
    let p1 = p0 + da.len();
    lemma_split(s, p1, seq![44u8], t3);
    lemma_byte_at(s, p1, seq![44u8], 0);
    lemma_rt_uint(s, p0, l.0 as nat, 0xFFFF_FFFF);
    assert(spec_eat(s, p1, 44) == Some(p1 + 1));
    let p2 = p1 + 1;
    lemma_split(s, p2, db, seq![41u8]);
    let p3 = p2 + db.len();
    lemma_byte_at(s, p3, seq![41u8], 0);
    lemma_rt_uint(s, p2, l.1 as nat, 0xFFFF_FFFF);
    lemma_rt_close_paren(s, p3);
    assert((l.0 as u64) as u32 == l.0 && (l.1 as u64) as u32 == l.1);
    assert(((l.0 as u64) as u32, (l.1 as u64) as u32) == l);
}

/// Reading back a written collision-shape spec.
pub proof fn lemma_rt_collider(s: Seq<u8>, pos: int, c: ShapeSpecV)
    requires
        0 <= pos,
        c.wf(),
        pos + ser_collider(c).len() <= s.len(),
        s.subrange(pos, pos + ser_collider(c).len() as int) == ser_collider(c),
    ensures
        spec_collider(s, pos) == Some((c, pos + ser_collider(c).len())),
        skip_ws(s, pos) == pos,
        is_ident(s[pos]),
{
    match c {
        ShapeSpecV::Cuboid(v) => {
            lemma_rt_collider_cuboid(s, pos, c, v);
        },
        ShapeSpecV::Mesh { vertices, indices } => {
            lemma_rt_collider_mesh(s, pos, c, vertices, indices);
        }}
}

#[verifier::spinoff_prover]
#[verifier::rlimit(100)]
proof fn lemma_rt_collider_cuboid(s: Seq<u8>, pos: int, c: ShapeSpecV, v: Vec3)
    requires
        0 <= pos,
        c == ShapeSpecV::Cuboid(v),
        c.wf(),
        pos + ser_collider(c).len() <= s.len(),
        s.subrange(pos, pos + ser_collider(c).len() as int) == ser_collider(c),
    ensures
        spec_collider(s, pos) == Some((c, pos + ser_collider(c).len())),
        skip_ws(s, pos) == pos,
        is_ident(s[pos]),
{
    lemma_kw_idents();
    let w = ser_collider(c);
    let body = ser_vec3(v);
    let t3 = body + seq![41u8];
    let t2 = seq![40u8] + t3;
    let t1 = kw_cuboid() + t2;
    assert(w =~= t1);
    lemma_split(s, pos, kw_cuboid(), t2);
    let e = pos + kw_cuboid().len();
    lemma_split(s, e, seq![40u8], t3);
    lemma_byte_at(s, e, seq![40u8], 0);
    lemma_rt_ident(s, pos, kw_cuboid());
    lemma_byte_at(s, pos, kw_cuboid(), 0);
    assert(spec_eat(s, e, 40) == Some(e + 1));
    let p0 = e + 1;
    lemma_split(s, p0, body, seq![41u8]);
    lemma_rt_vec3(s, p0, v);
    let p1 = p0 + body.len();
    lemma_byte_at(s, p1, seq![41u8], 0);
    lemma_rt_close_paren(s, p1);
}

#[verifier::spinoff_prover]
#[verifier::rlimit(100)]
proof fn lemma_rt_collider_mesh(
    s: Seq<u8>,
    pos: int,
    c: ShapeSpecV,
    vertices: Seq<Vec3>,
    indices: Seq<u16>,
)
    requires
        0 <= pos,
        c == (ShapeSpecV::Mesh { vertices, indices }),
        c.wf(),
        pos + ser_collider(c).len() <= s.len(),
        s.subrange(pos, pos + ser_collider(c).len() as int) == ser_collider(c),
    ensures
        spec_collider(s, pos) == Some((c, pos + ser_collider(c).len())),
        skip_ws(s, pos) == pos,
        is_ident(s[pos]),
{
    lemma_kw_idents();
    let w = ser_collider(c);
    let vlist = ser_vec3_list(vertices);
    let ilist = ser_index_list(indices);
    let t8 = ilist + seq![125u8];
    let t7 = seq![58u8] + t8;
    let t6 = kw_indices() + t7;
    let t5 = seq![44u8] + t6;
    let t4 = vlist + t5;
    let t3 = seq![58u8] + t4;
    let t2 = kw_vertices() + t3;
    let t1 = seq![123u8] + t2;
    assert(w =~= kw_mesh() + t1);
    lemma_split(s, pos, kw_mesh(), t1);
    let e = pos + kw_mesh().len();
    lemma_split(s, e, seq![123u8], t2);
    lemma_byte_at(s, e, seq![123u8], 0);
    lemma_rt_ident(s, pos, kw_mesh());
    lemma_byte_at(s, pos, kw_mesh(), 0);
    assert(kw_mesh() != kw_cuboid()) by {
        assert(kw_mesh().len() == 4 && kw_cuboid().len() == 6);
    }
    assert(spec_eat(s, e, 123) == Some(e + 1));
    let p0 = e + 1;
    lemma_split(s, p0, kw_vertices(), t3);
    let e1 = p0 + kw_vertices().len();
    lemma_split(s, e1, seq![58u8], t4);
    lemma_byte_at(s, e1, seq![58u8], 0);
    lemma_rt_ident(s, p0, kw_vertices());
    assert(spec_eat(s, e1, 58) == Some(e1 + 1));
    let p1 = e1 + 1;
    lemma_split(s, p1, vlist, t5);
    lemma_rt_vec3_list(s, p1, vertices);
    let p2 = p1 + vlist.len();
    lemma_split(s, p2, seq![44u8], t6);
    lemma_byte_at(s, p2, seq![44u8], 0);
    assert(spec_eat(s, p2, 44) == Some(p2 + 1));
    let p3 = p2 + 1;
    lemma_split(s, p3, kw_indices(), t7);
    let e2 = p3 + kw_indices().len();
    lemma_split(s, e2, seq![58u8], t8);
    lemma_byte_at(s, e2, seq![58u8], 0);
    lemma_rt_ident(s, p3, kw_indices());
    assert(kw_indices() != kw_vertices()) by {
        assert(kw_indices().len() == 7 && kw_vertices().len() == 8);
    }
    assert(spec_eat(s, e2, 58) == Some(e2 + 1));
    let p4 = e2 + 1;
    lemma_split(s, p4, ilist, seq![125u8]);
    lemma_rt_index_list(s, p4, indices);
    let p5 = p4 + ilist.len();
    lemma_byte_at(s, p5, seq![125u8], 0);
    lemma_rt_close_brace(s, p5);
}

/// The text of one written `scene` field.
pub open spec fn field_text_scene(v: Seq<u8>) -> Seq<u8> {
    kw_scene() + (seq![58u8] + ser_text(v))
}

#[verifier::spinoff_prover]
#[verifier::rlimit(100)]
pub proof fn lemma_rt_field_scene(s: Seq<u8>, pos: int, part: PartialCellV, v: Seq<u8>)
    requires
        0 <= pos,
        part.scene is None,
        text_ok(v),
        pos + field_text_scene(v).len() <= s.len(),
        s.subrange(pos, pos + field_text_scene(v).len() as int) == field_text_scene(v),
    ensures
        spec_field(s, pos, part) == Some(
            (PartialCellV { scene: Some(v), ..part }, pos + field_text_scene(v).len()),
        ),
        skip_ws(s, pos) == pos,
        is_ident(s[pos]),
{
    lemma_kw_idents();
    lemma_kw_distinct();
    let rest = seq![58u8] + ser_text(v);
    lemma_split(s, pos, kw_scene(), rest);
    let e = pos + kw_scene().len();
    lemma_split(s, e, seq![58u8], ser_text(v));
    lemma_byte_at(s, e, seq![58u8], 0);
    lemma_rt_ident(s, pos, kw_scene());
    lemma_byte_at(s, pos, kw_scene(), 0);
    assert(spec_eat(s, e, 58) == Some(e + 1));
    let pv = e + 1;
    lemma_rt_text(s, pv, v);
}

/// The text of one written `collider` field.
pub open spec fn field_text_collider(v: ShapeSpecV) -> Seq<u8> {
    kw_collider() + (seq![58u8] + ser_collider(v))
}

#[verifier::spinoff_prover]
#[verifier::rlimit(100)]
pub proof fn lemma_rt_field_collider(s: Seq<u8>, pos: int, part: PartialCellV, v: ShapeSpecV)
    requires
        0 <= pos,
        part.collider is None,
        v.wf(),
        pos + field_text_collider(v).len() <= s.len(),
        s.subrange(pos, pos + field_text_collider(v).len() as int) == field_text_collider(v),
    ensures
        spec_field(s, pos, part) == Some(
            (PartialCellV { collider: Some(v), ..part }, pos + field_text_collider(v).len()),
        ),
        skip_ws(s, pos) == pos,
        is_ident(s[pos]),
{
    lemma_kw_idents();
    lemma_kw_distinct();
    let rest = seq![58u8] + ser_collider(v);
    lemma_split(s, pos, kw_collider(), rest);
    let e = pos + kw_collider().len();
    lemma_split(s, e, seq![58u8], ser_collider(v));
    lemma_byte_at(s, e, seq![58u8], 0);
    lemma_rt_ident(s, pos, kw_collider());
    lemma_byte_at(s, pos, kw_collider(), 0);
    assert(spec_eat(s, e, 58) == Some(e + 1));
    let pv = e + 1;
    lemma_rt_collider(s, pv, v);
}

/// The text of one written `collider_offset` field.
pub open spec fn field_text_collider_offset(v: Vec3) -> Seq<u8> {
    kw_collider_offset() + (seq![58u8] + ser_vec3(v))
}

#[verifier::spinoff_prover]
#[verifier::rlimit(100)]
pub proof fn lemma_rt_field_collider_offset(s: Seq<u8>, pos: int, part: PartialCellV, v: Vec3)
    requires
        0 <= pos,
        part.collider_offset is None,
        v.wf(),
        pos + field_text_collider_offset(v).len() <= s.len(),
        s.subrange(pos, pos + field_text_collider_offset(v).len() as int) == field_text_collider_offset(v),
    ensures
        spec_field(s, pos, part) == Some(
            (PartialCellV { collider_offset: Some(v), ..part }, pos + field_text_collider_offset(v).len()),
        ),
        skip_ws(s, pos) == pos,
        is_ident(s[pos]),
{
    lemma_kw_idents();
    lemma_kw_distinct();
    let rest = seq![58u8] + ser_vec3(v);
    lemma_split(s, pos, kw_collider_offset(), rest);
    let e = pos + kw_collider_offset().len();
    lemma_split(s, e, seq![58u8], ser_vec3(v));
    lemma_byte_at(s, e, seq![58u8], 0);
    lemma_rt_ident(s, pos, kw_collider_offset());
    lemma_byte_at(s, pos, kw_collider_offset(), 0);
    assert(spec_eat(s, e, 58) == Some(e + 1));
    let pv = e + 1;
    lemma_rt_vec3(s, pv, v);
}

/// The text of one written `body` field.
pub open spec fn field_text_body(v: BodyKind) -> Seq<u8> {
    kw_body() + (seq![58u8] + ser_body(v))
}

#[verifier::spinoff_prover]
#[verifier::rlimit(100)]
pub proof fn lemma_rt_field_body(s: Seq<u8>, pos: int, part: PartialCellV, v: BodyKind)
    requires
        0 <= pos,
        part.body is None,
        true,
        pos + field_text_body(v).len() <= s.len(),
        s.subrange(pos, pos + field_text_body(v).len() as int) == field_text_body(v),
        pos + field_text_body(v).len() < s.len(),
        s[pos + field_text_body(v).len()] == 44 || s[pos + field_text_body(v).len()] == 41,
    ensures
        spec_field(s, pos, part) == Some(
            (PartialCellV { body: Some(v), ..part }, pos + field_text_body(v).len()),
        ),
        skip_ws(s, pos) == pos,
        is_ident(s[pos]),
{
    lemma_kw_idents();
    lemma_kw_distinct();
    let rest = seq![58u8] + ser_body(v);
    lemma_split(s, pos, kw_body(), rest);
    let e = pos + kw_body().len();
    lemma_split(s, e, seq![58u8], ser_body(v));
    lemma_byte_at(s, e, seq![58u8], 0);
    lemma_rt_ident(s, pos, kw_body());
    lemma_byte_at(s, pos, kw_body(), 0);
    assert(spec_eat(s, e, 58) == Some(e + 1));
    let pv = e + 1;
    lemma_rt_body(s, pv, v);
}

/// The text of one written `scale` field.
pub open spec fn field_text_scale(v: Dec) -> Seq<u8> {
    kw_scale() + (seq![58u8] + ser_dec(v))
}

#[verifier::spinoff_prover]
#[verifier::rlimit(100)]
pub proof fn lemma_rt_field_scale(s: Seq<u8>, pos: int, part: PartialCellV, v: Dec)
    requires
        0 <= pos,
        part.scale is None,
        v.wf(),
        pos + field_text_scale(v).len() <= s.len(),
        s.subrange(pos, pos + field_text_scale(v).len() as int) == field_text_scale(v),
        pos + field_text_scale(v).len() < s.len(),
        s[pos + field_text_scale(v).len()] == 44 || s[pos + field_text_scale(v).len()] == 41,
    ensures
        spec_field(s, pos, part) == Some(
            (PartialCellV { scale: Some(v), ..part }, pos + field_text_scale(v).len()),
        ),
        skip_ws(s, pos) == pos,
        is_ident(s[pos]),
{
    lemma_kw_idents();
    lemma_kw_distinct();
    let rest = seq![58u8] + ser_dec(v);
    lemma_split(s, pos, kw_scale(), rest);
    let e = pos + kw_scale().len();
    lemma_split(s, e, seq![58u8], ser_dec(v));
    lemma_byte_at(s, e, seq![58u8], 0);
    lemma_rt_ident(s, pos, kw_scale());
    lemma_byte_at(s, pos, kw_scale(), 0);
    assert(spec_eat(s, e, 58) == Some(e + 1));
    let pv = e + 1;
    lemma_rt_dec(s, pv, v);
}

/// The text of one written `components` field.
pub open spec fn field_text_components(v: Seq<AttrEntryV>) -> Seq<u8> {
    kw_components() + (seq![58u8] + ser_entry_list(v))
}

#[verifier::spinoff_prover]
#[verifier::rlimit(100)]
pub proof fn lemma_rt_field_components(s: Seq<u8>, pos: int, part: PartialCellV, v: Seq<AttrEntryV>)
    requires
        0 <= pos,
        part.components is None,
        forall|j: int| 0 <= j < v.len() ==> text_ok((#[trigger] v[j]).name) && text_ok(v[j].payload),
        pos + field_text_components(v).len() <= s.len(),
        s.subrange(pos, pos + field_text_components(v).len() as int) == field_text_components(v),
    ensures
        spec_field(s, pos, part) == Some(
            (PartialCellV { components: Some(v), ..part }, pos + field_text_components(v).len()),
        ),
        skip_ws(s, pos) == pos,
        is_ident(s[pos]),
{
    lemma_kw_idents();
    lemma_kw_distinct();
    let rest = seq![58u8] + ser_entry_list(v);
    lemma_split(s, pos, kw_components(), rest);
    let e = pos + kw_components().len();
    lemma_split(s, e, seq![58u8], ser_entry_list(v));
    lemma_byte_at(s, e, seq![58u8], 0);
    lemma_rt_ident(s, pos, kw_components());
    lemma_byte_at(s, pos, kw_components(), 0);
    assert(spec_eat(s, e, 58) == Some(e + 1));
    let pv = e + 1;
    lemma_rt_entry_list(s, pv, v);
}

/// The text of one written `layer` field.
pub open spec fn field_text_layer(v: (u32, u32)) -> Seq<u8> {
    kw_layer() + (seq![58u8] + ser_layer(v))
}

#[verifier::spinoff_prover]
#[verifier::rlimit(100)]
pub proof fn lemma_rt_field_layer(s: Seq<u8>, pos: int, part: PartialCellV, v: (u32, u32))
    requires
        0 <= pos,
        part.layer is None,
        true,
        pos + field_text_layer(v).len() <= s.len(),
        s.subrange(pos, pos + field_text_layer(v).len() as int) == field_text_layer(v),
        pos + field_text_layer(v).len() < s.len(),
        s[pos + field_text_layer(v).len()] == 44 || s[pos + field_text_layer(v).len()] == 41,
    ensures
        spec_field(s, pos, part) == Some(
            (PartialCellV { layer: Some(v), ..part }, pos + field_text_layer(v).len()),
        ),
        skip_ws(s, pos) == pos,
        is_ident(s[pos]),
{
    lemma_kw_idents();
    lemma_kw_distinct();
    let rest = seq![58u8] + ser_layer(v);
    lemma_split(s, pos, kw_layer(), rest);
    let e = pos + kw_layer().len();
    lemma_split(s, e, seq![58u8], ser_layer(v));
    lemma_byte_at(s, e, seq![58u8], 0);
    lemma_rt_ident(s, pos, kw_layer());
    lemma_byte_at(s, pos, kw_layer(), 0);
    assert(spec_eat(s, e, 58) == Some(e + 1));
    let pv = e + 1;
    lemma_rt_layer(s, pv, v);
}

/// `(a + b) + c` regrouped to the right.
proof fn lemma_shift(a: Seq<u8>, b: Seq<u8>, c: Seq<u8>)
    ensures
        (a + b) + c =~= a + (b + c),
{
}


/// One step of the field list: a parsed field followed by a comma continues
/// the list with the grown partial record.
proof fn lemma_fields_step(s: Seq<u8>, pos: int, part: PartialCellV, part2: PartialCellV, vend: int)
    requires
        0 <= pos < s.len(),
        skip_ws(s, pos) == pos,
        is_ident(s[pos]),
        spec_field(s, pos, part) == Some((part2, vend)),
        pos < vend < s.len(),
        s[vend] == 44,
    ensures
        spec_fields(s, pos, part) == spec_fields(s, vend + 1, part2),
{
    assert(s[pos] != 41);
    assert(skip_ws(s, vend) == vend);
}

/// The last field: a parsed field followed by the closing parenthesis ends
/// the list with the finished record.
proof fn lemma_fields_last(
    s: Seq<u8>,
    pos: int,
    part: PartialCellV,
    part2: PartialCellV,
    vend: int,
    t: CellRecordV,
)
    requires
        0 <= pos < s.len(),
        skip_ws(s, pos) == pos,
        is_ident(s[pos]),
        spec_field(s, pos, part) == Some((part2, vend)),
        pos < vend < s.len(),
        s[vend] == 41,
        spec_finish(part2) == Some(t),
    ensures
        spec_fields(s, pos, part) == Some((t, vend + 1)),
{
    assert(s[pos] != 41);
    assert(skip_ws(s, vend) == vend);
}

/// Reading back the written tail of a record, from the `body` field to the
/// closing parenthesis.
#[verifier::spinoff_prover]
#[verifier::rlimit(100)]
proof fn lemma_rt_fields_back(s: Seq<u8>, c4: int, part3: PartialCellV, t: CellRecordV)
    requires
        t.wf(),
        0 <= c4,
        part3 == (PartialCellV {
            scene: Some(t.scene),
            collider: Some(t.collider),
            collider_offset: t.collider_offset,
            body: None,
            scale: None,
            components: None,
            layer: None,
        }),
        c4 + (field_text_body(t.body) + (seq![44u8] + (field_text_scale(t.scale) + (seq![44u8] + (
        field_text_components(t.components) + (ser_layer_block(t.layer)
            + seq![41u8])))))).len() == s.len(),
        s.subrange(c4, s.len() as int) == field_text_body(t.body) + (seq![44u8] + (
        field_text_scale(t.scale) + (seq![44u8] + (field_text_components(t.components) + (
        ser_layer_block(t.layer) + seq![41u8]))))),
    ensures
        spec_fields(s, c4, part3) == Some((t, s.len() as int)),
{
    let n = s.len() as int;
    let f4 = field_text_body(t.body);
    let f5 = field_text_scale(t.scale);
    let f6 = field_text_components(t.components);
    let layblk = ser_layer_block(t.layer);
    let t12: Seq<u8> = seq![41u8];
    let t11 = layblk + t12;
    let t10 = f6 + t11;
    let t9 = seq![44u8] + t10;
    let t8 = f5 + t9;
    let t7 = seq![44u8] + t8;
    let t6 = f4 + t7;
    assert(s.subrange(c4, n) == t6);

    lemma_split(s, c4, f4, t7);
    let v4 = c4 + f4.len();
    lemma_split(s, v4, seq![44u8], t8);
    lemma_byte_at(s, v4, seq![44u8], 0);
    lemma_rt_field_body(s, c4, part3, t.body);
    let part4 = PartialCellV { body: Some(t.body), ..part3 };
    let c5 = v4 + 1;
    lemma_fields_step(s, c4, part3, part4, v4);

    lemma_split(s, c5, f5, t9);
    let v5 = c5 + f5.len();
    lemma_split(s, v5, seq![44u8], t10);
    lemma_byte_at(s, v5, seq![44u8], 0);
    lemma_rt_field_scale(s, c5, part4, t.scale);
    let part5 = PartialCellV { scale: Some(t.scale), ..part4 };
    let c6 = v5 + 1;
    lemma_fields_step(s, c5, part4, part5, v5);

    lemma_split(s, c6, f6, t11);
    let v6 = c6 + f6.len();
    lemma_rt_field_components(s, c6, part5, t.components);
    let part6 = PartialCellV { components: Some(t.components), ..part5 };

    let part7 = PartialCellV { layer: t.layer, ..part6 };
    if let Some(lv) = t.layer {
        let f7 = field_text_layer(lv);
        assert(layblk == seq![44u8] + f7);
        assert(t11 =~= seq![44u8] + (f7 + t12)) by {
            lemma_shift(seq![44u8], f7, t12);
        }
        lemma_split(s, v6, seq![44u8], f7 + t12);
        lemma_byte_at(s, v6, seq![44u8], 0);
        lemma_fields_step(s, c6, part5, part6, v6);
        let c7 = v6 + 1;
        lemma_split(s, c7, f7, t12);
        let v7 = c7 + f7.len();
        lemma_byte_at(s, v7, t12, 0);
        lemma_rt_field_layer(s, c7, part6, lv);
        assert(v7 + 1 == n);
        assert(spec_finish(part7) == Some(t));
        lemma_fields_last(s, c7, part6, part7, v7, t);
    } else {
        assert(layblk =~= Seq::<u8>::empty());
        assert(t11 =~= t12);
        lemma_byte_at(s, v6, t12, 0);
        assert(v6 + 1 == n);
        assert(part7 == part6);
        assert(spec_finish(part7) == Some(t));
        lemma_fields_last(s, c6, part5, part7, v6, t);
    }
}

/// The written record with each field regrouped into one block.
pub open spec fn grouped_fields(t: CellRecordV) -> Seq<u8> {
    field_text_scene(t.scene) + (seq![44u8] + (field_text_collider(t.collider) + (
    ser_offset_block(t.collider_offset) + (seq![44u8] + (field_text_body(t.body) + (seq![44u8] + (
    field_text_scale(t.scale) + (seq![44u8] + (field_text_components(t.components) + (
    ser_layer_block(t.layer) + seq![41u8]))))))))))
}

/// The writer's output is the grouped form, token for token.
#[verifier::spinoff_prover]
#[verifier::rlimit(100)]
proof fn lemma_grouped(t: CellRecordV)
    ensures
        ser_cell(t) == seq![40u8] + grouped_fields(t),
{
    assert(ser_cell(t) =~= seq![40u8] + grouped_fields(t));
}

/// Reading back the written fields from `collider` on.
#[verifier::spinoff_prover]
#[verifier::rlimit(100)]
proof fn lemma_rt_fields_mid(s: Seq<u8>, c2: int, t: CellRecordV)
    requires
        t.wf(),
        0 <= c2,
        c2 + (field_text_collider(t.collider) + (ser_offset_block(t.collider_offset) + (seq![
            44u8,
        ] + (field_text_body(t.body) + (seq![44u8] + (field_text_scale(t.scale) + (seq![44u8] + (
        field_text_components(t.components) + (ser_layer_block(t.layer)
            + seq![41u8]))))))))).len() == s.len(),
        s.subrange(c2, s.len() as int) == field_text_collider(t.collider) + (ser_offset_block(
            t.collider_offset,
        ) + (seq![44u8] + (field_text_body(t.body) + (seq![44u8] + (field_text_scale(t.scale) + (
        seq![44u8] + (field_text_components(t.components) + (ser_layer_block(t.layer) + seq![
            41u8,
        ])))))))),
    ensures
        spec_fields(
            s,
            c2,
            PartialCellV { scene: Some(t.scene), ..empty_partial() },
        ) == Some((t, s.len() as int)),
{
    let n = s.len() as int;
    let f2 = field_text_collider(t.collider);
    let f4 = field_text_body(t.body);
    let f5 = field_text_scale(t.scale);
    let f6 = field_text_components(t.components);
    let offblk = ser_offset_block(t.collider_offset);
    let layblk = ser_layer_block(t.layer);
    let t12: Seq<u8> = seq![41u8];
    let t11 = layblk + t12;
    let t10 = f6 + t11;
    let t9 = seq![44u8] + t10;
    let t8 = f5 + t9;
    let t7 = seq![44u8] + t8;
    let t6 = f4 + t7;
    let t5 = seq![44u8] + t6;
    let t4 = offblk + t5;
    let t3 = f2 + t4;
    assert(s.subrange(c2, n) == t3);
    let part1 = PartialCellV { scene: Some(t.scene), ..empty_partial() };

    lemma_split(s, c2, f2, t4);
    let v2 = c2 + f2.len();
    lemma_rt_field_collider(s, c2, part1, t.collider);
    let part2 = PartialCellV { collider: Some(t.collider), ..part1 };

    let part3 = PartialCellV { collider_offset: t.collider_offset, ..part2 };
    let c4: int = if t.collider_offset is Some {
        v2 + 1 + field_text_collider_offset(t.collider_offset.unwrap()).len() + 1
    } else {
        v2 + 1
    };
    if let Some(ov) = t.collider_offset {
        let f3 = field_text_collider_offset(ov);
        assert(offblk == seq![44u8] + f3);
        assert(t4 =~= seq![44u8] + (f3 + t5)) by {
            lemma_shift(seq![44u8], f3, t5);
        }
        lemma_split(s, v2, seq![44u8], f3 + t5);
        lemma_byte_at(s, v2, seq![44u8], 0);
        let c3 = v2 + 1;
        lemma_fields_step(s, c2, part1, part2, v2);
        lemma_split(s, c3, f3, t5);
        let v3 = c3 + f3.len();
        lemma_split(s, v3, seq![44u8], t6);
        lemma_byte_at(s, v3, seq![44u8], 0);
        lemma_rt_field_collider_offset(s, c3, part2, ov);
        lemma_fields_step(s, c3, part2, part3, v3);
        assert(c4 == v3 + 1);
        assert(s.subrange(c4, n) == t6);
    } else {
        assert(offblk =~= Seq::<u8>::empty());
        assert(t4 =~= t5);
        lemma_split(s, v2, seq![44u8], t6);
        lemma_byte_at(s, v2, seq![44u8], 0);
        assert(part3 == part2);
        lemma_fields_step(s, c2, part1, part2, v2);
        assert(s.subrange(c4, n) == t6);
    }

    lemma_rt_fields_back(s, c4, part3, t);
}

/// Reading back the written fields, from `scene` on.
#[verifier::spinoff_prover]
#[verifier::rlimit(100)]
proof fn lemma_rt_fields_front(s: Seq<u8>, c1: int, t: CellRecordV)
    requires
        t.wf(),
        0 <= c1,
        c1 + grouped_fields(t).len() == s.len(),
        s.subrange(c1, s.len() as int) == grouped_fields(t),
    ensures
        spec_fields(s, c1, empty_partial()) == Some((t, s.len() as int)),
{
    let n = s.len() as int;
    let f1 = field_text_scene(t.scene);
    let f2 = field_text_collider(t.collider);
    let f4 = field_text_body(t.body);
    let f5 = field_text_scale(t.scale);
    let f6 = field_text_components(t.components);
    let offblk = ser_offset_block(t.collider_offset);
    let layblk = ser_layer_block(t.layer);
    let t12: Seq<u8> = seq![41u8];
    let t11 = layblk + t12;
    let t10 = f6 + t11;
    let t9 = seq![44u8] + t10;
    let t8 = f5 + t9;
    let t7 = seq![44u8] + t8;
    let t6 = f4 + t7;
    let t5 = seq![44u8] + t6;
    let t4 = offblk + t5;
    let t3 = f2 + t4;
    let t2 = seq![44u8] + t3;
    let t1 = f1 + t2;
    assert(s.subrange(c1, n) == t1);

    // scene
    lemma_split(s, c1, f1, t2);
    let v1 = c1 + f1.len();
    lemma_split(s, v1, seq![44u8], t3);
    lemma_byte_at(s, v1, seq![44u8], 0);
    let part0 = empty_partial();
    lemma_rt_field_scene(s, c1, part0, t.scene);
    let part1 = PartialCellV { scene: Some(t.scene), ..part0 };
    let c2 = v1 + 1;
    lemma_fields_step(s, c1, part0, part1, v1);
    assert(s.subrange(c2, n) == t3);
    lemma_rt_fields_mid(s, c2, t);
}

/// Reading back a whole written cell record yields the record itself: the
/// serializer half of the decode, re-serialize, decode law.
#[verifier::spinoff_prover]
#[verifier::rlimit(100)]
pub proof fn lemma_cell_roundtrip(t: CellRecordV)
    requires
        t.wf(),
    ensures
        spec_cell_text(ser_cell(t)) == Some(t),
{
    let s = ser_cell(t);
    let n = s.len() as int;
    lemma_grouped(t);
    assert(s.subrange(0, n) =~= s);
    lemma_split(s, 0, seq![40u8], grouped_fields(t));
    lemma_byte_at(s, 0, seq![40u8], 0);
    assert(spec_eat(s, 0, 40) == Some(1int));
    lemma_rt_fields_front(s, 1, t);
    assert(skip_ws(s, n) == n);
}

/// For all valid cell texts: decode, re-serialize, decode again, and the two
/// decoded records agree field for field.  Everything a cell asset holds is
/// a function of this record, so the decoded assets agree as well.
pub proof fn lemma_decode_reserialize_decode(s: Seq<u8>, r: CellRecordV)
    requires
        spec_cell_text(s) == Some(r),
    ensures
        r.wf(),
        spec_cell_text(ser_cell(r)) == Some(r),
{
    crate::parse::lemma_cell_text_wf(s);
    lemma_cell_roundtrip(r);
}

} // verus!
