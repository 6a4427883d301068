//! The canonical writer for cell records: fixed field order, no whitespace,
//! scalars in canonical decimal form.  Reading a written record back yields
//! the record unchanged (proved in `codec`).

use vstd::prelude::*;

use crate::bytes::{dig_seq, dig_seq_pad, pow10};
use crate::dec::Dec;
use crate::parse::{
    kw_body, kw_collider, kw_collider_offset, kw_components, kw_cuboid, kw_dynamic, kw_indices,
    kw_kinematic, kw_layer, kw_mesh, kw_scale, kw_scene, kw_static, kw_vertices, kwv_body,
    kwv_collider, kwv_collider_offset, kwv_components, kwv_cuboid, kwv_dynamic, kwv_indices,
    kwv_kinematic, kwv_layer, kwv_mesh, kwv_scale, kwv_scene, kwv_static, kwv_vertices,
    pow10_u64,
};
use crate::record::{
    AttrEntry, AttrEntryV, BodyKind, CellRecord, CellRecordV, ShapeSpec, ShapeSpecV, Vec3,
};

verus! {

/// A scalar in canonical decimal text.
pub open spec fn ser_dec(d: Dec) -> Seq<u8> {
    let sign: Seq<u8> = if d.neg {
        seq![45u8]
    } else {
        Seq::empty()
    };
    if d.frac == 0 {
        sign + dig_seq(d.mantissa as nat)
    } else {
        sign + dig_seq((d.mantissa as nat) / pow10(d.frac as nat)) + seq![46u8] + dig_seq_pad(
            (d.mantissa as nat) % pow10(d.frac as nat),
            d.frac as nat,
        )
    }
}

/// A quoted string; the text must hold no quote.
pub open spec fn ser_text(t: Seq<u8>) -> Seq<u8> {
    seq![34u8] + t + seq![34u8]
}

pub open spec fn ser_vec3(v: Vec3) -> Seq<u8> {
    seq![40u8] + ser_dec(v.x) + seq![44u8] + ser_dec(v.y) + seq![44u8] + ser_dec(v.z) + seq![41u8]
}

/// The items of a vector list from index `i` on, including the closing `]`.
pub open spec fn ser_vec3_items(vs: Seq<Vec3>, i: int) -> Seq<u8>
    decreases vs.len() - i,
{
    if i < vs.len() - 1 {
        ser_vec3(vs[i]) + seq![44u8] + ser_vec3_items(vs, i + 1)
    } else if i == vs.len() - 1 {
        ser_vec3(vs[i]) + seq![93u8]
    } else {
        seq![93u8]
    }
}

pub open spec fn ser_vec3_list(vs: Seq<Vec3>) -> Seq<u8> {
    seq![91u8] + ser_vec3_items(vs, 0)
}

pub open spec fn ser_index_items(is: Seq<u16>, i: int) -> Seq<u8>
    decreases is.len() - i,
{
    if i < is.len() - 1 {
        dig_seq(is[i] as nat) + seq![44u8] + ser_index_items(is, i + 1)
    } else if i == is.len() - 1 {
        dig_seq(is[i] as nat) + seq![93u8]
    } else {
        seq![93u8]
    }
}

pub open spec fn ser_index_list(is: Seq<u16>) -> Seq<u8> {
    seq![91u8] + ser_index_items(is, 0)
}

pub open spec fn ser_entry(e: AttrEntryV) -> Seq<u8> {
    ser_text(e.name) + seq![58u8] + ser_text(e.payload)
}

pub open spec fn ser_entry_items(es: Seq<AttrEntryV>, i: int) -> Seq<u8>
    decreases es.len() - i,
{
    if i < es.len() - 1 {
        ser_entry(es[i]) + seq![44u8] + ser_entry_items(es, i + 1)
    } else if i == es.len() - 1 {
        ser_entry(es[i]) + seq![125u8]
    } else {
        seq![125u8]
    }
}

pub open spec fn ser_entry_list(es: Seq<AttrEntryV>) -> Seq<u8> {
    seq![123u8] + ser_entry_items(es, 0)
}

pub open spec fn ser_body(b: BodyKind) -> Seq<u8> {
    match b {
        BodyKind::Static => kw_static(),
        BodyKind::Dynamic => kw_dynamic(),
        BodyKind::Kinematic => kw_kinematic(),
    }
}

pub open spec fn ser_collider(c: ShapeSpecV) -> Seq<u8> {
    match c {
        ShapeSpecV::Cuboid(v) => kw_cuboid() + seq![40u8] + ser_vec3(v) + seq![41u8],
        ShapeSpecV::Mesh { vertices, indices } => kw_mesh() + seq![123u8] + kw_vertices() + seq![
            58u8,
        ] + ser_vec3_list(vertices) + seq![44u8] + kw_indices() + seq![58u8] + ser_index_list(
            indices,
        ) + seq![125u8],
    }
}

pub open spec fn ser_layer(l: (u32, u32)) -> Seq<u8> {
    seq![40u8] + dig_seq(l.0 as nat) + seq![44u8] + dig_seq(l.1 as nat) + seq![41u8]
}

/// The optional `collider_offset` field with its leading comma.
pub open spec fn ser_offset_block(o: Option<Vec3>) -> Seq<u8> {
    match o {
        Some(v) => seq![44u8] + (kw_collider_offset() + (seq![58u8] + ser_vec3(v))),
        None => Seq::empty(),
    }
}

/// The optional `layer` field with its leading comma.
pub open spec fn ser_layer_block(l: Option<(u32, u32)>) -> Seq<u8> {
    match l {
        Some(l) => seq![44u8] + (kw_layer() + (seq![58u8] + ser_layer(l))),
        None => Seq::empty(),
    }
}

/// A whole record: fields in a fixed order, the optional ones present only
/// when they hold a value.  The concatenation nests to the right, so proofs
/// can peel one token at a time.
pub open spec fn ser_cell(r: CellRecordV) -> Seq<u8> {
    seq![40u8] + (kw_scene() + (seq![58u8] + (ser_text(r.scene) + (seq![44u8] + (kw_collider() + (
    seq![58u8] + (ser_collider(r.collider) + (ser_offset_block(r.collider_offset) + (seq![44u8] + (
    kw_body() + (seq![58u8] + (ser_body(r.body) + (seq![44u8] + (kw_scale() + (seq![58u8] + (
    ser_dec(r.scale) + (seq![44u8] + (kw_components() + (seq![58u8] + (ser_entry_list(r.components)
        + (ser_layer_block(r.layer) + seq![41u8])))))))))))))))))))))
}

// ---------------------------------------------------------------------------
// Executable writers.
// ---------------------------------------------------------------------------

/// Append all bytes of `t`.
pub fn write_bytes(out: &mut Vec<u8>, t: &Vec<u8>)
    ensures
        final(out)@ == old(out)@ + t@,
{
    let mut i: usize = 0;
    while i < t.len()
        invariant
            0 <= i <= t.len(),
            out@ == old(out)@ + t@.subrange(0, i as int),
        decreases t.len() - i,
    {
        out.push(t[i]);
        proof {
            assert(old(out)@ + t@.subrange(0, (i + 1) as int) =~= (old(out)@ + t@.subrange(
                0,
                i as int,
            )).push(t@[i as int]));
        }
        i += 1;
    }
    proof {
        assert(t@.subrange(0, t@.len() as int) =~= t@);
    }
}

/// Append the canonical digit string of `n`.
pub fn write_uint(out: &mut Vec<u8>, n: u64)
    ensures
        final(out)@ == old(out)@ + dig_seq(n as nat),
    decreases n,
{
    if n < 10 {
        out.push(48 + (n as u8));
        proof {
            assert(old(out)@ + dig_seq(n as nat) =~= old(out)@.push((48 + n) as u8));
        }
    } else {
        write_uint(out, n / 10);
        out.push(48 + ((n % 10) as u8));
        proof {
            assert(old(out)@ + dig_seq(n as nat) =~= (old(out)@ + dig_seq((n / 10) as nat)).push(
                (48 + n % 10) as u8,
            ));
        }
    }
}

/// Append the digit string of `n`, zero-padded to `w` digits.
pub fn write_uint_pad(out: &mut Vec<u8>, n: u64, w: u32)
    ensures
        final(out)@ == old(out)@ + dig_seq_pad(n as nat, w as nat),
    decreases w,
{
    if w == 0 {
        proof {
            assert(old(out)@ + dig_seq_pad(n as nat, 0) =~= old(out)@);
        }
    } else {
        write_uint_pad(out, n / 10, w - 1);
        out.push(48 + ((n % 10) as u8));
        proof {
            assert(old(out)@ + dig_seq_pad(n as nat, w as nat) =~= (old(out)@ + dig_seq_pad(
                (n / 10) as nat,
                (w - 1) as nat,
            )).push((48 + n % 10) as u8));
        }
    }
}

/// Append a scalar in canonical decimal text.
pub fn write_dec(out: &mut Vec<u8>, d: Dec)
    requires
        d.frac <= 19,
    ensures
        final(out)@ == old(out)@ + ser_dec(d),
{
    if d.neg {
        out.push(45);
    }
    proof {
        if d.neg {
            assert(old(out)@.push(45u8) =~= old(out)@ + seq![45u8]);
        } else {
            assert(out@ =~= old(out)@ + Seq::<u8>::empty());
        }
    }
    let ghost sign: Seq<u8> = if d.neg {
        seq![45u8]
    } else {
        Seq::empty()
    };
    if d.frac == 0 {
        write_uint(out, d.mantissa);
        proof {
            assert(old(out)@ + ser_dec(d) =~= (old(out)@ + sign) + dig_seq(d.mantissa as nat));
        }
    } else {
        let p10 = pow10_u64(d.frac);
        proof {
            crate::bytes::lemma_pow10_pos(d.frac as nat);
        }
        write_uint(out, d.mantissa / p10);
        out.push(46);
        write_uint_pad(out, d.mantissa % p10, d.frac);
        proof {
            assert(old(out)@ + ser_dec(d) =~= (((old(out)@ + sign) + dig_seq(
                (d.mantissa as nat) / pow10(d.frac as nat),
            )).push(46u8)) + dig_seq_pad(
                (d.mantissa as nat) % pow10(d.frac as nat),
                d.frac as nat,
            ));
        }
    }
}

/// Append a quoted string.
pub fn write_text(out: &mut Vec<u8>, t: &Vec<u8>)
    ensures
        final(out)@ == old(out)@ + ser_text(t@),
{
    out.push(34);
    write_bytes(out, t);
    out.push(34);
    proof {
        assert(old(out)@ + ser_text(t@) =~= ((old(out)@.push(34u8)) + t@).push(34u8));
    }
}

pub fn write_vec3(out: &mut Vec<u8>, v: &Vec3)
    requires
        v.x.frac <= 19,
        v.y.frac <= 19,
        v.z.frac <= 19,
    ensures
        final(out)@ == old(out)@ + ser_vec3(*v),
{
    out.push(40);
    write_dec(out, v.x);
    out.push(44);
    write_dec(out, v.y);
    out.push(44);
    write_dec(out, v.z);
    out.push(41);
    proof {
        let w0 = old(out)@.push(40u8);
        let w1 = (w0 + ser_dec(v.x)).push(44u8);
        let w2 = (w1 + ser_dec(v.y)).push(44u8);
        let w3 = (w2 + ser_dec(v.z)).push(41u8);
        assert(old(out)@ + ser_vec3(*v) =~= w3);
    }
}

pub fn write_vec3_items(out: &mut Vec<u8>, vs: &Vec<Vec3>, i: usize)
    requires
        i <= vs.len(),
        forall|j: int| 0 <= j < vs@.len() ==> (#[trigger] vs@[j]).wf(),
    ensures
        final(out)@ == old(out)@ + ser_vec3_items(vs@, i as int),
    decreases vs.len() - i,
{
    if i < vs.len() {
        write_vec3(out, &vs[i]);
        if i == vs.len() - 1 {
            out.push(93);
            proof {
                assert(old(out)@ + ser_vec3_items(vs@, i as int) =~= (old(out)@ + ser_vec3(
                    vs@[i as int],
                )).push(93u8));
            }
        } else {
            out.push(44);
            write_vec3_items(out, vs, i + 1);
            proof {
                assert(old(out)@ + ser_vec3_items(vs@, i as int) =~= ((old(out)@ + ser_vec3(
                    vs@[i as int],
                )).push(44u8)) + ser_vec3_items(vs@, i + 1));
            }
        }
    } else {
        out.push(93);
        proof {
            assert(old(out)@ + ser_vec3_items(vs@, i as int) =~= old(out)@.push(93u8));
        }
    }
}

pub fn write_vec3_list(out: &mut Vec<u8>, vs: &Vec<Vec3>)
    requires
        forall|j: int| 0 <= j < vs@.len() ==> (#[trigger] vs@[j]).wf(),
    ensures
        final(out)@ == old(out)@ + ser_vec3_list(vs@),
{
    out.push(91);
    write_vec3_items(out, vs, 0);
    proof {
        assert(old(out)@ + ser_vec3_list(vs@) =~= old(out)@.push(91u8) + ser_vec3_items(vs@, 0));
    }
}

pub fn write_index_items(out: &mut Vec<u8>, is: &Vec<u16>, i: usize)
    requires
        i <= is.len(),
    ensures
        final(out)@ == old(out)@ + ser_index_items(is@, i as int),
    decreases is.len() - i,
{
    if i < is.len() {
        write_uint(out, is[i] as u64);
        if i == is.len() - 1 {
            out.push(93);
            proof {
                assert(old(out)@ + ser_index_items(is@, i as int) =~= (old(out)@ + dig_seq(
                    is@[i as int] as nat,
                )).push(93u8));
            }
        } else {
            out.push(44);
            write_index_items(out, is, i + 1);
            proof {
                assert(old(out)@ + ser_index_items(is@, i as int) =~= ((old(out)@ + dig_seq(
                    is@[i as int] as nat,
                )).push(44u8)) + ser_index_items(is@, i + 1));
            }
        }
    } else {
        out.push(93);
        proof {
            assert(old(out)@ + ser_index_items(is@, i as int) =~= old(out)@.push(93u8));
        }
    }
}

pub fn write_index_list(out: &mut Vec<u8>, is: &Vec<u16>)
    ensures
        final(out)@ == old(out)@ + ser_index_list(is@),
{
    out.push(91);
    write_index_items(out, is, 0);
    proof {
        assert(old(out)@ + ser_index_list(is@) =~= old(out)@.push(91u8) + ser_index_items(
            is@,
            0,
        ));
    }
}

pub fn write_entry_items(out: &mut Vec<u8>, es: &Vec<AttrEntry>, i: usize)
    requires
        i <= es.len(),
    ensures
        final(out)@ == old(out)@ + ser_entry_items(es@.map_values(|e: AttrEntry| e@), i as int),
    decreases es.len() - i,
{
    let ghost esv = es@.map_values(|e: AttrEntry| e@);
    if i < es.len() {
        let entry = &es[i];
        write_text(out, &entry.name);
        out.push(58);
        write_text(out, &entry.payload);
        proof {
            assert(esv[i as int] == es@[i as int]@);
            assert(out@ =~= old(out)@ + ser_entry(esv[i as int]));
        }
        if i == es.len() - 1 {
            out.push(125);
            proof {
                assert(old(out)@ + ser_entry_items(esv, i as int) =~= (old(out)@ + ser_entry(
                    esv[i as int],
                )).push(125u8));
            }
        } else {
            out.push(44);
            write_entry_items(out, es, i + 1);
            proof {
                assert(old(out)@ + ser_entry_items(esv, i as int) =~= ((old(out)@ + ser_entry(
                    esv[i as int],
                )).push(44u8)) + ser_entry_items(esv, i + 1));
            }
        }
    } else {
        out.push(125);
        proof {
            assert(old(out)@ + ser_entry_items(esv, i as int) =~= old(out)@.push(125u8));
        }
    }
}

pub fn write_entry_list(out: &mut Vec<u8>, es: &Vec<AttrEntry>)
    ensures
        final(out)@ == old(out)@ + ser_entry_list(es@.map_values(|e: AttrEntry| e@)),
{
    out.push(123);
    write_entry_items(out, es, 0);
    proof {
        assert(old(out)@ + ser_entry_list(es@.map_values(|e: AttrEntry| e@)) =~= old(out)@.push(
            123u8,
        ) + ser_entry_items(es@.map_values(|e: AttrEntry| e@), 0));
    }
}

pub fn write_body(out: &mut Vec<u8>, b: BodyKind)
    ensures
        final(out)@ == old(out)@ + ser_body(b),
{
    let word = match b {
        BodyKind::Static => kwv_static(),
        BodyKind::Dynamic => kwv_dynamic(),
        BodyKind::Kinematic => kwv_kinematic(),
    };
    write_bytes(out, &word);
}

pub fn write_collider(out: &mut Vec<u8>, c: &ShapeSpec)
    requires
        c@.wf(),
    ensures
        final(out)@ == old(out)@ + ser_collider(c@),
{
    match c {
        ShapeSpec::Cuboid(v) => {
            let word = kwv_cuboid();
            write_bytes(out, &word);
            out.push(40);
            write_vec3(out, v);
            out.push(41);
            proof {
                assert(old(out)@ + ser_collider(c@) =~= (((old(out)@ + kw_cuboid()).push(40u8))
                    + ser_vec3(*v)).push(41u8));
            }
        },
        ShapeSpec::Mesh { vertices, indices } => {
            proof {
                assert(c@ matches ShapeSpecV::Mesh { vertices: vv, indices: ii } && vv
                    == vertices@);
                assert(forall|j: int|
                    0 <= j < vertices@.len() ==> (#[trigger] vertices@[j]).wf());
            }
            let word = kwv_mesh();
            write_bytes(out, &word);
            out.push(123);
            let word2 = kwv_vertices();
            write_bytes(out, &word2);
            out.push(58);
            write_vec3_list(out, vertices);
            out.push(44);
            let word3 = kwv_indices();
            write_bytes(out, &word3);
            out.push(58);
            write_index_list(out, indices);
            out.push(125);
            proof {
                let w0 = (old(out)@ + kw_mesh()).push(123u8);
                let w1 = (w0 + kw_vertices()).push(58u8);
                let w2 = (w1 + ser_vec3_list(vertices@)).push(44u8);
                let w3 = (w2 + kw_indices()).push(58u8);
                let w4 = (w3 + ser_index_list(indices@)).push(125u8);
                assert(old(out)@ + ser_collider(c@) =~= w4);
            }
        },
    }
}

pub fn write_layer(out: &mut Vec<u8>, l: (u32, u32))
    ensures
        final(out)@ == old(out)@ + ser_layer(l),
{
    out.push(40);
    write_uint(out, l.0 as u64);
    out.push(44);
    write_uint(out, l.1 as u64);
    out.push(41);
    proof {
        let w0 = old(out)@.push(40u8);
        let w1 = (w0 + dig_seq(l.0 as nat)).push(44u8);
        let w2 = (w1 + dig_seq(l.1 as nat)).push(41u8);
        assert(old(out)@ + ser_layer(l) =~= w2);
    }
}

/// `(a + b) + c` regrouped to the right.
proof fn lemma_concat_shift(a: Seq<u8>, b: Seq<u8>, c: Seq<u8>)
    ensures
        (a + b) + c =~= a + (b + c),
{
}

/// Write a whole record in canonical form.
#[verifier::spinoff_prover]
#[verifier::rlimit(100)]
pub fn serialize_cell(r: &CellRecord) -> (out: Vec<u8>)
    requires
        r@.wf(),
    ensures
        out@ == ser_cell(r@),
{
    let ghost v = r@;
    let ghost p1 = seq![40u8];
    let ghost p2 = kw_scene();
    let ghost p3 = seq![58u8];
    let ghost p4 = ser_text(v.scene);
    let ghost p5 = seq![44u8];
    let ghost p6 = kw_collider();
    let ghost p7 = seq![58u8];
    let ghost p8 = ser_collider(v.collider);
    let ghost p9 = ser_offset_block(v.collider_offset);
    let ghost p10 = seq![44u8];
    let ghost p11 = kw_body();
    let ghost p12 = seq![58u8];
    let ghost p13 = ser_body(v.body);
    let ghost p14 = seq![44u8];
    let ghost p15 = kw_scale();
    let ghost p16 = seq![58u8];
    let ghost p17 = ser_dec(v.scale);
    let ghost p18 = seq![44u8];
    let ghost p19 = kw_components();
    let ghost p20 = seq![58u8];
    let ghost p21 = ser_entry_list(v.components);
    let ghost p22 = ser_layer_block(v.layer);
    let ghost p23 = seq![41u8];
    let ghost l1 = p1;
    let ghost l2 = l1 + p2;
    let ghost l3 = l2 + p3;
    let ghost l4 = l3 + p4;
    let ghost l5 = l4 + p5;
    let ghost l6 = l5 + p6;
    let ghost l7 = l6 + p7;
    let ghost l8 = l7 + p8;
    let ghost l9 = l8 + p9;
    let ghost l10 = l9 + p10;
    let ghost l11 = l10 + p11;
    let ghost l12 = l11 + p12;
    let ghost l13 = l12 + p13;
    let ghost l14 = l13 + p14;
    let ghost l15 = l14 + p15;
    let ghost l16 = l15 + p16;
    let ghost l17 = l16 + p17;
    let ghost l18 = l17 + p18;
    let ghost l19 = l18 + p19;
    let ghost l20 = l19 + p20;
    let ghost l21 = l20 + p21;
    let ghost l22 = l21 + p22;
    let ghost l23 = l22 + p23;
    let mut out: Vec<u8> = Vec::new();
    out.push(40);
    proof {
        assert(out@ =~= l1);
    }
    let word = kwv_scene();
    write_bytes(&mut out, &word);
    proof {
        assert(out@ =~= l2);
    }
    out.push(58);
    proof {
        assert(out@ =~= l3);
    }
    write_text(&mut out, &r.scene);
    proof {
        assert(out@ =~= l4);
    }
    out.push(44);
    proof {
        assert(out@ =~= l5);
    }
    let word2 = kwv_collider();
    write_bytes(&mut out, &word2);
    proof {
        assert(out@ =~= l6);
    }
    out.push(58);
    proof {
        assert(out@ =~= l7);
    }
    write_collider(&mut out, &r.collider);
    proof {
        assert(out@ =~= l8);
    }
    match &r.collider_offset {
        Some(ov) => {
            out.push(44);
            let word3 = kwv_collider_offset();
            write_bytes(&mut out, &word3);
            out.push(58);
            write_vec3(&mut out, ov);
            proof {
                assert(out@ =~= ((l8.push(44u8) + kw_collider_offset()).push(58u8)) + ser_vec3(
                    *ov,
                ));
                assert(p9 =~= seq![44u8] + (kw_collider_offset() + (seq![58u8] + ser_vec3(*ov))));
                assert(out@ =~= l9);
            }
        },
        None => {
            proof {
                assert(p9 =~= Seq::<u8>::empty());
                assert(out@ =~= l9);
            }
        },
    }
    out.push(44);
    proof {
        assert(out@ =~= l10);
    }
    let word4 = kwv_body();
    write_bytes(&mut out, &word4);
    proof {
        assert(out@ =~= l11);
    }
    out.push(58);
    proof {
        assert(out@ =~= l12);
    }
    write_body(&mut out, r.body);
    proof {
        assert(out@ =~= l13);
    }
    out.push(44);
    proof {
        assert(out@ =~= l14);
    }
    let word5 = kwv_scale();
    write_bytes(&mut out, &word5);
    proof {
        assert(out@ =~= l15);
    }
    out.push(58);
    proof {
        assert(out@ =~= l16);
    }
    write_dec(&mut out, r.scale);
    proof {
        assert(out@ =~= l17);
    }
    out.push(44);
    proof {
        assert(out@ =~= l18);
    }
    let word6 = kwv_components();
    write_bytes(&mut out, &word6);
    proof {
        assert(out@ =~= l19);
    }
    out.push(58);
    proof {
        assert(out@ =~= l20);
    }
    write_entry_list(&mut out, &r.components);
    proof {
        assert(out@ =~= l21);
    }
    match &r.layer {
        Some(l) => {
            out.push(44);
            let word7 = kwv_layer();
            write_bytes(&mut out, &word7);
            out.push(58);
            write_layer(&mut out, *l);
            proof {
                assert(out@ =~= ((l21.push(44u8) + kw_layer()).push(58u8)) + ser_layer(*l));
                assert(p22 =~= seq![44u8] + (kw_layer() + (seq![58u8] + ser_layer(*l))));
                assert(out@ =~= l22);
            }
        },
        None => {
            proof {
                assert(p22 =~= Seq::<u8>::empty());
                assert(out@ =~= l22);
            }
        },
    }
    out.push(41);
    proof {
        assert(out@ =~= l23);
        let r23 = p23;
        let r22 = p22 + r23;
        let r21 = p21 + r22;
        let r20 = p20 + r21;
        let r19 = p19 + r20;
        let r18 = p18 + r19;
        let r17 = p17 + r18;
        let r16 = p16 + r17;
        let r15 = p15 + r16;
        let r14 = p14 + r15;
        let r13 = p13 + r14;
        let r12 = p12 + r13;
        let r11 = p11 + r12;
        let r10 = p10 + r11;
        let r9 = p9 + r10;
        let r8 = p8 + r9;
        let r7 = p7 + r8;
        let r6 = p6 + r7;
        let r5 = p5 + r6;
        let r4 = p4 + r5;
        let r3 = p3 + r4;
        let r2 = p2 + r3;
        assert(l23 =~= l22 + r23);
        lemma_concat_shift(l21, p22, r23);
        assert(l22 + r23 =~= l21 + r22);
        lemma_concat_shift(l20, p21, r22);
        assert(l21 + r22 =~= l20 + r21);
        lemma_concat_shift(l19, p20, r21);
        assert(l20 + r21 =~= l19 + r20);
        lemma_concat_shift(l18, p19, r20);
        assert(l19 + r20 =~= l18 + r19);
        lemma_concat_shift(l17, p18, r19);
        assert(l18 + r19 =~= l17 + r18);
        lemma_concat_shift(l16, p17, r18);
        assert(l17 + r18 =~= l16 + r17);
        lemma_concat_shift(l15, p16, r17);
        assert(l16 + r17 =~= l15 + r16);
        lemma_concat_shift(l14, p15, r16);
        assert(l15 + r16 =~= l14 + r15);
        lemma_concat_shift(l13, p14, r15);
        assert(l14 + r15 =~= l13 + r14);
        lemma_concat_shift(l12, p13, r14);
        assert(l13 + r14 =~= l12 + r13);
        lemma_concat_shift(l11, p12, r13);
        assert(l12 + r13 =~= l11 + r12);
        lemma_concat_shift(l10, p11, r12);
        assert(l11 + r12 =~= l10 + r11);
        lemma_concat_shift(l9, p10, r11);
        assert(l10 + r11 =~= l9 + r10);
        lemma_concat_shift(l8, p9, r10);
        assert(l9 + r10 =~= l8 + r9);
        lemma_concat_shift(l7, p8, r9);
        assert(l8 + r9 =~= l7 + r8);
        lemma_concat_shift(l6, p7, r8);
        assert(l7 + r8 =~= l6 + r7);
        lemma_concat_shift(l5, p6, r7);
        assert(l6 + r7 =~= l5 + r6);
        lemma_concat_shift(l4, p5, r6);
        assert(l5 + r6 =~= l4 + r5);
        lemma_concat_shift(l3, p4, r5);
        assert(l4 + r5 =~= l3 + r4);
        lemma_concat_shift(l2, p3, r4);
        assert(l3 + r4 =~= l2 + r3);
        assert(l2 + r3 =~= p1 + r2) by { lemma_concat_shift(l1, p2, r3); }
        assert(ser_cell(v) == p1 + r2);
        assert(out@ =~= ser_cell(v));
    }
    out
}

} // verus!
