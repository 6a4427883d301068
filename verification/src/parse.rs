//! The cell file grammar, lexeme by lexeme.
//!
//! A cell file is a parenthesized list of `name: value` fields in any order:
//! `scene` (a quoted path), `collider` (`Cuboid((x,y,z))` or
//! `Mesh{vertices:[...],indices:[...]}`), `collider_offset` (a vector),
//! `body` (`Static`, `Dynamic` or `Kinematic`), `scale` (a decimal literal),
//! `components` (`{"TypeName":"payload",...}`) and `layer` (a pair of
//! unsigned masks).  Whitespace may stand between any two tokens; strings
//! know no escapes; scalars are plain decimal literals of at most fifteen
//! digits on either side of the point.
//!
//! Every executable function mirrors a specification function exactly, so
//! the serializer's round-trip lemmas speak about the same parse the code
//! performs.

use vstd::prelude::*;

use crate::bytes::{
    digits_end, digits_end_from, digits_val, lemma_digits_end_bounds,
    lemma_digits_val_bound, lemma_pow10_19, lemma_pow10_le, lifted, pow10,
    read_uint, skip_ws, skip_ws_from, spec_read_uint, copy_range, ident_end, ident_end_from,
    vec_eq};
use crate::dec::{canonize, spec_canon, Dec, DEC_PARSE_MAX};
use crate::record::{
    text_ok, AttrEntry, AttrEntryV, BodyKind, CellRecord, CellRecordV, ShapeSpec, ShapeSpecV,
    Vec3};

verus! {

/// An executable resume position widened for contracts.
pub open spec fn lifted_pos(r: Option<usize>) -> Option<int> {
    match r {
        Some(p) => Some(p as int),
        None => None,
    }
}

/// Skip whitespace, then require the single byte `b`.
pub open spec fn spec_eat(s: Seq<u8>, pos: int, b: u8) -> Option<int> {
    let p = skip_ws(s, pos);
    if p < s.len() && s[p] == b {
        Some(p + 1)
    } else {
        None
    }
}

pub fn eat(s: &Vec<u8>, pos: usize, b: u8) -> (r: Option<usize>)
    requires
        pos <= s.len(),
    ensures
        lifted_pos(r) == spec_eat(s@, pos as int, b),
        r matches Some(p) ==> pos < p <= s.len(),
{
    let p = skip_ws_from(s, pos);
    if p < s.len() && s[p] == b {
        Some(p + 1)
    } else {
        None
    }
}

/// First position at or after `pos` that holds a double quote (or the end).
pub open spec fn quote_end(s: Seq<u8>, pos: int) -> int
    decreases s.len() - pos,
{
    if 0 <= pos < s.len() && s[pos] != 34 {
        quote_end(s, pos + 1)
    } else {
        pos
    }
}

pub fn quote_end_from(s: &Vec<u8>, pos: usize) -> (r: usize)
    requires
        pos <= s.len(),
    ensures
        r == quote_end(s@, pos as int),
        pos <= r <= s.len(),
    decreases s.len() - pos,
{
    if pos < s.len() && s[pos] != 34 {
        quote_end_from(s, pos + 1)
    } else {
        pos
    }
}

/// A quoted string without escapes: any bytes but `"` between two quotes.
pub open spec fn spec_text(s: Seq<u8>, pos: int) -> Option<(Seq<u8>, int)> {
    match spec_eat(s, pos, 34) {
        None => None,
        Some(p) => {
            let e = quote_end(s, p);
            if e < s.len() {
                Some((s.subrange(p, e), e + 1))
            } else {
                None
            }
        }}
}

pub fn parse_text(s: &Vec<u8>, pos: usize) -> (r: Option<(Vec<u8>, usize)>)
    requires
        pos <= s.len(),
    ensures
        r matches Some(t) ==> spec_text(s@, pos as int) == Some((t.0@, t.1 as int)),
        r is None ==> spec_text(s@, pos as int) is None,
        r matches Some(t) ==> pos < t.1 <= s.len(),
{
    match eat(s, pos, 34) {
        None => None,
        Some(p) => {
            let e = quote_end_from(s, p);
            if e < s.len() {
                Some((copy_range(s, p, e), e + 1))
            } else {
                None
            }
        }}
}

/// A decimal literal: optional minus, integer digits, optionally a point and
/// fraction digits; at most fifteen digits of mantissa.  The scalar comes
/// back canonicalized.
pub open spec fn spec_scalar(s: Seq<u8>, pos: int) -> Option<(Dec, int)> {
    let p = skip_ws(s, pos);
    let neg = p < s.len() && s[p] == 45;
    let p1 = if neg {
        p + 1
    } else {
        p
    };
    match spec_read_uint(s, p1, DEC_PARSE_MAX) {
        None => None,
        Some((ip, e1)) => {
            if e1 < s.len() && s[e1] == 46 {
                let fe = digits_end(s, e1 + 1);
                let f = fe - (e1 + 1);
                if f < 1 || f > 15 {
                    None
                } else {
                    let m = ip * pow10(f as nat) + digits_val(s, e1 + 1, fe);
                    if m > DEC_PARSE_MAX {
                        None
                    } else {
                        Some((spec_canon(neg, m as u64, f as u32), fe))
                    }
                }
            } else {
                Some((spec_canon(neg, ip, 0), e1))
            }
        }}
}

/// `10^e` as a machine word.
pub fn pow10_u64(e: u32) -> (r: u64)
    requires
        e <= 19,
    ensures
        r == pow10(e as nat),
{
    let mut r: u64 = 1;
    let mut i: u32 = 0;
    while i < e
        invariant
            i <= e <= 19,
            r == pow10(i as nat),
        decreases e - i,
    {
        proof {
            lemma_pow10_le((i + 1) as nat, 19);
            lemma_pow10_19();
            assert(pow10((i + 1) as nat) == 10 * pow10(i as nat));
        }
        r = r * 10;
        i = i + 1;
    }
    r
}

pub fn parse_scalar(s: &Vec<u8>, pos: usize) -> (r: Option<(Dec, usize)>)
    requires
        pos <= s.len(),
    ensures
        lifted(r) == spec_scalar(s@, pos as int),
        r matches Some(t) ==> pos < t.1 <= s.len(),
{
    let p = skip_ws_from(s, pos);
    let neg = p < s.len() && s[p] == 45;
    let p1 = if neg {
        p + 1
    } else {
        p
    };
    match read_uint(s, p1, DEC_PARSE_MAX) {
        None => None,
        Some((ip, e1)) => {
            proof {
                lemma_digits_end_bounds(s@, p1 as int);
            }
            if e1 < s.len() && s[e1] == 46 {
                let fe = digits_end_from(s, e1 + 1);
                let f = fe - (e1 + 1);
                if f < 1 || f > 15 {
                    None
                } else {
                    let fp_opt = read_uint(s, e1 + 1, u64::MAX);
                    proof {
                        lemma_digits_val_bound(s@, e1 + 1, fe as int);
                        lemma_pow10_le((fe - (e1 + 1)) as nat, 19);
                        lemma_pow10_19();
                    }
                    let fp = fp_opt.unwrap().0;
                    let p10 = pow10_u64(f as u32);
                    proof {
                        lemma_mul_bound_u128(ip as int, p10 as int);
                    }
                    let wide: u128 = (ip as u128) * (p10 as u128) + (fp as u128);
                    if wide > DEC_PARSE_MAX as u128 {
                        None
                    } else {
                        Some((canonize(neg, wide as u64, f as u32), fe))
                    }
                }
            } else {
                Some((canonize(neg, ip, 0), e1))
            }
        }}
}

/// Bounded products of parse-sized operands stay far inside `u128`.
proof fn lemma_mul_bound_u128(a: int, b: int)
    by (nonlinear_arith)
    requires
        0 <= a < 0x10000000000000000,
        0 <= b < 0x10000000000000000,
    ensures
        0 <= a * b <= 0xFFFFFFFFFFFFFFFE0000000000000001,
{
}

/// The keywords of the format, as byte strings.
pub open spec fn kw_scene() -> Seq<u8> {
    seq![115u8, 99, 101, 110, 101]
}

pub open spec fn kw_collider() -> Seq<u8> {
    seq![99u8, 111, 108, 108, 105, 100, 101, 114]
}

pub open spec fn kw_collider_offset() -> Seq<u8> {
    seq![99u8, 111, 108, 108, 105, 100, 101, 114, 95, 111, 102, 102, 115, 101, 116]
}

pub open spec fn kw_body() -> Seq<u8> {
    seq![98u8, 111, 100, 121]
}

pub open spec fn kw_scale() -> Seq<u8> {
    seq![115u8, 99, 97, 108, 101]
}

pub open spec fn kw_components() -> Seq<u8> {
    seq![99u8, 111, 109, 112, 111, 110, 101, 110, 116, 115]
}

pub open spec fn kw_layer() -> Seq<u8> {
    seq![108u8, 97, 121, 101, 114]
}

pub open spec fn kw_cuboid() -> Seq<u8> {
    seq![67u8, 117, 98, 111, 105, 100]
}

pub open spec fn kw_mesh() -> Seq<u8> {
    seq![77u8, 101, 115, 104]
}

pub open spec fn kw_vertices() -> Seq<u8> {
    seq![118u8, 101, 114, 116, 105, 99, 101, 115]
}

pub open spec fn kw_indices() -> Seq<u8> {
    seq![105u8, 110, 100, 105, 99, 101, 115]
}

pub open spec fn kw_static() -> Seq<u8> {
    seq![83u8, 116, 97, 116, 105, 99]
}

pub open spec fn kw_dynamic() -> Seq<u8> {
    seq![68u8, 121, 110, 97, 109, 105, 99]
}

pub open spec fn kw_kinematic() -> Seq<u8> {
    seq![75u8, 105, 110, 101, 109, 97, 116, 105, 99]
}

pub fn kwv_scene() -> (r: Vec<u8>)
    ensures
        r@ == kw_scene(),
{
    let mut v: Vec<u8> = Vec::new();
    v.push(115);
    v.push(99);
    v.push(101);
    v.push(110);
    v.push(101);
    proof {
        assert(v@ =~= kw_scene());
    }
    v
}

pub fn kwv_collider() -> (r: Vec<u8>)
    ensures
        r@ == kw_collider(),
{
    let mut v: Vec<u8> = Vec::new();
    v.push(99);
    v.push(111);
    v.push(108);
    v.push(108);
    v.push(105);
    v.push(100);
    v.push(101);
    v.push(114);
    proof {
        assert(v@ =~= kw_collider());
    }
    v
}

pub fn kwv_collider_offset() -> (r: Vec<u8>)
    ensures
        r@ == kw_collider_offset(),
{
    let mut v: Vec<u8> = Vec::new();
    v.push(99);
    v.push(111);
    v.push(108);
    v.push(108);
    v.push(105);
    v.push(100);
    v.push(101);
    v.push(114);
    v.push(95);
    v.push(111);
    v.push(102);
    v.push(102);
    v.push(115);
    v.push(101);
    v.push(116);
    proof {
        assert(v@ =~= kw_collider_offset());
    }
    v
}

pub fn kwv_body() -> (r: Vec<u8>)
    ensures
        r@ == kw_body(),
{
    let mut v: Vec<u8> = Vec::new();
    v.push(98);
    v.push(111);
    v.push(100);
    v.push(121);
    proof {
        assert(v@ =~= kw_body());
    }
    v
}

pub fn kwv_scale() -> (r: Vec<u8>)
    ensures
        r@ == kw_scale(),
{
    let mut v: Vec<u8> = Vec::new();
    v.push(115);
    v.push(99);
    v.push(97);
    v.push(108);
    v.push(101);
    proof {
        assert(v@ =~= kw_scale());
    }
    v
}

pub fn kwv_components() -> (r: Vec<u8>)
    ensures
        r@ == kw_components(),
{
    let mut v: Vec<u8> = Vec::new();
    v.push(99);
    v.push(111);
    v.push(109);
    v.push(112);
    v.push(111);
    v.push(110);
    v.push(101);
    v.push(110);
    v.push(116);
    v.push(115);
    proof {
        assert(v@ =~= kw_components());
    }
    v
}

pub fn kwv_layer() -> (r: Vec<u8>)
    ensures
        r@ == kw_layer(),
{
    let mut v: Vec<u8> = Vec::new();
    v.push(108);
    v.push(97);
    v.push(121);
    v.push(101);
    v.push(114);
    proof {
        assert(v@ =~= kw_layer());
    }
    v
}

pub fn kwv_cuboid() -> (r: Vec<u8>)
    ensures
        r@ == kw_cuboid(),
{
    let mut v: Vec<u8> = Vec::new();
    v.push(67);
    v.push(117);
    v.push(98);
    v.push(111);
    v.push(105);
    v.push(100);
    proof {
        assert(v@ =~= kw_cuboid());
    }
    v
}

pub fn kwv_mesh() -> (r: Vec<u8>)
    ensures
        r@ == kw_mesh(),
{
    let mut v: Vec<u8> = Vec::new();
    v.push(77);
    v.push(101);
    v.push(115);
    v.push(104);
    proof {
        assert(v@ =~= kw_mesh());
    }
    v
}

pub fn kwv_vertices() -> (r: Vec<u8>)
    ensures
        r@ == kw_vertices(),
{
    let mut v: Vec<u8> = Vec::new();
    v.push(118);
    v.push(101);
    v.push(114);
    v.push(116);
    v.push(105);
    v.push(99);
    v.push(101);
    v.push(115);
    proof {
        assert(v@ =~= kw_vertices());
    }
    v
}

pub fn kwv_indices() -> (r: Vec<u8>)
    ensures
        r@ == kw_indices(),
{
    let mut v: Vec<u8> = Vec::new();
    v.push(105);
    v.push(110);
    v.push(100);
    v.push(105);
    v.push(99);
    v.push(101);
    v.push(115);
    proof {
        assert(v@ =~= kw_indices());
    }
    v
}

pub fn kwv_static() -> (r: Vec<u8>)
    ensures
        r@ == kw_static(),
{
    let mut v: Vec<u8> = Vec::new();
    v.push(83);
    v.push(116);
    v.push(97);
    v.push(116);
    v.push(105);
    v.push(99);
    proof {
        assert(v@ =~= kw_static());
    }
    v
}

pub fn kwv_dynamic() -> (r: Vec<u8>)
    ensures
        r@ == kw_dynamic(),
{
    let mut v: Vec<u8> = Vec::new();
    v.push(68);
    v.push(121);
    v.push(110);
    v.push(97);
    v.push(109);
    v.push(105);
    v.push(99);
    proof {
        assert(v@ =~= kw_dynamic());
    }
    v
}

pub fn kwv_kinematic() -> (r: Vec<u8>)
    ensures
        r@ == kw_kinematic(),
{
    let mut v: Vec<u8> = Vec::new();
    v.push(75);
    v.push(105);
    v.push(110);
    v.push(101);
    v.push(109);
    v.push(97);
    v.push(116);
    v.push(105);
    v.push(99);
    proof {
        assert(v@ =~= kw_kinematic());
    }
    v
}

/// An unsigned integer lexeme after optional whitespace, at most `max`.
pub open spec fn spec_uint_ws(s: Seq<u8>, pos: int, max: u64) -> Option<(u64, int)> {
    spec_read_uint(s, skip_ws(s, pos), max)
}

pub fn parse_uint_ws(s: &Vec<u8>, pos: usize, max: u64) -> (r: Option<(u64, usize)>)
    requires
        pos <= s.len(),
    ensures
        lifted(r) == spec_uint_ws(s@, pos as int, max),
        r matches Some(t) ==> pos < t.1 <= s.len(),
{
    let p = skip_ws_from(s, pos);
    let r = read_uint(s, p, max);
    proof {
        if r is Some {
            lemma_digits_end_bounds(s@, p as int);
            assert(digits_end(s@, p as int) > p);
        }
    }
    r
}

// ---------------------------------------------------------------------------
// Composite productions, specification side.
// ---------------------------------------------------------------------------

/// The close of a tuple: an optional trailing comma, then `)`.
pub open spec fn spec_close_paren(s: Seq<u8>, pos: int) -> Option<int> {
    match spec_eat(s, pos, 44) {
        Some(p) => spec_eat(s, p, 41),
        None => spec_eat(s, pos, 41),
    }
}

/// The close of a brace group: an optional trailing comma, then `}`.
pub open spec fn spec_close_brace(s: Seq<u8>, pos: int) -> Option<int> {
    match spec_eat(s, pos, 44) {
        Some(p) => spec_eat(s, p, 125),
        None => spec_eat(s, pos, 125),
    }
}

/// A vector: `(x, y, z)` of three scalars.
pub open spec fn spec_vec3(s: Seq<u8>, pos: int) -> Option<(Vec3, int)> {
    match spec_eat(s, pos, 40) {
        None => None,
        Some(p0) => match spec_scalar(s, p0) {
            None => None,
            Some((x, p1)) => match spec_eat(s, p1, 44) {
                None => None,
                Some(p2) => match spec_scalar(s, p2) {
                    None => None,
                    Some((y, p3)) => match spec_eat(s, p3, 44) {
                        None => None,
                        Some(p4) => match spec_scalar(s, p4) {
                            None => None,
                            Some((z, p5)) => match spec_close_paren(s, p5) {
                                None => None,
                                Some(p6) => Some((Vec3 { x, y, z }, p6)),
                            }
                        }
                    }
                }
            }
        }
    }
}

/// One or more vectors separated by commas, closed by `]`; a trailing comma
/// may stand before the bracket.
pub open spec fn spec_vec3_items(s: Seq<u8>, pos: int) -> Option<(Seq<Vec3>, int)>
    decreases s.len() - pos,
{
    match spec_vec3(s, pos) {
        None => None,
        Some((v, p1)) => {
            let q = skip_ws(s, p1);
            if q < s.len() && s[q] == 44 {
                let q2 = skip_ws(s, q + 1);
                if q2 < s.len() && s[q2] == 93 {
                    Some((seq![v], q2 + 1))
                } else if pos < q + 1 && q + 1 <= s.len() {
                    match spec_vec3_items(s, q + 1) {
                        None => None,
                        Some((rest, p2)) => Some((seq![v] + rest, p2)),
                    }
                } else {
                    None
                }
            } else if q < s.len() && s[q] == 93 {
                Some((seq![v], q + 1))
            } else {
                None
            }
        }}
}

/// `[...]` of vectors; may be empty.
pub open spec fn spec_vec3_list(s: Seq<u8>, pos: int) -> Option<(Seq<Vec3>, int)> {
    match spec_eat(s, pos, 91) {
        None => None,
        Some(p) => {
            let q = skip_ws(s, p);
            if q < s.len() && s[q] == 93 {
                Some((Seq::empty(), q + 1))
            } else {
                spec_vec3_items(s, p)
            }
        }}
}

/// One or more triangle indices separated by commas, closed by `]`.
pub open spec fn spec_index_items(s: Seq<u8>, pos: int) -> Option<(Seq<u16>, int)>
    decreases s.len() - pos,
{
    match spec_uint_ws(s, pos, 65535) {
        None => None,
        Some((v, p1)) => {
            let q = skip_ws(s, p1);
            if q < s.len() && s[q] == 44 {
                let q2 = skip_ws(s, q + 1);
                if q2 < s.len() && s[q2] == 93 {
                    Some((seq![v as u16], q2 + 1))
                } else if pos < q + 1 && q + 1 <= s.len() {
                    match spec_index_items(s, q + 1) {
                        None => None,
                        Some((rest, p2)) => Some((seq![v as u16] + rest, p2)),
                    }
                } else {
                    None
                }
            } else if q < s.len() && s[q] == 93 {
                Some((seq![v as u16], q + 1))
            } else {
                None
            }
        }}
}

/// `[...]` of indices; may be empty.
pub open spec fn spec_index_list(s: Seq<u8>, pos: int) -> Option<(Seq<u16>, int)> {
    match spec_eat(s, pos, 91) {
        None => None,
        Some(p) => {
            let q = skip_ws(s, p);
            if q < s.len() && s[q] == 93 {
                Some((Seq::empty(), q + 1))
            } else {
                spec_index_items(s, p)
            }
        }}
}

/// One or more `"name": "payload"` entries separated by commas, closed by
/// `}`.
pub open spec fn spec_entry_items(s: Seq<u8>, pos: int) -> Option<(Seq<AttrEntryV>, int)>
    decreases s.len() - pos,
{
    match spec_text(s, pos) {
        None => None,
        Some((name, pn)) => match spec_eat(s, pn, 58) {
            None => None,
            Some(pc) => match spec_text(s, pc) {
                None => None,
                Some((payload, p1)) => {
                    let entry = AttrEntryV { name, payload };
                    let q = skip_ws(s, p1);
                    if q < s.len() && s[q] == 44 {
                        let q2 = skip_ws(s, q + 1);
                        if q2 < s.len() && s[q2] == 125 {
                            Some((seq![entry], q2 + 1))
                        } else if pos < q + 1 && q + 1 <= s.len() {
                            match spec_entry_items(s, q + 1) {
                                None => None,
                                Some((rest, p2)) => Some((seq![entry] + rest, p2)),
                            }
                        } else {
                            None
                        }
                    } else if q < s.len() && s[q] == 125 {
                        Some((seq![entry], q + 1))
                    } else {
                        None
                    }
                }}}}
}

/// `{...}` of attribute entries; may be empty.
pub open spec fn spec_entry_list(s: Seq<u8>, pos: int) -> Option<(Seq<AttrEntryV>, int)> {
    match spec_eat(s, pos, 123) {
        None => None,
        Some(p) => {
            let q = skip_ws(s, p);
            if q < s.len() && s[q] == 125 {
                Some((Seq::empty(), q + 1))
            } else {
                spec_entry_items(s, p)
            }
        }}
}

/// The identifier starting after optional whitespace, with its end.
pub open spec fn spec_ident(s: Seq<u8>, pos: int) -> (Seq<u8>, int) {
    let p = skip_ws(s, pos);
    let e = ident_end(s, p);
    (s.subrange(p, e), e)
}

/// A body kind: one of the three variant names.
pub open spec fn spec_body(s: Seq<u8>, pos: int) -> Option<(BodyKind, int)> {
    let (w, e) = spec_ident(s, pos);
    if w == kw_static() {
        Some((BodyKind::Static, e))
    } else if w == kw_dynamic() {
        Some((BodyKind::Dynamic, e))
    } else if w == kw_kinematic() {
        Some((BodyKind::Kinematic, e))
    } else {
        None
    }
}

/// A collision-shape spec: `Cuboid((x,y,z))` or
/// `Mesh{vertices:[...],indices:[...]}`.
pub open spec fn spec_collider(s: Seq<u8>, pos: int) -> Option<(ShapeSpecV, int)> {
    let (w, e) = spec_ident(s, pos);
    if w == kw_cuboid() {
        match spec_eat(s, e, 40) {
            None => None,
            Some(p0) => match spec_vec3(s, p0) {
                None => None,
                Some((v, p1)) => match spec_close_paren(s, p1) {
                    None => None,
                    Some(p2) => Some((ShapeSpecV::Cuboid(v), p2)),
                }
            }
        }
    } else if w == kw_mesh() {
        match spec_eat(s, e, 123) {
            None => None,
            Some(p0) => {
                let (w1, e1) = spec_ident(s, p0);
                if w1 != kw_vertices() {
                    None
                } else {
                    match spec_eat(s, e1, 58) {
                        None => None,
                        Some(p1) => match spec_vec3_list(s, p1) {
                            None => None,
                            Some((vs, p2)) => match spec_eat(s, p2, 44) {
                                None => None,
                                Some(p3) => {
                                    let (w2, e2) = spec_ident(s, p3);
                                    if w2 != kw_indices() {
                                        None
                                    } else {
                                        match spec_eat(s, e2, 58) {
                                            None => None,
                                            Some(p4) => match spec_index_list(s, p4) {
                                                None => None,
                                                Some((is, p5)) => match spec_close_brace(s, p5) {
                                                    None => None,
                                                    Some(p6) => Some(
                                                        (
                                                            ShapeSpecV::Mesh {
                                                                vertices: vs,
                                                                indices: is,
                                                            },
                                                            p6,
                                                        ),
                                                    ),
                                                }
                                            }
                                        }
                                    }
                                }}}}
                }
            }}
    } else {
        None
    }
}

/// A `layer` value: `(membership, filter)` of two 32-bit masks.
pub open spec fn spec_layer(s: Seq<u8>, pos: int) -> Option<((u32, u32), int)> {
    match spec_eat(s, pos, 40) {
        None => None,
        Some(p0) => match spec_uint_ws(s, p0, 0xFFFF_FFFF) {
            None => None,
            Some((a, p1)) => match spec_eat(s, p1, 44) {
                None => None,
                Some(p2) => match spec_uint_ws(s, p2, 0xFFFF_FFFF) {
                    None => None,
                    Some((b, p3)) => match spec_close_paren(s, p3) {
                        None => None,
                        Some(p4) => Some(((a as u32, b as u32), p4)),
                    }
                }
            }
        }
    }
}

/// The fields gathered so far, each at most once.
pub struct PartialCellV {
    pub scene: Option<Seq<u8>>,
    pub collider: Option<ShapeSpecV>,
    pub collider_offset: Option<Vec3>,
    pub body: Option<BodyKind>,
    pub scale: Option<Dec>,
    pub components: Option<Seq<AttrEntryV>>,
    pub layer: Option<(u32, u32)>,
}

pub open spec fn empty_partial() -> PartialCellV {
    PartialCellV {
        scene: None,
        collider: None,
        collider_offset: None,
        body: None,
        scale: None,
        components: None,
        layer: None,
    }
}

/// Close the record: `scene` and `collider` are owed, everything else has
/// its default.
pub open spec fn spec_finish(part: PartialCellV) -> Option<CellRecordV> {
    match (part.scene, part.collider) {
        (Some(scene), Some(collider)) => Some(
            CellRecordV {
                scene,
                collider,
                collider_offset: part.collider_offset,
                body: match part.body {
                    Some(b) => b,
                    None => BodyKind::Static,
                },
                scale: match part.scale {
                    Some(d) => d,
                    None => Dec { neg: false, mantissa: 1, frac: 0 }
            },
                components: match part.components {
                    Some(c) => c,
                    None => Seq::empty(),
                },
                layer: part.layer,
            },
        ),
        _ => None,
    }
}

/// One `name: value` field at `pos` (whitespace already skipped), added to
/// the partial record.  A repeated or unknown field name refuses the file.
pub open spec fn spec_field(s: Seq<u8>, pos: int, part: PartialCellV) -> Option<
    (PartialCellV, int),
> {
    let (w, e) = spec_ident(s, pos);
    if w == kw_scene() {
        if part.scene is Some {
            None
        } else {
            match spec_eat(s, e, 58) {
                None => None,
                Some(p) => match spec_text(s, p) {
                    None => None,
                    Some((v, p2)) => Some((PartialCellV { scene: Some(v), ..part }, p2)),
                }
            }
        }
    } else if w == kw_collider() {
        if part.collider is Some {
            None
        } else {
            match spec_eat(s, e, 58) {
                None => None,
                Some(p) => match spec_collider(s, p) {
                    None => None,
                    Some((v, p2)) => Some((PartialCellV { collider: Some(v), ..part }, p2)),
                }
            }
        }
    } else if w == kw_collider_offset() {
        if part.collider_offset is Some {
            None
        } else {
            match spec_eat(s, e, 58) {
                None => None,
                Some(p) => match spec_vec3(s, p) {
                    None => None,
                    Some((v, p2)) => Some(
                        (PartialCellV { collider_offset: Some(v), ..part }, p2),
                    ),
                }
            }
        }
    } else if w == kw_body() {
        if part.body is Some {
            None
        } else {
            match spec_eat(s, e, 58) {
                None => None,
                Some(p) => match spec_body(s, p) {
                    None => None,
                    Some((v, p2)) => Some((PartialCellV { body: Some(v), ..part }, p2)),
                }
            }
        }
    } else if w == kw_scale() {
        if part.scale is Some {
            None
        } else {
            match spec_eat(s, e, 58) {
                None => None,
                Some(p) => match spec_scalar(s, p) {
                    None => None,
                    Some((v, p2)) => Some((PartialCellV { scale: Some(v), ..part }, p2)),
                }
            }
        }
    } else if w == kw_components() {
        if part.components is Some {
            None
        } else {
            match spec_eat(s, e, 58) {
                None => None,
                Some(p) => match spec_entry_list(s, p) {
                    None => None,
                    Some((v, p2)) => Some((PartialCellV { components: Some(v), ..part }, p2)),
                }
            }
        }
    } else if w == kw_layer() {
        if part.layer is Some {
            None
        } else {
            match spec_eat(s, e, 58) {
                None => None,
                Some(p) => match spec_layer(s, p) {
                    None => None,
                    Some((v, p2)) => Some((PartialCellV { layer: Some(v), ..part }, p2)),
                }
            }
        }
    } else {
        None
    }
}

/// The field list after the opening parenthesis, ending at `)`.
pub open spec fn spec_fields(s: Seq<u8>, pos: int, part: PartialCellV) -> Option<
    (CellRecordV, int),
>
    decreases s.len() - pos,
{
    let p = skip_ws(s, pos);
    if p < s.len() && s[p] == 41 {
        match spec_finish(part) {
            None => None,
            Some(r) => Some((r, p + 1)),
        }
    } else {
        match spec_field(s, p, part) {
            None => None,
            Some((part2, p2)) => {
                let q = skip_ws(s, p2);
                if q < s.len() && s[q] == 44 {
                    if pos < q + 1 && q + 1 <= s.len() {
                        spec_fields(s, q + 1, part2)
                    } else {
                        None
                    }
                } else if q < s.len() && s[q] == 41 {
                    match spec_finish(part2) {
                        None => None,
                        Some(r) => Some((r, q + 1)),
                    }
                } else {
                    None
                }
            }}
    }
}

/// A whole cell file: one parenthesized record and nothing but whitespace
/// after it.
pub open spec fn spec_cell_text(s: Seq<u8>) -> Option<CellRecordV> {
    match spec_eat(s, 0, 40) {
        None => None,
        Some(p) => match spec_fields(s, p, empty_partial()) {
            None => None,
            Some((r, p2)) => {
                if skip_ws(s, p2) == s.len() {
                    Some(r)
                } else {
                    None
                }
            }}}
}

// ---------------------------------------------------------------------------
// Composite productions, executable side.
// ---------------------------------------------------------------------------

pub fn close_paren(s: &Vec<u8>, pos: usize) -> (r: Option<usize>)
    requires
        pos <= s.len(),
    ensures
        lifted_pos(r) == spec_close_paren(s@, pos as int),
        r matches Some(p) ==> pos < p <= s.len(),
{
    match eat(s, pos, 44) {
        Some(p) => eat(s, p, 41),
        None => eat(s, pos, 41),
    }
}

pub fn close_brace(s: &Vec<u8>, pos: usize) -> (r: Option<usize>)
    requires
        pos <= s.len(),
    ensures
        lifted_pos(r) == spec_close_brace(s@, pos as int),
        r matches Some(p) ==> pos < p <= s.len(),
{
    match eat(s, pos, 44) {
        Some(p) => eat(s, p, 125),
        None => eat(s, pos, 125),
    }
}

pub fn parse_vec3(s: &Vec<u8>, pos: usize) -> (r: Option<(Vec3, usize)>)
    requires
        pos <= s.len(),
    ensures
        lifted(r) == spec_vec3(s@, pos as int),
        r matches Some(t) ==> pos < t.1 <= s.len(),
{
    match eat(s, pos, 40) {
        None => None,
        Some(p0) => match parse_scalar(s, p0) {
            None => None,
            Some((x, p1)) => match eat(s, p1, 44) {
                None => None,
                Some(p2) => match parse_scalar(s, p2) {
                    None => None,
                    Some((y, p3)) => match eat(s, p3, 44) {
                        None => None,
                        Some(p4) => match parse_scalar(s, p4) {
                            None => None,
                            Some((z, p5)) => match close_paren(s, p5) {
                                None => None,
                                Some(p6) => Some((Vec3 { x, y, z }, p6)),
                            }
                        }
                    }
                }
            }
        }
    }
}

pub fn parse_vec3_items(s: &Vec<u8>, pos: usize) -> (r: Option<(Vec<Vec3>, usize)>)
    requires
        pos <= s.len(),
    ensures
        r matches Some(t) ==> spec_vec3_items(s@, pos as int) == Some((t.0@, t.1 as int)),
        r is None ==> spec_vec3_items(s@, pos as int) is None,
        r matches Some(t) ==> pos < t.1 <= s.len(),
    decreases s.len() - pos,
{
    match parse_vec3(s, pos) {
        None => None,
        Some((v, p1)) => {
            let q = skip_ws_from(s, p1);
            if q < s.len() && s[q] == 44 {
                let q2 = skip_ws_from(s, q + 1);
                if q2 < s.len() && s[q2] == 93 {
                    let mut one: Vec<Vec3> = Vec::new();
                    one.push(v);
                    proof {
                        assert(one@ =~= seq![v]);
                    }
                    Some((one, q2 + 1))
                } else {
                    match parse_vec3_items(s, q + 1) {
                        None => None,
                        Some((mut rest, p2)) => {
                            rest.insert(0, v);
                            proof {
                                assert(rest@ =~= seq![v]
                                    + spec_vec3_items(s@, q + 1 as int).unwrap().0);
                            }
                            Some((rest, p2))
                        }}
                }
            } else if q < s.len() && s[q] == 93 {
                let mut one: Vec<Vec3> = Vec::new();
                one.push(v);
                proof {
                    assert(one@ =~= seq![v]);
                }
                Some((one, q + 1))
            } else {
                None
            }
        }}
}

pub fn parse_vec3_list(s: &Vec<u8>, pos: usize) -> (r: Option<(Vec<Vec3>, usize)>)
    requires
        pos <= s.len(),
    ensures
        r matches Some(t) ==> spec_vec3_list(s@, pos as int) == Some((t.0@, t.1 as int)),
        r is None ==> spec_vec3_list(s@, pos as int) is None,
        r matches Some(t) ==> pos < t.1 <= s.len(),
{
    match eat(s, pos, 91) {
        None => None,
        Some(p) => {
            let q = skip_ws_from(s, p);
            if q < s.len() && s[q] == 93 {
                let empty: Vec<Vec3> = Vec::new();
                proof {
                    assert(empty@ =~= Seq::<Vec3>::empty());
                }
                Some((empty, q + 1))
            } else {
                parse_vec3_items(s, p)
            }
        }}
}

pub fn parse_index_items(s: &Vec<u8>, pos: usize) -> (r: Option<(Vec<u16>, usize)>)
    requires
        pos <= s.len(),
    ensures
        r matches Some(t) ==> spec_index_items(s@, pos as int) == Some((t.0@, t.1 as int)),
        r is None ==> spec_index_items(s@, pos as int) is None,
        r matches Some(t) ==> pos < t.1 <= s.len(),
    decreases s.len() - pos,
{
    match parse_uint_ws(s, pos, 65535) {
        None => None,
        Some((v, p1)) => {
            let q = skip_ws_from(s, p1);
            if q < s.len() && s[q] == 44 {
                let q2 = skip_ws_from(s, q + 1);
                if q2 < s.len() && s[q2] == 93 {
                    let mut one: Vec<u16> = Vec::new();
                    one.push(v as u16);
                    proof {
                        assert(one@ =~= seq![v as u16]);
                    }
                    Some((one, q2 + 1))
                } else {
                    match parse_index_items(s, q + 1) {
                        None => None,
                        Some((mut rest, p2)) => {
                            rest.insert(0, v as u16);
                            proof {
                                assert(rest@ =~= seq![v as u16]
                                    + spec_index_items(s@, q + 1 as int).unwrap().0);
                            }
                            Some((rest, p2))
                        }}
                }
            } else if q < s.len() && s[q] == 93 {
                let mut one: Vec<u16> = Vec::new();
                one.push(v as u16);
                proof {
                    assert(one@ =~= seq![v as u16]);
                }
                Some((one, q + 1))
            } else {
                None
            }
        }}
}

pub fn parse_index_list(s: &Vec<u8>, pos: usize) -> (r: Option<(Vec<u16>, usize)>)
    requires
        pos <= s.len(),
    ensures
        r matches Some(t) ==> spec_index_list(s@, pos as int) == Some((t.0@, t.1 as int)),
        r is None ==> spec_index_list(s@, pos as int) is None,
        r matches Some(t) ==> pos < t.1 <= s.len(),
{
    match eat(s, pos, 91) {
        None => None,
        Some(p) => {
            let q = skip_ws_from(s, p);
            if q < s.len() && s[q] == 93 {
                let empty: Vec<u16> = Vec::new();
                proof {
                    assert(empty@ =~= Seq::<u16>::empty());
                }
                Some((empty, q + 1))
            } else {
                parse_index_items(s, p)
            }
        }}
}

pub fn parse_entry_items(s: &Vec<u8>, pos: usize) -> (r: Option<(Vec<AttrEntry>, usize)>)
    requires
        pos <= s.len(),
    ensures
        r matches Some(t) ==> spec_entry_items(s@, pos as int) == Some(
            (t.0@.map_values(|e: AttrEntry| e@), t.1 as int),
        ),
        r is None ==> spec_entry_items(s@, pos as int) is None,
        r matches Some(t) ==> pos < t.1 <= s.len(),
    decreases s.len() - pos,
{
    match parse_text(s, pos) {
        None => None,
        Some((name, pn)) => match eat(s, pn, 58) {
            None => None,
            Some(pc) => match parse_text(s, pc) {
                None => None,
                Some((payload, p1)) => {
                    let entry = AttrEntry { name, payload };
                    let q = skip_ws_from(s, p1);
                    if q < s.len() && s[q] == 44 {
                        let q2 = skip_ws_from(s, q + 1);
                        if q2 < s.len() && s[q2] == 125 {
                            let mut one: Vec<AttrEntry> = Vec::new();
                            one.push(entry);
                            proof {
                                assert(one@.map_values(|e: AttrEntry| e@) =~= seq![
                                    AttrEntryV {
                                        name: spec_text(s@, pos as int).unwrap().0,
                                        payload: spec_text(s@, pc as int).unwrap().0,
                                    },
                                ]);
                            }
                            Some((one, q2 + 1))
                        } else {
                            match parse_entry_items(s, q + 1) {
                                None => None,
                                Some((mut rest, p2)) => {
                                    rest.insert(0, entry);
                                    proof {
                                        assert(rest@.map_values(|e: AttrEntry| e@) =~= seq![
                                            AttrEntryV {
                                                name: spec_text(s@, pos as int).unwrap().0,
                                                payload: spec_text(s@, pc as int).unwrap().0,
                                            },
                                        ] + spec_entry_items(s@, q + 1 as int).unwrap().0);
                                    }
                                    Some((rest, p2))
                                }}
                        }
                    } else if q < s.len() && s[q] == 125 {
                        let mut one: Vec<AttrEntry> = Vec::new();
                        one.push(entry);
                        proof {
                            assert(one@.map_values(|e: AttrEntry| e@) =~= seq![
                                AttrEntryV {
                                    name: spec_text(s@, pos as int).unwrap().0,
                                    payload: spec_text(s@, pc as int).unwrap().0,
                                },
                            ]);
                        }
                        Some((one, q + 1))
                    } else {
                        None
                    }
                }}}}
}

pub fn parse_entry_list(s: &Vec<u8>, pos: usize) -> (r: Option<(Vec<AttrEntry>, usize)>)
    requires
        pos <= s.len(),
    ensures
        r matches Some(t) ==> spec_entry_list(s@, pos as int) == Some(
            (t.0@.map_values(|e: AttrEntry| e@), t.1 as int),
        ),
        r is None ==> spec_entry_list(s@, pos as int) is None,
        r matches Some(t) ==> pos < t.1 <= s.len(),
{
    match eat(s, pos, 123) {
        None => None,
        Some(p) => {
            let q = skip_ws_from(s, p);
            if q < s.len() && s[q] == 125 {
                let empty: Vec<AttrEntry> = Vec::new();
                proof {
                    assert(empty@.map_values(|e: AttrEntry| e@) =~= Seq::<AttrEntryV>::empty());
                }
                Some((empty, q + 1))
            } else {
                parse_entry_items(s, p)
            }
        }}
}

/// The identifier at `pos` after whitespace, as a fresh vector.
pub fn parse_ident(s: &Vec<u8>, pos: usize) -> (r: (Vec<u8>, usize))
    requires
        pos <= s.len(),
    ensures
        r.0@ == spec_ident(s@, pos as int).0,
        r.1 as int == spec_ident(s@, pos as int).1,
        pos <= r.1 <= s.len(),
{
    let p = skip_ws_from(s, pos);
    let e = ident_end_from(s, p);
    (copy_range(s, p, e), e)
}

pub fn parse_body_kind(s: &Vec<u8>, pos: usize) -> (r: Option<(BodyKind, usize)>)
    requires
        pos <= s.len(),
    ensures
        lifted(r) == spec_body(s@, pos as int),
        r matches Some(t) ==> pos <= t.1 <= s.len(),
{
    let (w, e) = parse_ident(s, pos);
    if vec_eq(&w, &kwv_static()) {
        Some((BodyKind::Static, e))
    } else if vec_eq(&w, &kwv_dynamic()) {
        Some((BodyKind::Dynamic, e))
    } else if vec_eq(&w, &kwv_kinematic()) {
        Some((BodyKind::Kinematic, e))
    } else {
        None
    }
}

pub fn parse_collider(s: &Vec<u8>, pos: usize) -> (r: Option<(ShapeSpec, usize)>)
    requires
        pos <= s.len(),
    ensures
        r matches Some(t) ==> spec_collider(s@, pos as int) == Some((t.0@, t.1 as int)),
        r is None ==> spec_collider(s@, pos as int) is None,
        r matches Some(t) ==> pos < t.1 <= s.len(),
{
    let (w, e) = parse_ident(s, pos);
    if vec_eq(&w, &kwv_cuboid()) {
        match eat(s, e, 40) {
            None => None,
            Some(p0) => match parse_vec3(s, p0) {
                None => None,
                Some((v, p1)) => match close_paren(s, p1) {
                    None => None,
                    Some(p2) => Some((ShapeSpec::Cuboid(v), p2)),
                }
            }
        }
    } else if vec_eq(&w, &kwv_mesh()) {
        match eat(s, e, 123) {
            None => None,
            Some(p0) => {
                let (w1, e1) = parse_ident(s, p0);
                if !vec_eq(&w1, &kwv_vertices()) {
                    None
                } else {
                    match eat(s, e1, 58) {
                        None => None,
                        Some(p1) => match parse_vec3_list(s, p1) {
                            None => None,
                            Some((vs, p2)) => match eat(s, p2, 44) {
                                None => None,
                                Some(p3) => {
                                    let (w2, e2) = parse_ident(s, p3);
                                    if !vec_eq(&w2, &kwv_indices()) {
                                        None
                                    } else {
                                        match eat(s, e2, 58) {
                                            None => None,
                                            Some(p4) => match parse_index_list(s, p4) {
                                                None => None,
                                                Some((is, p5)) => match close_brace(s, p5) {
                                                    None => None,
                                                    Some(p6) => Some(
                                                        (
                                                            ShapeSpec::Mesh {
                                                                vertices: vs,
                                                                indices: is,
                                                            },
                                                            p6,
                                                        ),
                                                    ),
                                                }
                                            }
                                        }
                                    }
                                }}}}
                }
            }}
    } else {
        None
    }
}

pub fn parse_layer(s: &Vec<u8>, pos: usize) -> (r: Option<((u32, u32), usize)>)
    requires
        pos <= s.len(),
    ensures
        lifted(r) == spec_layer(s@, pos as int),
        r matches Some(t) ==> pos < t.1 <= s.len(),
{
    match eat(s, pos, 40) {
        None => None,
        Some(p0) => match parse_uint_ws(s, p0, 0xFFFF_FFFF) {
            None => None,
            Some((a, p1)) => match eat(s, p1, 44) {
                None => None,
                Some(p2) => match parse_uint_ws(s, p2, 0xFFFF_FFFF) {
                    None => None,
                    Some((b, p3)) => match close_paren(s, p3) {
                        None => None,
                        Some(p4) => Some(((a as u32, b as u32), p4)),
                    }
                }
            }
        }
    }
}

/// The executable twin of `PartialCellV`.
pub struct PartialCell {
    pub scene: Option<Vec<u8>>,
    pub collider: Option<ShapeSpec>,
    pub collider_offset: Option<Vec3>,
    pub body: Option<BodyKind>,
    pub scale: Option<Dec>,
    pub components: Option<Vec<AttrEntry>>,
    pub layer: Option<(u32, u32)>,
}

impl View for PartialCell {
    type V = PartialCellV;

    open spec fn view(&self) -> PartialCellV {
        PartialCellV {
            scene: match self.scene {
                Some(ref v) => Some(v@),
                None => None,
            },
            collider: match self.collider {
                Some(ref c) => Some(c@),
                None => None,
            },
            collider_offset: self.collider_offset,
            body: self.body,
            scale: self.scale,
            components: match self.components {
                Some(ref c) => Some(c@.map_values(|e: AttrEntry| e@)),
                None => None,
            },
            layer: self.layer,
        }
    }
}

impl PartialCell {
    pub fn empty() -> (r: PartialCell)
        ensures
            r@ == empty_partial(),
    {
        PartialCell {
            scene: None,
            collider: None,
            collider_offset: None,
            body: None,
            scale: None,
            components: None,
            layer: None,
        }
    }
}

/// Close the record, filling defaults; `None` while `scene` or `collider`
/// is missing.
fn finish_record(part: PartialCell) -> (r: Option<CellRecord>)
    ensures
        r matches Some(c) ==> spec_finish(part@) == Some(c@),
        r is None ==> spec_finish(part@) is None,
{
    let PartialCell { scene, collider, collider_offset, body, scale, components, layer } = part;
    match (scene, collider) {
        (Some(scene), Some(collider)) => {
            let components = match components {
                Some(c) => c,
                None => {
                    let fresh: Vec<AttrEntry> = Vec::new();
                    proof {
                        assert(fresh@.map_values(|e: AttrEntry| e@) =~= Seq::<
                            AttrEntryV,
                        >::empty());
                    }
                    fresh
                }};
            let record = CellRecord {
                scene,
                collider,
                collider_offset,
                body: match body {
                    Some(b) => b,
                    None => BodyKind::Static,
                },
                scale: match scale {
                    Some(d) => d,
                    None => Dec::one(),
                },
                components,
                layer};
            Some(record)
        },
        _ => None,
    }
}

/// One field at `pos`, added to the partial record.
fn parse_field(s: &Vec<u8>, pos: usize, part: PartialCell) -> (r: Option<(PartialCell, usize)>)
    requires
        pos <= s.len(),
    ensures
        r matches Some(t) ==> spec_field(s@, pos as int, part@) == Some((t.0@, t.1 as int)),
        r is None ==> spec_field(s@, pos as int, part@) is None,
        r matches Some(t) ==> pos <= t.1 <= s.len(),
{
    let (w, e) = parse_ident(s, pos);
    if vec_eq(&w, &kwv_scene()) {
        if part.scene.is_some() {
            return None;
        }
        match eat(s, e, 58) {
            None => None,
            Some(p) => match parse_text(s, p) {
                None => None,
                Some((v, p2)) => Some((PartialCell { scene: Some(v), ..part }, p2)),
            }
        }
    } else if vec_eq(&w, &kwv_collider()) {
        if part.collider.is_some() {
            return None;
        }
        match eat(s, e, 58) {
            None => None,
            Some(p) => match parse_collider(s, p) {
                None => None,
                Some((v, p2)) => Some((PartialCell { collider: Some(v), ..part }, p2)),
            }
        }
    } else if vec_eq(&w, &kwv_collider_offset()) {
        if part.collider_offset.is_some() {
            return None;
        }
        match eat(s, e, 58) {
            None => None,
            Some(p) => match parse_vec3(s, p) {
                None => None,
                Some((v, p2)) => Some((PartialCell { collider_offset: Some(v), ..part }, p2)),
            }
        }
    } else if vec_eq(&w, &kwv_body()) {
        if part.body.is_some() {
            return None;
        }
        match eat(s, e, 58) {
            None => None,
            Some(p) => match parse_body_kind(s, p) {
                None => None,
                Some((v, p2)) => Some((PartialCell { body: Some(v), ..part }, p2)),
            }
        }
    } else if vec_eq(&w, &kwv_scale()) {
        if part.scale.is_some() {
            return None;
        }
        match eat(s, e, 58) {
            None => None,
            Some(p) => match parse_scalar(s, p) {
                None => None,
                Some((v, p2)) => Some((PartialCell { scale: Some(v), ..part }, p2)),
            }
        }
    } else if vec_eq(&w, &kwv_components()) {
        if part.components.is_some() {
            return None;
        }
        match eat(s, e, 58) {
            None => None,
            Some(p) => match parse_entry_list(s, p) {
                None => None,
                Some((v, p2)) => Some((PartialCell { components: Some(v), ..part }, p2)),
            }
        }
    } else if vec_eq(&w, &kwv_layer()) {
        if part.layer.is_some() {
            return None;
        }
        match eat(s, e, 58) {
            None => None,
            Some(p) => match parse_layer(s, p) {
                None => None,
                Some((v, p2)) => Some((PartialCell { layer: Some(v), ..part }, p2)),
            }
        }
    } else {
        None
    }
}

/// The field list after the opening parenthesis, ending at `)`.
fn parse_fields(s: &Vec<u8>, pos: usize, part: PartialCell) -> (r: Option<(CellRecord, usize)>)
    requires
        pos <= s.len(),
    ensures
        r matches Some(t) ==> spec_fields(s@, pos as int, part@) == Some((t.0@, t.1 as int)),
        r is None ==> spec_fields(s@, pos as int, part@) is None,
        r matches Some(t) ==> pos < t.1 <= s.len(),
    decreases s.len() - pos,
{
    let p = skip_ws_from(s, pos);
    if p < s.len() && s[p] == 41 {
        match finish_record(part) {
            None => None,
            Some(c) => Some((c, p + 1)),
        }
    } else {
        match parse_field(s, p, part) {
            None => None,
            Some((part2, p2)) => {
                let q = skip_ws_from(s, p2);
                if q < s.len() && s[q] == 44 {
                    parse_fields(s, q + 1, part2)
                } else if q < s.len() && s[q] == 41 {
                    match finish_record(part2) {
                        None => None,
                        Some(c) => Some((c, q + 1)),
                    }
                } else {
                    None
                }
            }}
    }
}

/// A whole cell file: the parenthesized record, then only whitespace.
pub fn parse_cell_text(s: &Vec<u8>) -> (r: Option<CellRecord>)
    ensures
        r matches Some(c) ==> spec_cell_text(s@) == Some(c@),
        r is None ==> spec_cell_text(s@) is None,
{
    match eat(s, 0, 40) {
        None => None,
        Some(p) => match parse_fields(s, p, PartialCell::empty()) {
            None => None,
            Some((c, p2)) => {
                if skip_ws_from(s, p2) == s.len() {
                    Some(c)
                } else {
                    None
                }
            }}}
}

// ---------------------------------------------------------------------------
// Whatever text the parser accepts, the record it returns is well formed.
// ---------------------------------------------------------------------------

/// `quote_end` never moves backwards, and only moves inside the text.
proof fn lemma_quote_end_ge(s: Seq<u8>, pos: int)
    ensures
        pos <= quote_end(s, pos),
        quote_end(s, pos) <= s.len() || quote_end(s, pos) == pos,
    decreases s.len() - pos,
{
    if 0 <= pos < s.len() && s[pos] != 34 {
        lemma_quote_end_ge(s, pos + 1);
    }
}

/// A successful `spec_eat` lands strictly past `pos`, inside the text.
proof fn lemma_eat_pos(s: Seq<u8>, pos: int, b: u8)
    requires
        spec_eat(s, pos, b) is Some,
    ensures
        pos < spec_eat(s, pos, b).unwrap() <= s.len(),
{
    crate::bytes::lemma_skip_ws_ge(s, pos);
}

/// A successful `spec_text` lands strictly past `pos`, inside the text.
proof fn lemma_text_pos(s: Seq<u8>, pos: int)
    requires
        spec_text(s, pos) is Some,
    ensures
        pos < spec_text(s, pos).unwrap().1 <= s.len(),
{
    lemma_eat_pos(s, pos, 34);
    let p = spec_eat(s, pos, 34).unwrap();
    lemma_quote_end_ge(s, p);
}

/// A successful `spec_vec3` lands past `pos`, inside the text.
proof fn lemma_vec3_pos(s: Seq<u8>, pos: int)
    requires
        spec_vec3(s, pos) is Some,
    ensures
        pos < spec_vec3(s, pos).unwrap().1 <= s.len(),
{
    lemma_eat_pos(s, pos, 40);
    let p0 = spec_eat(s, pos, 40).unwrap();
    lemma_scalar_pos(s, p0);
    let (x, p1) = spec_scalar(s, p0).unwrap();
    lemma_eat_pos(s, p1, 44);
    let p2 = spec_eat(s, p1, 44).unwrap();
    lemma_scalar_pos(s, p2);
    let (y, p3) = spec_scalar(s, p2).unwrap();
    lemma_eat_pos(s, p3, 44);
    let p4 = spec_eat(s, p3, 44).unwrap();
    lemma_scalar_pos(s, p4);
    let (z, p5) = spec_scalar(s, p4).unwrap();
    if spec_eat(s, p5, 44) is Some {
        lemma_eat_pos(s, p5, 44);
        lemma_eat_pos(s, spec_eat(s, p5, 44).unwrap(), 41);
    } else {
        lemma_eat_pos(s, p5, 41);
    }
}

/// A successful `spec_field` lands past `pos`, inside the text.
proof fn lemma_field_pos(s: Seq<u8>, pos: int, part: PartialCellV)
    requires
        spec_field(s, pos, part) is Some,
    ensures
        pos <= spec_field(s, pos, part).unwrap().1 <= s.len(),
{
    crate::bytes::lemma_skip_ws_ge(s, pos);
    crate::bytes::lemma_ident_end_ge(s, skip_ws(s, pos));
    let (w, e) = spec_ident(s, pos);
    if w == kw_scene() {
        lemma_eat_pos(s, e, 58);
        lemma_text_pos(s, spec_eat(s, e, 58).unwrap());
    } else if w == kw_collider() {
        lemma_eat_pos(s, e, 58);
        lemma_collider_pos(s, spec_eat(s, e, 58).unwrap());
    } else if w == kw_collider_offset() {
        lemma_eat_pos(s, e, 58);
        lemma_vec3_pos(s, spec_eat(s, e, 58).unwrap());
    } else if w == kw_body() {
        lemma_eat_pos(s, e, 58);
        let p = spec_eat(s, e, 58).unwrap();
        crate::bytes::lemma_skip_ws_ge(s, p);
        crate::bytes::lemma_ident_end_ge(s, skip_ws(s, p));
    } else if w == kw_scale() {
        lemma_eat_pos(s, e, 58);
        lemma_scalar_pos(s, spec_eat(s, e, 58).unwrap());
    } else if w == kw_components() {
        lemma_eat_pos(s, e, 58);
        lemma_entry_list_pos(s, spec_eat(s, e, 58).unwrap());
    } else if w == kw_layer() {
        lemma_eat_pos(s, e, 58);
        lemma_layer_pos(s, spec_eat(s, e, 58).unwrap());
    }
}

/// A successful `spec_collider` lands past `pos`, inside the text.
proof fn lemma_collider_pos(s: Seq<u8>, pos: int)
    requires
        spec_collider(s, pos) is Some,
    ensures
        pos <= spec_collider(s, pos).unwrap().1 <= s.len(),
{
    crate::bytes::lemma_skip_ws_ge(s, pos);
    crate::bytes::lemma_ident_end_ge(s, skip_ws(s, pos));
    let (w, e) = spec_ident(s, pos);
    if w == kw_cuboid() {
        lemma_eat_pos(s, e, 40);
        let p0 = spec_eat(s, e, 40).unwrap();
        lemma_vec3_pos(s, p0);
        let (v, p1) = spec_vec3(s, p0).unwrap();
        lemma_close_paren_pos(s, p1);
    } else {
        lemma_eat_pos(s, e, 123);
        let p0 = spec_eat(s, e, 123).unwrap();
        crate::bytes::lemma_skip_ws_ge(s, p0);
        crate::bytes::lemma_ident_end_ge(s, skip_ws(s, p0));
        let (w1, e1) = spec_ident(s, p0);
        lemma_eat_pos(s, e1, 58);
        let p1 = spec_eat(s, e1, 58).unwrap();
        lemma_vec3_list_pos(s, p1);
        let (vs, p2) = spec_vec3_list(s, p1).unwrap();
        lemma_eat_pos(s, p2, 44);
        let p3 = spec_eat(s, p2, 44).unwrap();
        crate::bytes::lemma_skip_ws_ge(s, p3);
        crate::bytes::lemma_ident_end_ge(s, skip_ws(s, p3));
        let (w2, e2) = spec_ident(s, p3);
        lemma_eat_pos(s, e2, 58);
        let p4 = spec_eat(s, e2, 58).unwrap();
        lemma_index_list_pos(s, p4);
        let (is, p5) = spec_index_list(s, p4).unwrap();
        if spec_eat(s, p5, 44) is Some {
            lemma_eat_pos(s, p5, 44);
            lemma_eat_pos(s, spec_eat(s, p5, 44).unwrap(), 125);
        } else {
            lemma_eat_pos(s, p5, 125);
        }
    }
}

/// A successful close of a tuple or brace group lands inside the text.
proof fn lemma_close_paren_pos(s: Seq<u8>, pos: int)
    requires
        spec_close_paren(s, pos) is Some,
    ensures
        pos < spec_close_paren(s, pos).unwrap() <= s.len(),
{
    if spec_eat(s, pos, 44) is Some {
        lemma_eat_pos(s, pos, 44);
        lemma_eat_pos(s, spec_eat(s, pos, 44).unwrap(), 41);
    } else {
        lemma_eat_pos(s, pos, 41);
    }
}

/// A successful `spec_vec3_list` lands past `pos`, inside the text.
proof fn lemma_vec3_list_pos(s: Seq<u8>, pos: int)
    requires
        spec_vec3_list(s, pos) is Some,
    ensures
        pos < spec_vec3_list(s, pos).unwrap().1 <= s.len(),
{
    lemma_eat_pos(s, pos, 91);
    let p = spec_eat(s, pos, 91).unwrap();
    crate::bytes::lemma_skip_ws_ge(s, p);
    let q = skip_ws(s, p);
    if q < s.len() && s[q] == 93 {
    } else {
        lemma_vec3_items_pos(s, p);
    }
}

proof fn lemma_vec3_items_pos(s: Seq<u8>, pos: int)
    requires
        spec_vec3_items(s, pos) is Some,
    ensures
        pos < spec_vec3_items(s, pos).unwrap().1 <= s.len(),
    decreases s.len() - pos,
{
    lemma_vec3_pos(s, pos);
    let (v, p1) = spec_vec3(s, pos).unwrap();
    crate::bytes::lemma_skip_ws_ge(s, p1);
    let q = skip_ws(s, p1);
    if q < s.len() && s[q] == 44 {
        crate::bytes::lemma_skip_ws_ge(s, q + 1);
        let q2 = skip_ws(s, q + 1);
        if q2 < s.len() && s[q2] == 93 {
        } else {
            lemma_vec3_items_pos(s, q + 1);
        }
    }
}

/// A successful `spec_index_list` lands past `pos`, inside the text.
proof fn lemma_index_list_pos(s: Seq<u8>, pos: int)
    requires
        spec_index_list(s, pos) is Some,
    ensures
        pos < spec_index_list(s, pos).unwrap().1 <= s.len(),
{
    lemma_eat_pos(s, pos, 91);
    let p = spec_eat(s, pos, 91).unwrap();
    crate::bytes::lemma_skip_ws_ge(s, p);
    let q = skip_ws(s, p);
    if q < s.len() && s[q] == 93 {
    } else {
        lemma_index_items_pos(s, p);
    }
}

proof fn lemma_index_items_pos(s: Seq<u8>, pos: int)
    requires
        spec_index_items(s, pos) is Some,
    ensures
        pos < spec_index_items(s, pos).unwrap().1 <= s.len(),
    decreases s.len() - pos,
{
    crate::bytes::lemma_skip_ws_ge(s, pos);
    crate::bytes::lemma_digits_end_ge(s, skip_ws(s, pos));
    let (v, p1) = spec_uint_ws(s, pos, 65535).unwrap();
    crate::bytes::lemma_skip_ws_ge(s, p1);
    let q = skip_ws(s, p1);
    if q < s.len() && s[q] == 44 {
        crate::bytes::lemma_skip_ws_ge(s, q + 1);
        let q2 = skip_ws(s, q + 1);
        if q2 < s.len() && s[q2] == 93 {
        } else {
            lemma_index_items_pos(s, q + 1);
        }
    }
}

/// A successful `spec_entry_list` lands past `pos`, inside the text.
proof fn lemma_entry_list_pos(s: Seq<u8>, pos: int)
    requires
        spec_entry_list(s, pos) is Some,
    ensures
        pos < spec_entry_list(s, pos).unwrap().1 <= s.len(),
{
    lemma_eat_pos(s, pos, 123);
    let p = spec_eat(s, pos, 123).unwrap();
    crate::bytes::lemma_skip_ws_ge(s, p);
    let q = skip_ws(s, p);
    if q < s.len() && s[q] == 125 {
    } else {
        lemma_entry_items_pos(s, p);
    }
}

proof fn lemma_entry_items_pos(s: Seq<u8>, pos: int)
    requires
        spec_entry_items(s, pos) is Some,
    ensures
        pos < spec_entry_items(s, pos).unwrap().1 <= s.len(),
    decreases s.len() - pos,
{
    lemma_text_pos(s, pos);
    let (name, pn) = spec_text(s, pos).unwrap();
    lemma_eat_pos(s, pn, 58);
    let pc = spec_eat(s, pn, 58).unwrap();
    lemma_text_pos(s, pc);
    let (payload, p1) = spec_text(s, pc).unwrap();
    crate::bytes::lemma_skip_ws_ge(s, p1);
    let q = skip_ws(s, p1);
    if q < s.len() && s[q] == 44 {
        crate::bytes::lemma_skip_ws_ge(s, q + 1);
        let q2 = skip_ws(s, q + 1);
        if q2 < s.len() && s[q2] == 125 {
        } else {
            lemma_entry_items_pos(s, q + 1);
        }
    }
}

/// A successful `spec_layer` lands past `pos`, inside the text.
proof fn lemma_layer_pos(s: Seq<u8>, pos: int)
    requires
        spec_layer(s, pos) is Some,
    ensures
        pos < spec_layer(s, pos).unwrap().1 <= s.len(),
{
    lemma_eat_pos(s, pos, 40);
    let p0 = spec_eat(s, pos, 40).unwrap();
    crate::bytes::lemma_skip_ws_ge(s, p0);
    crate::bytes::lemma_digits_end_ge(s, skip_ws(s, p0));
    let (a, p1) = spec_uint_ws(s, p0, 0xFFFF_FFFF).unwrap();
    lemma_eat_pos(s, p1, 44);
    let p2 = spec_eat(s, p1, 44).unwrap();
    crate::bytes::lemma_skip_ws_ge(s, p2);
    crate::bytes::lemma_digits_end_ge(s, skip_ws(s, p2));
    let (b, p3) = spec_uint_ws(s, p2, 0xFFFF_FFFF).unwrap();
    lemma_close_paren_pos(s, p3);
}

/// A successful `spec_scalar` lands strictly past `pos`, inside the text.
proof fn lemma_scalar_pos(s: Seq<u8>, pos: int)
    requires
        spec_scalar(s, pos) is Some,
    ensures
        pos < spec_scalar(s, pos).unwrap().1 <= s.len(),
{
    crate::bytes::lemma_skip_ws_ge(s, pos);
    let p = skip_ws(s, pos);
    let neg = p < s.len() && s[p] == 45;
    let p1: int = if neg {
        p + 1
    } else {
        p
    };
    crate::bytes::lemma_digits_end_ge(s, p1);
    let (ip, e1) = spec_read_uint(s, p1, DEC_PARSE_MAX).unwrap();
    if e1 < s.len() && s[e1] == 46 {
        crate::bytes::lemma_digits_end_ge(s, e1 + 1);
    }
}

/// No byte before `quote_end` is a quote.
proof fn lemma_quote_run_at(s: Seq<u8>, pos: int, i: int)
    requires
        0 <= pos <= i < quote_end(s, pos),
    ensures
        0 <= i < s.len(),
        s[i] != 34,
    decreases i - pos,
{
    if i > pos {
        lemma_quote_run_at(s, pos + 1, i);
    }
}

pub proof fn lemma_text_wf(s: Seq<u8>, pos: int)
    requires
        0 <= pos,
    ensures
        spec_text(s, pos) matches Some(t) ==> text_ok(t.0),
{
    if let Some((t, _)) = spec_text(s, pos) {
        lemma_eat_pos(s, pos, 34);
        let p = spec_eat(s, pos, 34).unwrap();
        let e = quote_end(s, p);
        lemma_quote_end_ge(s, p);
        assert forall|i: int| 0 <= i < t.len() implies t[i] != 34 by {
            lemma_quote_run_at(s, p, p + i);
            assert(t[i] == s[p + i]);
        }
    }
}

pub proof fn lemma_scalar_wf(s: Seq<u8>, pos: int)
    requires
        0 <= pos,
    ensures
        spec_scalar(s, pos) matches Some(t) ==> t.0.wf(),
{
    if let Some((d, _)) = spec_scalar(s, pos) {
        let p = skip_ws(s, pos);
        let neg = p < s.len() && s[p] == 45;
        let p1: int = if neg {
            p + 1
        } else {
            p
        };
        let (ip, e1) = spec_read_uint(s, p1, DEC_PARSE_MAX).unwrap();
        if e1 < s.len() && s[e1] == 46 {
            let fe = digits_end(s, e1 + 1);
            let f = fe - (e1 + 1);
            let m = ip * pow10(f as nat) + digits_val(s, e1 + 1, fe);
            crate::dec::lemma_canon_canonical(neg, m as u64, f as u32);
        } else {
            crate::dec::lemma_canon_canonical(neg, ip, 0);
        }
    }
}

pub proof fn lemma_vec3_wf(s: Seq<u8>, pos: int)
    requires
        0 <= pos,
    ensures
        spec_vec3(s, pos) matches Some(t) ==> t.0.wf(),
{
    if let Some((v, _)) = spec_vec3(s, pos) {
        lemma_eat_pos(s, pos, 40);
        let p0 = spec_eat(s, pos, 40).unwrap();
        lemma_scalar_wf(s, p0);
        lemma_scalar_pos(s, p0);
        let (x, p1) = spec_scalar(s, p0).unwrap();
        lemma_eat_pos(s, p1, 44);
        let p2 = spec_eat(s, p1, 44).unwrap();
        lemma_scalar_wf(s, p2);
        lemma_scalar_pos(s, p2);
        let (y, p3) = spec_scalar(s, p2).unwrap();
        lemma_eat_pos(s, p3, 44);
        let p4 = spec_eat(s, p3, 44).unwrap();
        lemma_scalar_wf(s, p4);
    }
}

pub proof fn lemma_vec3_items_wf(s: Seq<u8>, pos: int)
    requires
        0 <= pos,
    ensures
        spec_vec3_items(s, pos) matches Some(t) ==> forall|j: int|
            0 <= j < t.0.len() ==> (#[trigger] t.0[j]).wf(),
    decreases s.len() - pos,
{
    if let Some((vs, _)) = spec_vec3_items(s, pos) {
        lemma_vec3_wf(s, pos);
        lemma_vec3_pos(s, pos);
        let (v, p1) = spec_vec3(s, pos).unwrap();
        crate::bytes::lemma_skip_ws_ge(s, p1);
        let q = skip_ws(s, p1);
        if q < s.len() && s[q] == 44 {
            let q2 = skip_ws(s, q + 1);
            if q2 < s.len() && s[q2] == 93 {
            } else {
                lemma_vec3_items_wf(s, q + 1);
            }
        }
    }
}

pub proof fn lemma_vec3_list_wf(s: Seq<u8>, pos: int)
    requires
        0 <= pos,
    ensures
        spec_vec3_list(s, pos) matches Some(t) ==> forall|j: int|
            0 <= j < t.0.len() ==> (#[trigger] t.0[j]).wf(),
{
    if spec_vec3_list(s, pos) is Some {
        lemma_eat_pos(s, pos, 91);
        let p = spec_eat(s, pos, 91).unwrap();
        let q = skip_ws(s, p);
        if !(q < s.len() && s[q] == 93) {
            lemma_vec3_items_wf(s, p);
        }
    }
}

pub proof fn lemma_entry_items_wf(s: Seq<u8>, pos: int)
    requires
        0 <= pos,
    ensures
        spec_entry_items(s, pos) matches Some(t) ==> forall|j: int|
            0 <= j < t.0.len() ==> text_ok((#[trigger] t.0[j]).name) && text_ok(t.0[j].payload),
    decreases s.len() - pos,
{
    if let Some((es, _)) = spec_entry_items(s, pos) {
        lemma_text_wf(s, pos);
        lemma_text_pos(s, pos);
        let (name, pn) = spec_text(s, pos).unwrap();
        lemma_eat_pos(s, pn, 58);
        let pc = spec_eat(s, pn, 58).unwrap();
        lemma_text_wf(s, pc);
        lemma_text_pos(s, pc);
        let (payload, p1) = spec_text(s, pc).unwrap();
        crate::bytes::lemma_skip_ws_ge(s, p1);
        let q = skip_ws(s, p1);
        if q < s.len() && s[q] == 44 {
            let q2 = skip_ws(s, q + 1);
            if q2 < s.len() && s[q2] == 125 {
            } else {
                lemma_entry_items_wf(s, q + 1);
            }
        }
    }
}

pub proof fn lemma_entry_list_wf(s: Seq<u8>, pos: int)
    requires
        0 <= pos,
    ensures
        spec_entry_list(s, pos) matches Some(t) ==> forall|j: int|
            0 <= j < t.0.len() ==> text_ok((#[trigger] t.0[j]).name) && text_ok(t.0[j].payload),
{
    if spec_entry_list(s, pos) is Some {
        lemma_eat_pos(s, pos, 123);
        let p = spec_eat(s, pos, 123).unwrap();
        let q = skip_ws(s, p);
        if !(q < s.len() && s[q] == 125) {
            lemma_entry_items_wf(s, p);
        }
    }
}

pub proof fn lemma_collider_wf(s: Seq<u8>, pos: int)
    requires
        0 <= pos,
    ensures
        spec_collider(s, pos) matches Some(t) ==> t.0.wf(),
{
    if let Some((c, _)) = spec_collider(s, pos) {
        crate::bytes::lemma_skip_ws_ge(s, pos);
        crate::bytes::lemma_ident_end_ge(s, skip_ws(s, pos));
        let (w, e) = spec_ident(s, pos);
        if w == kw_cuboid() {
            lemma_eat_pos(s, e, 40);
            let p0 = spec_eat(s, e, 40).unwrap();
            lemma_vec3_wf(s, p0);
        } else {
            lemma_eat_pos(s, e, 123);
            let p0 = spec_eat(s, e, 123).unwrap();
            crate::bytes::lemma_skip_ws_ge(s, p0);
            crate::bytes::lemma_ident_end_ge(s, skip_ws(s, p0));
            let (w1, e1) = spec_ident(s, p0);
            lemma_eat_pos(s, e1, 58);
            let p1 = spec_eat(s, e1, 58).unwrap();
            lemma_vec3_list_wf(s, p1);
        }
    }
}

/// Every field the parser stores into the partial record is well formed.
pub open spec fn part_wf(part: PartialCellV) -> bool {
    &&& (part.scene matches Some(t) ==> text_ok(t))
    &&& (part.collider matches Some(c) ==> c.wf())
    &&& (part.collider_offset matches Some(v) ==> v.wf())
    &&& (part.scale matches Some(d) ==> d.wf())
    &&& (part.components matches Some(es) ==> forall|j: int|
        0 <= j < es.len() ==> text_ok((#[trigger] es[j]).name) && text_ok(es[j].payload))
}

pub proof fn lemma_field_wf(s: Seq<u8>, pos: int, part: PartialCellV)
    requires
        0 <= pos,
        part_wf(part),
    ensures
        spec_field(s, pos, part) matches Some(t) ==> part_wf(t.0),
{
    if spec_field(s, pos, part) is Some {
        crate::bytes::lemma_skip_ws_ge(s, pos);
        crate::bytes::lemma_ident_end_ge(s, skip_ws(s, pos));
        let (w, e) = spec_ident(s, pos);
        if w == kw_scene() {
            lemma_eat_pos(s, e, 58);
            let p = spec_eat(s, e, 58).unwrap();
            lemma_text_wf(s, p);
        } else if w == kw_collider() {
            lemma_eat_pos(s, e, 58);
            let p = spec_eat(s, e, 58).unwrap();
            lemma_collider_wf(s, p);
        } else if w == kw_collider_offset() {
            lemma_eat_pos(s, e, 58);
            let p = spec_eat(s, e, 58).unwrap();
            lemma_vec3_wf(s, p);
        } else if w == kw_scale() {
            lemma_eat_pos(s, e, 58);
            let p = spec_eat(s, e, 58).unwrap();
            lemma_scalar_wf(s, p);
        } else if w == kw_components() {
            lemma_eat_pos(s, e, 58);
            let p = spec_eat(s, e, 58).unwrap();
            lemma_entry_list_wf(s, p);
        }
    }
}

pub proof fn lemma_fields_wf(s: Seq<u8>, pos: int, part: PartialCellV)
    requires
        0 <= pos,
        part_wf(part),
    ensures
        spec_fields(s, pos, part) matches Some(t) ==> t.0.wf(),
    decreases s.len() - pos,
{
    if spec_fields(s, pos, part) is Some {
        let p = skip_ws(s, pos);
        if p < s.len() && s[p] == 41 {
        } else {
            crate::bytes::lemma_skip_ws_ge(s, pos);
            lemma_field_wf(s, p, part);
            let (part2, p2) = spec_field(s, p, part).unwrap();
            lemma_field_pos(s, p, part);
            crate::bytes::lemma_skip_ws_ge(s, p2);
            let q = skip_ws(s, p2);
            if q < s.len() && s[q] == 44 {
                lemma_fields_wf(s, q + 1, part2);
            }
        }
    }
}

/// Whatever the parser accepts, the record it hands back is well formed: the
/// serializer can always write it again.
pub proof fn lemma_cell_text_wf(s: Seq<u8>)
    ensures
        spec_cell_text(s) matches Some(r) ==> r.wf(),
{
    if spec_cell_text(s) is Some {
        lemma_eat_pos(s, 0, 40);
        let p = spec_eat(s, 0, 40).unwrap();
        lemma_fields_wf(s, p, empty_partial());
    }
}

} // verus!
