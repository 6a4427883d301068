//! The dynamic attribute applier: it drains every live object that carries
//! the pending-attributes marker, applies the asset's boxed attributes in
//! decode order through the registry (an upsert per attribute, by runtime
//! type identity), and removes the marker.  An object whose asset is not
//! resolvable yet is skipped and retried on a later pass, marker intact.

use vstd::prelude::*;

use crate::bytes::copy_range;
use crate::decode::CellV;
use crate::live::{spec_upsert, upsert_attr, LiveObject, LiveObjectV};
use crate::registry::{
    find_id, AttrValue, AttributeRegistry, BoxedAttribute, BoxedAttributeV,
    TypeDescriptorV};
use crate::store::{spec_get, CellStore};

verus! {

impl AttrValue {
    /// A fresh value equal to this one.
    pub fn duplicate(&self) -> (r: AttrValue)
        ensures
            r@ == self@,
    {
        match self {
            AttrValue::Unsigned(n) => AttrValue::Unsigned(*n),
            AttrValue::Scalar(d) => AttrValue::Scalar(*d),
            AttrValue::Text(t) => {
                let copy = copy_range(t, 0, t.len());
                proof {
                    assert(t@.subrange(0, t@.len() as int) =~= t@);
                }
                AttrValue::Text(copy)
            }}
    }
}

impl BoxedAttribute {
    /// A fresh boxed attribute equal to this one.
    pub fn duplicate(&self) -> (r: BoxedAttribute)
        ensures
            r@ == self@,
    {
        let mut values: Vec<AttrValue> = Vec::new();
        let mut i: usize = 0;
        while i < self.values.len()
            invariant
                0 <= i <= self.values@.len(),
                values@.map_values(|v: AttrValue| v@) == self.values@.map_values(
                    |v: AttrValue| v@,
                ).subrange(0, i as int),
            decreases self.values@.len() - i,
        {
            values.push(self.values[i].duplicate());
            proof {
                let m = self.values@.map_values(|v: AttrValue| v@);
                assert(m.subrange(0, (i + 1) as int) =~= m.subrange(0, i as int).push(
                    m[i as int],
                ));
                assert(values@.map_values(|v: AttrValue| v@) =~= m.subrange(0, i as int).push(
                    self.values@[i as int]@,
                ));
            }
            i += 1;
        }
        proof {
            let m = self.values@.map_values(|v: AttrValue| v@);
            assert(m.subrange(0, m.len() as int) =~= m);
        }
        BoxedAttribute { type_id: self.type_id, values }
    }
}

/// The applier's effect on one attribute list: each boxed attribute of the
/// asset, in order, is upserted when the registry still knows its type and
/// skipped otherwise.
pub open spec fn spec_apply_from(
    attrs: Seq<BoxedAttributeV>,
    list: Seq<BoxedAttributeV>,
    reg: Seq<TypeDescriptorV>,
    k: int,
) -> Seq<BoxedAttributeV>
    decreases list.len() - k,
{
    if k < 0 || k >= list.len() {
        attrs
    } else {
        let next = if find_id(reg, list[k].type_id) is Some {
            spec_upsert(attrs, list[k])
        } else {
            attrs
        };
        spec_apply_from(next, list, reg, k + 1)
    }
}

/// Apply a whole attribute list to one object and clear its marker.
///
/// Afterwards the object's attributes are exactly `spec_apply_from` of what
/// they were, the marker is gone, and everything else is untouched.
pub fn apply_attributes(obj: &mut LiveObject, list: &Vec<BoxedAttribute>, reg: &AttributeRegistry)
    ensures
        final(obj)@ == (LiveObjectV {
            pending: false,
            attrs: spec_apply_from(
                old(obj)@.attrs,
                list@.map_values(|a: BoxedAttribute| a@),
                reg@,
                0,
            ),
            ..old(obj)@
        }),
{
    let ghost listv = list@.map_values(|a: BoxedAttribute| a@);
    let ghost orig = obj@.attrs;
    let mut k: usize = 0;
    while k < list.len()
        invariant
            0 <= k <= listv.len(),
            listv == list@.map_values(|a: BoxedAttribute| a@),
            orig == old(obj)@.attrs,
            obj@ == (LiveObjectV { attrs: obj@.attrs, ..old(obj)@ }),
            spec_apply_from(obj@.attrs, listv, reg@, k as int) == spec_apply_from(
                orig,
                listv,
                reg@,
                0,
            ),
        decreases listv.len() - k,
    {
        proof {
            assert(listv[k as int] == list@[k as int]@);
        }
        let known = reg.resolve_by_id(list[k].type_id).is_some();
        if known {
            upsert_attr(&mut obj.attrs, list[k].duplicate());
        }
        k += 1;
    }
    obj.pending = false;
}

/// One applier step on one object, for every store and registry state:
/// with the marker set and the asset resolvable, the attributes are
/// applied and the marker removed; with the asset unresolvable the object
/// is untouched, marker intact, to be retried; without the marker nothing
/// happens.
pub open spec fn spec_apply_one(
    o: LiveObjectV,
    store: Seq<(u64, CellV)>,
    reg: Seq<TypeDescriptorV>,
) -> LiveObjectV {
    if !o.pending {
        o
    } else {
        match spec_get(store, o.asset) {
            None => o,
            Some(c) => LiveObjectV {
                pending: false,
                attrs: spec_apply_from(o.attrs, c.components, reg, 0),
                ..o
            }}
    }
}

/// The applier pass: drain every object carrying the marker whose asset
/// resolves, in place.  Runs strictly after the synchronizer within a
/// cycle.
pub fn add_dynamic_components(
    objects: &mut Vec<LiveObject>,
    store: &CellStore,
    reg: &AttributeRegistry,
)
    ensures
        final(objects)@.len() == old(objects)@.len(),
        forall|i: int|
            0 <= i < old(objects)@.len() ==> (#[trigger] final(objects)@[i])@ == spec_apply_one(
                old(objects)@[i]@,
                store@,
                reg@,
            ),
{
    let mut i: usize = 0;
    while i < objects.len()
        invariant
            0 <= i <= objects@.len(),
            objects@.len() == old(objects)@.len(),
            forall|j: int|
                0 <= j < i ==> (#[trigger] objects@[j])@ == spec_apply_one(
                    old(objects)@[j]@,
                    store@,
                    reg@,
                ),
            forall|j: int| i <= j < objects@.len() ==> objects@[j] == old(objects)@[j],
        decreases objects@.len() - i,
    {
        if objects[i].pending {
            let asset_id = objects[i].asset;
            match store.get(asset_id) {
                Some(cell) => {
                    let obj = &mut objects[i];
                    apply_attributes(obj, &cell.components, reg);
                },
                None => {}}
        }
        i += 1;
    }
}

/// The marker's lifecycle: once its asset is resolvable, an object holding
/// the pending-attributes marker loses it after exactly one applier pass;
/// while the asset is unresolvable the marker is never removed, and the
/// object is left whole for a later pass.
pub proof fn lemma_marker_lifecycle(
    o: LiveObjectV,
    store: Seq<(u64, CellV)>,
    reg: Seq<TypeDescriptorV>,
)
    ensures
        o.pending && spec_get(store, o.asset) is Some ==> !spec_apply_one(o, store, reg).pending,
        o.pending && spec_get(store, o.asset) is None ==> spec_apply_one(o, store, reg) == o,
        !o.pending ==> spec_apply_one(o, store, reg) == o,
{
}

/// The first attribute of the given runtime type identity.
pub open spec fn find_attr(attrs: Seq<BoxedAttributeV>, id: u64) -> Option<BoxedAttributeV>
    decreases attrs.len(),
{
    if attrs.len() == 0 {
        None
    } else if attrs[0].type_id == id {
        Some(attrs[0])
    } else {
        find_attr(attrs.drop_first(), id)
    }
}

/// The identities of an attribute list, in order.
pub open spec fn attr_ids(attrs: Seq<BoxedAttributeV>) -> Seq<u64> {
    attrs.map_values(|a: BoxedAttributeV| a.type_id)
}

/// At most one attribute per identity: what `spawn` gives and every upsert
/// keeps.
pub open spec fn unique_ids(attrs: Seq<BoxedAttributeV>) -> bool {
    forall|i: int, j: int|
        0 <= i < j < attrs.len() ==> (#[trigger] attrs[i]).type_id != (
        #[trigger] attrs[j]).type_id
}

/// An identity is found exactly when it stands in the identity list.
proof fn lemma_find_iff_contains(attrs: Seq<BoxedAttributeV>, id: u64)
    ensures
        find_attr(attrs, id) is Some <==> attr_ids(attrs).contains(id),
    decreases attrs.len(),
{
    if attrs.len() > 0 {
        lemma_find_iff_contains(attrs.drop_first(), id);
        assert(attr_ids(attrs.drop_first()) =~= attr_ids(attrs).drop_first());
        if attrs[0].type_id == id {
            assert(attr_ids(attrs)[0] == id);
        } else {
            if attr_ids(attrs).contains(id) {
                let w = choose|w: int| 0 <= w < attr_ids(attrs).len() && attr_ids(attrs)[w] == id;
                assert(attr_ids(attrs).drop_first()[w - 1] == id);
            }
            if attr_ids(attrs).drop_first().contains(id) {
                let w = choose|w: int|
                    0 <= w < attr_ids(attrs).drop_first().len() && attr_ids(
                        attrs,
                    ).drop_first()[w] == id;
                assert(attr_ids(attrs)[w + 1] == id);
            }
        }
    }
}

/// What an upsert does to the lookup: the new value under its own
/// identity, everything else untouched.
proof fn lemma_upsert_find(attrs: Seq<BoxedAttributeV>, a: BoxedAttributeV, id: u64)
    ensures
        find_attr(spec_upsert(attrs, a), id) == (if id == a.type_id {
            Some(a)
        } else {
            find_attr(attrs, id)
        }),
    decreases attrs.len(),
{
    let up = spec_upsert(attrs, a);
    if attrs.len() == 0 {
        assert(up[0] == a);
        assert(up.drop_first() =~= Seq::<BoxedAttributeV>::empty());
        if id != a.type_id {
            assert(find_attr(up.drop_first(), id) is None);
        }
    } else if attrs[0].type_id == a.type_id {
        assert(up[0] == a);
        assert(up.drop_first() =~= attrs.drop_first());
        if id != a.type_id {
            assert(find_attr(up, id) == find_attr(up.drop_first(), id));
            assert(find_attr(attrs, id) == find_attr(attrs.drop_first(), id));
        }
    } else {
        lemma_upsert_find(attrs.drop_first(), a, id);
        assert(up[0] == attrs[0]);
        assert(up.drop_first() =~= spec_upsert(attrs.drop_first(), a));
        assert(find_attr(up, id) == (if up[0].type_id == id {
            Some(up[0])
        } else {
            find_attr(spec_upsert(attrs.drop_first(), a), id)
        }));
    }
}

/// What an upsert does to the identity list, and that it keeps uniqueness.
proof fn lemma_upsert_ids(attrs: Seq<BoxedAttributeV>, a: BoxedAttributeV)
    requires
        unique_ids(attrs),
    ensures
        attr_ids(spec_upsert(attrs, a)) == (if find_attr(attrs, a.type_id) is Some {
            attr_ids(attrs)
        } else {
            attr_ids(attrs).push(a.type_id)
        }),
        unique_ids(spec_upsert(attrs, a)),
    decreases attrs.len(),
{
    let up = spec_upsert(attrs, a);
    if attrs.len() == 0 {
        assert(attr_ids(up) =~= attr_ids(attrs).push(a.type_id));
    } else if attrs[0].type_id == a.type_id {
        assert(up =~= attrs.update(0, a));
        assert(attr_ids(up) =~= attr_ids(attrs));
        assert forall|i: int, j: int| 0 <= i < j < up.len() implies (#[trigger] up[i]).type_id != (
        #[trigger] up[j]).type_id by {
            assert(up[i].type_id == attrs[i].type_id && up[j].type_id == attrs[j].type_id);
        }
    } else {
        assert(unique_ids(attrs.drop_first())) by {
            assert forall|i: int, j: int|
                0 <= i < j < attrs.drop_first().len() implies (#[trigger] attrs.drop_first()[
            i]).type_id != (#[trigger] attrs.drop_first()[j]).type_id by {
                assert(attrs[i + 1].type_id != attrs[j + 1].type_id);
            }
        }
        lemma_upsert_ids(attrs.drop_first(), a);
        lemma_upsert_find(attrs.drop_first(), a, a.type_id);
        assert(up[0] == attrs[0]);
        assert(up.drop_first() =~= spec_upsert(attrs.drop_first(), a));
        let ups = spec_upsert(attrs.drop_first(), a);
        assert(attr_ids(ups).len() == ups.len());
        assert(attr_ids(attrs.drop_first()).len() == attrs.drop_first().len());
        assert(up.len() == 1 + ups.len());
        if find_attr(attrs, a.type_id) is Some {
            assert(find_attr(attrs.drop_first(), a.type_id) == find_attr(attrs, a.type_id));
            assert(attr_ids(ups) == attr_ids(attrs.drop_first()));
            assert(attr_ids(up) =~= attr_ids(attrs)) by {
                assert forall|w: int| 0 <= w < up.len() implies #[trigger] attr_ids(up)[w]
                    == attr_ids(attrs)[w] by {
                    if w > 0 {
                        assert(up[w] == ups[w - 1]);
                        assert(ups[w - 1].type_id == attr_ids(ups)[w - 1]);
                        assert(attr_ids(attrs.drop_first())[w - 1] == attrs.drop_first()[w
                            - 1].type_id);
                        assert(attrs.drop_first()[w - 1] == attrs[w]);
                    }
                }
            }
        } else {
            assert(find_attr(attrs.drop_first(), a.type_id) == find_attr(attrs, a.type_id));
            assert(attr_ids(ups) == attr_ids(attrs.drop_first()).push(a.type_id));
            assert(attr_ids(up) =~= attr_ids(attrs).push(a.type_id)) by {
                assert forall|w: int| 0 <= w < up.len() implies #[trigger] attr_ids(up)[w]
                    == attr_ids(attrs).push(a.type_id)[w] by {
                    if w > 0 {
                        assert(up[w] == ups[w - 1]);
                        assert(ups[w - 1].type_id == attr_ids(ups)[w - 1]);
                        if w < up.len() - 1 {
                            assert(attr_ids(attrs.drop_first())[w - 1] == attrs.drop_first()[w
                                - 1].type_id);
                            assert(attrs.drop_first()[w - 1] == attrs[w]);
                            assert(attr_ids(attrs)[w] == attrs[w].type_id);
                        } else {
                            assert(attr_ids(ups)[w - 1] == a.type_id);
                        }
                    }
                }
            }
        }
        // Uniqueness of the result, from the identity list just computed.
        lemma_find_iff_contains(attrs, a.type_id);
        assert forall|i: int, j: int| 0 <= i < j < up.len() implies (#[trigger] up[i]).type_id != (
        #[trigger] up[j]).type_id by {
            assert(up[i].type_id == attr_ids(up)[i] && up[j].type_id == attr_ids(up)[j]);
            if find_attr(attrs, a.type_id) is Some {
                assert(attr_ids(up)[i] == attrs[i].type_id && attr_ids(up)[j] == attrs[j].type_id);
            } else {
                if j < up.len() - 1 {
                    assert(attr_ids(up)[i] == attrs[i].type_id && attr_ids(up)[j]
                        == attrs[j].type_id);
                } else {
                    assert(attr_ids(up)[j] == a.type_id);
                    assert(!attr_ids(attrs).contains(a.type_id));
                    assert(attr_ids(up)[i] == attrs[i].type_id);
                    assert(attr_ids(attrs)[i] == attrs[i].type_id);
                }
            }
        }
    }
}

/// Two attribute lists with the same identities, the same lookups and no
/// repeated identity are the same list.
proof fn lemma_attrs_ext(m1: Seq<BoxedAttributeV>, m2: Seq<BoxedAttributeV>)
    requires
        unique_ids(m1),
        unique_ids(m2),
        attr_ids(m1) == attr_ids(m2),
        forall|id: u64| #[trigger] find_attr(m1, id) == find_attr(m2, id),
    ensures
        m1 == m2,
    decreases m1.len(),
{
    assert(m1.len() == attr_ids(m1).len());
    if m1.len() == 0 {
        assert(m1 =~= m2);
    } else {
        let id0 = m1[0].type_id;
        assert(attr_ids(m1)[0] == id0 && attr_ids(m2)[0] == m2[0].type_id);
        assert(m2[0].type_id == id0);
        assert(find_attr(m1, id0) == Some(m1[0]) && find_attr(m2, id0) == Some(m2[0]));
        assert(m1[0] == m2[0]);
        assert(unique_ids(m1.drop_first())) by {
            assert forall|i: int, j: int|
                0 <= i < j < m1.drop_first().len() implies (#[trigger] m1.drop_first()[
            i]).type_id != (#[trigger] m1.drop_first()[j]).type_id by {
                assert(m1[i + 1].type_id != m1[j + 1].type_id);
            }
        }
        assert(unique_ids(m2.drop_first())) by {
            assert forall|i: int, j: int|
                0 <= i < j < m2.drop_first().len() implies (#[trigger] m2.drop_first()[
            i]).type_id != (#[trigger] m2.drop_first()[j]).type_id by {
                assert(m2[i + 1].type_id != m2[j + 1].type_id);
            }
        }
        assert(attr_ids(m1.drop_first()) =~= attr_ids(m1).drop_first());
        assert(attr_ids(m2.drop_first()) =~= attr_ids(m2).drop_first());
        assert forall|id: u64| #[trigger] find_attr(m1.drop_first(), id) == find_attr(
            m2.drop_first(),
            id,
        ) by {
            if id == id0 {
                lemma_find_iff_contains(m1.drop_first(), id);
                lemma_find_iff_contains(m2.drop_first(), id);
                assert forall|w: int|
                    0 <= w < attr_ids(m1.drop_first()).len() implies #[trigger] attr_ids(
                    m1.drop_first(),
                )[w] != id0 by {
                    assert(m1[w + 1].type_id != m1[0].type_id);
                }
                assert(!attr_ids(m1.drop_first()).contains(id0));
                assert forall|w: int|
                    0 <= w < attr_ids(m2.drop_first()).len() implies #[trigger] attr_ids(
                    m2.drop_first(),
                )[w] != id0 by {
                    assert(m2[w + 1].type_id != m2[0].type_id);
                }
                assert(!attr_ids(m2.drop_first()).contains(id0));
            } else {
                assert(find_attr(m1, id) == find_attr(m1.drop_first(), id));
                assert(find_attr(m2, id) == find_attr(m2.drop_first(), id));
            }
        }
        lemma_attrs_ext(m1.drop_first(), m2.drop_first());
        assert forall|w: int| 0 <= w < m1.len() implies m1[w] == m2[w] by {
            if w > 0 {
                assert(m1[w] == m1.drop_first()[w - 1]);
                assert(m2[w] == m2.drop_first()[w - 1]);
            }
        }
        assert(m1 =~= m2);
    }
}

/// The value the suffix `list[k..]` leaves under `id`: the last entry of
/// that identity the registry still knows, if any.
pub open spec fn last_val(
    list: Seq<BoxedAttributeV>,
    reg: Seq<TypeDescriptorV>,
    k: int,
    id: u64,
) -> Option<BoxedAttributeV>
    decreases list.len() - k,
{
    if k < 0 || k >= list.len() {
        None
    } else {
        match last_val(list, reg, k + 1, id) {
            Some(v) => Some(v),
            None => {
                if list[k].type_id == id && find_id(reg, id) is Some {
                    Some(list[k])
                } else {
                    None
                }
            }}
    }
}

/// What applying a list leaves under each identity.
proof fn lemma_apply_find(
    attrs: Seq<BoxedAttributeV>,
    list: Seq<BoxedAttributeV>,
    reg: Seq<TypeDescriptorV>,
    k: int,
    id: u64,
)
    ensures
        find_attr(spec_apply_from(attrs, list, reg, k), id) == (match last_val(list, reg, k, id) {
            Some(v) => Some(v),
            None => find_attr(attrs, id),
        }),
    decreases list.len() - k,
{
    if 0 <= k < list.len() {
        let next = if find_id(reg, list[k].type_id) is Some {
            spec_upsert(attrs, list[k])
        } else {
            attrs
        };
        lemma_apply_find(next, list, reg, k + 1, id);
        if find_id(reg, list[k].type_id) is Some {
            lemma_upsert_find(attrs, list[k], id);
        }
    }
}

/// Applying a list never loses an identity.
proof fn lemma_apply_keeps(
    attrs: Seq<BoxedAttributeV>,
    list: Seq<BoxedAttributeV>,
    reg: Seq<TypeDescriptorV>,
    k: int,
    id: u64,
)
    requires
        find_attr(attrs, id) is Some,
    ensures
        find_attr(spec_apply_from(attrs, list, reg, k), id) is Some,
    decreases list.len() - k,
{
    if 0 <= k < list.len() {
        let next = if find_id(reg, list[k].type_id) is Some {
            spec_upsert(attrs, list[k])
        } else {
            attrs
        };
        if find_id(reg, list[k].type_id) is Some {
            lemma_upsert_find(attrs, list[k], id);
        }
        lemma_apply_keeps(next, list, reg, k + 1, id);
    }
}

/// After one whole pass, every identity the registry knows from the list
/// is present.
proof fn lemma_apply_has(
    attrs: Seq<BoxedAttributeV>,
    list: Seq<BoxedAttributeV>,
    reg: Seq<TypeDescriptorV>,
    k: int,
    j: int,
)
    requires
        k <= j < list.len(),
        0 <= k,
        find_id(reg, list[j].type_id) is Some,
    ensures
        find_attr(spec_apply_from(attrs, list, reg, k), list[j].type_id) is Some,
    decreases list.len() - k,
{
    let next = if find_id(reg, list[k].type_id) is Some {
        spec_upsert(attrs, list[k])
    } else {
        attrs
    };
    if j == k {
        lemma_upsert_find(attrs, list[k], list[k].type_id);
        lemma_apply_keeps(next, list, reg, k + 1, list[k].type_id);
    } else {
        lemma_apply_has(next, list, reg, k + 1, j);
    }
}

/// Applying a list whose known identities are all present changes no
/// identity list, and keeps uniqueness.
proof fn lemma_apply_ids_closed(
    attrs: Seq<BoxedAttributeV>,
    list: Seq<BoxedAttributeV>,
    reg: Seq<TypeDescriptorV>,
    k: int,
)
    requires
        unique_ids(attrs),
        forall|j: int|
            k <= j < list.len() && find_id(reg, (#[trigger] list[j]).type_id) is Some
                ==> find_attr(attrs, list[j].type_id) is Some,
    ensures
        attr_ids(spec_apply_from(attrs, list, reg, k)) == attr_ids(attrs),
        unique_ids(spec_apply_from(attrs, list, reg, k)),
    decreases list.len() - k,
{
    if 0 <= k < list.len() {
        if find_id(reg, list[k].type_id) is Some {
            let next = spec_upsert(attrs, list[k]);
            lemma_upsert_ids(attrs, list[k]);
            assert forall|j: int|
                k + 1 <= j < list.len() && find_id(reg, (#[trigger] list[j]).type_id)
                    is Some implies find_attr(next, list[j].type_id) is Some by {
                lemma_upsert_find(attrs, list[k], list[j].type_id);
            }
            lemma_apply_ids_closed(next, list, reg, k + 1);
        } else {
            lemma_apply_ids_closed(attrs, list, reg, k + 1);
        }
    }
}

/// Applying a list keeps uniqueness of identities.
proof fn lemma_apply_unique(
    attrs: Seq<BoxedAttributeV>,
    list: Seq<BoxedAttributeV>,
    reg: Seq<TypeDescriptorV>,
    k: int,
)
    requires
        unique_ids(attrs),
    ensures
        unique_ids(spec_apply_from(attrs, list, reg, k)),
    decreases list.len() - k,
{
    if 0 <= k < list.len() {
        if find_id(reg, list[k].type_id) is Some {
            lemma_upsert_ids(attrs, list[k]);
            lemma_apply_unique(spec_upsert(attrs, list[k]), list, reg, k + 1);
        } else {
            lemma_apply_unique(attrs, list, reg, k + 1);
        }
    }
}

/// Applying an asset's attribute list twice in succession leaves the
/// attributes exactly as applying it once: the upsert per attribute makes
/// the whole pass idempotent, provided the object held at most one
/// attribute per identity, as every object the pipeline builds does.
pub proof fn lemma_apply_idempotent(
    attrs: Seq<BoxedAttributeV>,
    list: Seq<BoxedAttributeV>,
    reg: Seq<TypeDescriptorV>,
)
    requires
        unique_ids(attrs),
    ensures
        spec_apply_from(spec_apply_from(attrs, list, reg, 0), list, reg, 0) == spec_apply_from(
            attrs,
            list,
            reg,
            0,
        ),
{
    let m1 = spec_apply_from(attrs, list, reg, 0);
    let m2 = spec_apply_from(m1, list, reg, 0);
    lemma_apply_unique(attrs, list, reg, 0);
    assert forall|j: int|
        0 <= j < list.len() && find_id(reg, (#[trigger] list[j]).type_id) is Some implies find_attr(
        m1,
        list[j].type_id,
    ) is Some by {
        lemma_apply_has(attrs, list, reg, 0, j);
    }
    lemma_apply_ids_closed(m1, list, reg, 0);
    assert forall|id: u64| #[trigger] find_attr(m2, id) == find_attr(m1, id) by {
        lemma_apply_find(m1, list, reg, 0, id);
        lemma_apply_find(attrs, list, reg, 0, id);
    }
    lemma_attrs_ext(m2, m1);
}

/// A second applier pass with no asset change in between is a no-op on the
/// whole object: the first pass removed the marker, so the second finds
/// nothing to do.
pub proof fn lemma_apply_one_idempotent(
    o: LiveObjectV,
    store: Seq<(u64, CellV)>,
    reg: Seq<TypeDescriptorV>,
)
    ensures
        spec_apply_one(spec_apply_one(o, store, reg), store, reg) == spec_apply_one(o, store, reg),
{
}

} // verus!
