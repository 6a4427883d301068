//! A live scene object: the running, mutable instance built from a cell
//! asset.  It carries its visual reference, its physics-body kind, at most
//! one collision shape (on itself or on a single child), its applied
//! attributes keyed by runtime type identity, and the pending-attributes
//! marker.

use vstd::prelude::*;

use crate::record::{BodyKind, Vec3};
use crate::registry::{BoxedAttribute, BoxedAttributeV};
use crate::shape::{Collider, ColliderV};

verus! {

/// The one child node a synchronized object may own: the collision shape,
/// hung at a local offset.
#[derive(Debug)]
pub struct ChildNode {
    pub offset: Vec3,
    pub shape: Collider,
    pub layer: Option<(u32, u32)>,
}

pub struct ChildNodeV {
    pub offset: Vec3,
    pub shape: ColliderV,
    pub layer: Option<(u32, u32)>,
}

impl View for ChildNode {
    type V = ChildNodeV;

    open spec fn view(&self) -> ChildNodeV {
        ChildNodeV { offset: self.offset, shape: self.shape@, layer: self.layer }
    }
}

/// A live object, identified by a stable handle and referencing one cell
/// asset.
#[derive(Debug)]
pub struct LiveObject {
    /// The object's own stable handle.
    pub id: u64,
    /// The identity of the cell asset it references.
    pub asset: u64,
    /// The visual sub-scene reference, once attached.
    pub scene: Option<Vec<u8>>,
    pub body: Option<BodyKind>,
    /// The collision shape attached directly on the object.
    pub shape: Option<Collider>,
    /// The collision-layer masks on the object itself.
    pub layer: Option<(u32, u32)>,
    /// The object's children, replaced wholesale on every synchronization.
    pub children: Vec<ChildNode>,
    /// The pending-attributes marker.
    pub pending: bool,
    /// The applied attributes, at most one per runtime type identity.
    pub attrs: Vec<BoxedAttribute>,
}

pub struct LiveObjectV {
    pub id: u64,
    pub asset: u64,
    pub scene: Option<Seq<u8>>,
    pub body: Option<BodyKind>,
    pub shape: Option<ColliderV>,
    pub layer: Option<(u32, u32)>,
    pub children: Seq<ChildNodeV>,
    pub pending: bool,
    pub attrs: Seq<BoxedAttributeV>,
}

impl View for LiveObject {
    type V = LiveObjectV;

    open spec fn view(&self) -> LiveObjectV {
        LiveObjectV {
            id: self.id,
            asset: self.asset,
            scene: match self.scene {
                Some(ref s) => Some(s@),
                None => None,
            },
            body: self.body,
            shape: match self.shape {
                Some(ref c) => Some(c@),
                None => None,
            },
            layer: self.layer,
            children: self.children@.map_values(|c: ChildNode| c@),
            pending: self.pending,
            attrs: self.attrs@.map_values(|a: BoxedAttribute| a@),
        }
    }
}

impl LiveObjectV {
    /// How many nodes hold a collision shape: the object itself and each
    /// child that carries one.
    pub open spec fn shape_holders(self) -> int {
        (if self.shape is Some {
            1int
        } else {
            0int
        }) + self.children.len()
    }
}

impl LiveObject {
    /// A freshly spawned object referencing a cell asset: no children, no
    /// attached shape, nothing applied yet.
    pub fn spawn(id: u64, asset: u64) -> (r: LiveObject)
        ensures
            r@ == (LiveObjectV {
                id,
                asset,
                scene: None,
                body: None,
                shape: None,
                layer: None,
                children: Seq::empty(),
                pending: false,
                attrs: Seq::empty(),
            }),
    {
        let r = LiveObject {
            id,
            asset,
            scene: None,
            body: None,
            shape: None,
            layer: None,
            children: Vec::new(),
            pending: false,
            attrs: Vec::new(),
        };
        proof {
            assert(r.children@.map_values(|c: ChildNode| c@) =~= Seq::<ChildNodeV>::empty());
            assert(r.attrs@.map_values(|a: BoxedAttribute| a@) =~= Seq::<BoxedAttributeV>::empty());
        }
        r
    }
}

/// The upsert the applier performs: replace the first attribute of the same
/// runtime type identity, or append a fresh one.
pub open spec fn spec_upsert(attrs: Seq<BoxedAttributeV>, a: BoxedAttributeV) -> Seq<
    BoxedAttributeV,
>
    decreases attrs.len(),
{
    if attrs.len() == 0 {
        seq![a]
    } else if attrs[0].type_id == a.type_id {
        seq![a] + attrs.drop_first()
    } else {
        seq![attrs[0]] + spec_upsert(attrs.drop_first(), a)
    }
}

/// When the identity is already present at `i` (and nowhere earlier), the
/// upsert is an in-place update.
pub proof fn lemma_upsert_update(attrs: Seq<BoxedAttributeV>, a: BoxedAttributeV, i: int)
    requires
        0 <= i < attrs.len(),
        attrs[i].type_id == a.type_id,
        forall|j: int| 0 <= j < i ==> (#[trigger] attrs[j]).type_id != a.type_id,
    ensures
        spec_upsert(attrs, a) == attrs.update(i, a),
    decreases attrs.len(),
{
    if i == 0 {
        assert(seq![a] + attrs.drop_first() =~= attrs.update(0, a));
    } else {
        lemma_upsert_update(attrs.drop_first(), a, i - 1);
        assert(seq![attrs[0]] + attrs.drop_first().update(i - 1, a) =~= attrs.update(i, a));
    }
}

/// When the identity is absent, the upsert is an append.
pub proof fn lemma_upsert_push(attrs: Seq<BoxedAttributeV>, a: BoxedAttributeV)
    requires
        forall|j: int| 0 <= j < attrs.len() ==> (#[trigger] attrs[j]).type_id != a.type_id,
    ensures
        spec_upsert(attrs, a) == attrs.push(a),
    decreases attrs.len(),
{
    if attrs.len() == 0 {
        assert(seq![a] =~= attrs.push(a));
    } else {
        lemma_upsert_push(attrs.drop_first(), a);
        assert(seq![attrs[0]] + attrs.drop_first().push(a) =~= attrs.push(a));
    }
}

/// Replace the attribute of the same type identity, or append the new one.
pub fn upsert_attr(attrs: &mut Vec<BoxedAttribute>, a: BoxedAttribute)
    ensures
        final(attrs)@.map_values(|x: BoxedAttribute| x@) == spec_upsert(
            old(attrs)@.map_values(|x: BoxedAttribute| x@),
            a@,
        ),
{
    let ghost av = old(attrs)@.map_values(|x: BoxedAttribute| x@);
    let mut i: usize = 0;
    while i < attrs.len()
        invariant
            0 <= i <= attrs@.len(),
            attrs@.map_values(|x: BoxedAttribute| x@) == av,
            av == old(attrs)@.map_values(|x: BoxedAttribute| x@),
            forall|j: int| 0 <= j < i ==> (#[trigger] av[j]).type_id != a@.type_id,
        decreases attrs@.len() - i,
    {
        proof {
            assert(av[i as int] == attrs@[i as int]@);
        }
        if attrs[i].type_id == a.type_id {
            let ghost aview = a@;
            let slot = &mut attrs[i];
            *slot = a;
            proof {
                assert(attrs@.map_values(|x: BoxedAttribute| x@) =~= av.update(i as int, aview));
                lemma_upsert_update(av, aview, i as int);
            }
            return;
        }
        i += 1;
    }
    let ghost aview = a@;
    attrs.push(a);
    proof {
        assert(attrs@.map_values(|x: BoxedAttribute| x@) =~= av.push(aview));
        lemma_upsert_push(av, aview);
    }
}

} // verus!
