//! The attribute registry: the process-wide catalogue mapping attribute
//! type names to descriptors that can decode a payload and later apply the
//! decoded value to a live object.  It is populated at startup and only read
//! afterwards; decoding resolves a name first against the short and then
//! against the fully-qualified form.

use vstd::prelude::*;

use crate::bytes::{skip_ws, skip_ws_from};
use crate::dec::Dec;
use crate::parse::{eat, parse_scalar, parse_text, parse_uint_ws, spec_eat,
    spec_scalar, spec_text, spec_uint_ws};

verus! {

/// What one field of an attribute payload may be.
#[derive(Clone, Copy, Debug, PartialEq, Eq, Structural)]
pub enum PayloadKind {
    Unsigned,
    Scalar,
    Text,
}

/// One decoded payload field.
#[derive(Clone, Debug, PartialEq)]
pub enum AttrValue {
    Unsigned(u64),
    Scalar(Dec),
    Text(Vec<u8>),
}

pub enum AttrValueV {
    Unsigned(u64),
    Scalar(Dec),
    Text(Seq<u8>),
}

impl View for AttrValue {
    type V = AttrValueV;

    open spec fn view(&self) -> AttrValueV {
        match self {
            AttrValue::Unsigned(n) => AttrValueV::Unsigned(*n),
            AttrValue::Scalar(d) => AttrValueV::Scalar(*d),
            AttrValue::Text(t) => AttrValueV::Text(t@),
        }
    }
}

/// A registered attribute type: both name forms, its runtime identity, and
/// the shape of the payload it deserializes (a tuple of plain fields).
#[derive(Clone, Debug, PartialEq)]
pub struct TypeDescriptor {
    pub short_name: Vec<u8>,
    pub full_name: Vec<u8>,
    pub type_id: u64,
    pub deserializable: bool,
    pub schema: Vec<PayloadKind>,
}

pub struct TypeDescriptorV {
    pub short_name: Seq<u8>,
    pub full_name: Seq<u8>,
    pub type_id: u64,
    pub deserializable: bool,
    pub schema: Seq<PayloadKind>,
}

impl View for TypeDescriptor {
    type V = TypeDescriptorV;

    open spec fn view(&self) -> TypeDescriptorV {
        TypeDescriptorV {
            short_name: self.short_name@,
            full_name: self.full_name@,
            type_id: self.type_id,
            deserializable: self.deserializable,
            schema: self.schema@,
        }
    }
}

/// A decoded, type-erased attribute: the runtime identity of its type and
/// the decoded payload fields, ready to be applied to a live object.
#[derive(Clone, Debug, PartialEq)]
pub struct BoxedAttribute {
    pub type_id: u64,
    pub values: Vec<AttrValue>,
}

pub struct BoxedAttributeV {
    pub type_id: u64,
    pub values: Seq<AttrValueV>,
}

impl View for BoxedAttribute {
    type V = BoxedAttributeV;

    open spec fn view(&self) -> BoxedAttributeV {
        BoxedAttributeV {
            type_id: self.type_id,
            values: self.values@.map_values(|v: AttrValue| v@),
        }
    }
}

/// Why one attribute entry was skipped.
#[derive(Clone, Copy, Debug, PartialEq, Eq, Structural)]
pub enum AttributeError {
    UnknownAttributeType,
    NotDeserializable,
    PayloadMismatch,
}

/// The registry itself: a list of descriptors with distinct identities.
pub struct AttributeRegistry {
    pub entries: Vec<TypeDescriptor>,
}

impl View for AttributeRegistry {
    type V = Seq<TypeDescriptorV>;

    open spec fn view(&self) -> Seq<TypeDescriptorV> {
        self.entries@.map_values(|d: TypeDescriptor| d@)
    }
}

/// The first descriptor whose short name is `name`.
pub open spec fn find_short(reg: Seq<TypeDescriptorV>, name: Seq<u8>) -> Option<TypeDescriptorV>
    decreases reg.len(),
{
    if reg.len() == 0 {
        None
    } else if reg[0].short_name == name {
        Some(reg[0])
    } else {
        find_short(reg.drop_first(), name)
    }
}

/// The first descriptor whose fully-qualified name is `name`.
pub open spec fn find_full(reg: Seq<TypeDescriptorV>, name: Seq<u8>) -> Option<TypeDescriptorV>
    decreases reg.len(),
{
    if reg.len() == 0 {
        None
    } else if reg[0].full_name == name {
        Some(reg[0])
    } else {
        find_full(reg.drop_first(), name)
    }
}

/// Resolution order: the short name first, then the fully-qualified name.
pub open spec fn spec_resolve(reg: Seq<TypeDescriptorV>, name: Seq<u8>) -> Option<
    TypeDescriptorV,
> {
    match find_short(reg, name) {
        Some(d) => Some(d),
        None => find_full(reg, name),
    }
}

/// The first descriptor with the given runtime identity.
pub open spec fn find_id(reg: Seq<TypeDescriptorV>, id: u64) -> Option<TypeDescriptorV>
    decreases reg.len(),
{
    if reg.len() == 0 {
        None
    } else if reg[0].type_id == id {
        Some(reg[0])
    } else {
        find_id(reg.drop_first(), id)
    }
}

impl AttributeRegistry {
    /// An empty catalogue, as the process starts.
    pub fn new() -> (r: AttributeRegistry)
        ensures
            r@ == Seq::<TypeDescriptorV>::empty(),
    {
        let r = AttributeRegistry { entries: Vec::new() };
        proof {
            assert(r@ =~= Seq::<TypeDescriptorV>::empty());
        }
        r
    }

    /// Register one attribute type.  Only to be called during startup,
    /// before any cell file is decoded: the pipeline reads the registry and
    /// never writes it.
    pub fn register(&mut self, d: TypeDescriptor)
        ensures
            final(self)@ == old(self)@.push(d@),
    {
        self.entries.push(d);
        proof {
            assert(self@ =~= old(self)@.push(d@));
        }
    }

    /// Resolve a type name: the short form first, then the full form.
    pub fn resolve(&self, name: &Vec<u8>) -> (r: Option<&TypeDescriptor>)
        ensures
            match r {
                Some(d) => spec_resolve(self@, name@) == Some(d@),
                None => spec_resolve(self@, name@) is None,
            },
    {
        let mut i: usize = 0;
        proof {
            assert(self@.skip(0) =~= self@);
        }
        while i < self.entries.len()
            invariant
                0 <= i <= self.entries@.len(),
                find_short(self@.skip(i as int), name@) == find_short(self@, name@),
            decreases self.entries@.len() - i,
        {
            proof {
                assert(self@.skip(i as int).len() > 0);
                assert(self@.skip(i as int)[0] == self@[i as int]);
                assert(self@.skip(i as int).drop_first() =~= self@.skip(i + 1));
            }
            if crate::bytes::vec_eq(&self.entries[i].short_name, name) {
                proof {
                    assert(self.entries@[i as int]@ == self@[i as int]);
                }
                return Some(&self.entries[i]);
            }
            i += 1;
        }
        proof {
            assert(self@.skip(i as int) =~= Seq::<TypeDescriptorV>::empty());
        }
        let mut k: usize = 0;
        proof {
            assert(self@.skip(0) =~= self@);
        }
        while k < self.entries.len()
            invariant
                0 <= k <= self.entries@.len(),
                find_short(self@, name@) is None,
                find_full(self@.skip(k as int), name@) == find_full(self@, name@),
            decreases self.entries@.len() - k,
        {
            proof {
                assert(self@.skip(k as int).len() > 0);
                assert(self@.skip(k as int)[0] == self@[k as int]);
                assert(self@.skip(k as int).drop_first() =~= self@.skip(k + 1));
            }
            if crate::bytes::vec_eq(&self.entries[k].full_name, name) {
                proof {
                    assert(self.entries@[k as int]@ == self@[k as int]);
                }
                return Some(&self.entries[k]);
            }
            k += 1;
        }
        proof {
            assert(self@.skip(k as int) =~= Seq::<TypeDescriptorV>::empty());
        }
        None
    }

    /// Look a descriptor up by runtime identity, as the applier does.
    pub fn resolve_by_id(&self, id: u64) -> (r: Option<&TypeDescriptor>)
        ensures
            match r {
                Some(d) => find_id(self@, id) == Some(d@),
                None => find_id(self@, id) is None,
            },
    {
        let mut i: usize = 0;
        proof {
            assert(self@.skip(0) =~= self@);
        }
        while i < self.entries.len()
            invariant
                0 <= i <= self.entries@.len(),
                find_id(self@.skip(i as int), id) == find_id(self@, id),
            decreases self.entries@.len() - i,
        {
            proof {
                assert(self@.skip(i as int).len() > 0);
                assert(self@.skip(i as int)[0] == self@[i as int]);
                assert(self@.skip(i as int).drop_first() =~= self@.skip(i + 1));
            }
            if self.entries[i].type_id == id {
                proof {
                    assert(self.entries@[i as int]@ == self@[i as int]);
                }
                return Some(&self.entries[i]);
            }
            i += 1;
        }
        proof {
            assert(self@.skip(i as int) =~= Seq::<TypeDescriptorV>::empty());
        }
        None
    }
}

/// One payload field of the given kind.
pub open spec fn spec_payload_value(s: Seq<u8>, pos: int, kind: PayloadKind) -> Option<
    (AttrValueV, int),
> {
    match kind {
        PayloadKind::Unsigned => match spec_uint_ws(s, pos, u64::MAX) {
            Some((n, p)) => Some((AttrValueV::Unsigned(n), p)),
            None => None,
        },
        PayloadKind::Scalar => match spec_scalar(s, pos) {
            Some((d, p)) => Some((AttrValueV::Scalar(d), p)),
            None => None,
        },
        PayloadKind::Text => match spec_text(s, pos) {
            Some((t, p)) => Some((AttrValueV::Text(t), p)),
            None => None,
        }
    }
}

/// The payload fields from schema position `k` on, comma-separated.
pub open spec fn spec_payload_fields(
    s: Seq<u8>,
    pos: int,
    schema: Seq<PayloadKind>,
    k: int,
) -> Option<(Seq<AttrValueV>, int)>
    decreases schema.len() - k,
{
    if k >= schema.len() {
        Some((Seq::empty(), pos))
    } else {
        let pre = if k > 0 {
            spec_eat(s, pos, 44)
        } else {
            Some(pos)
        };
        match pre {
            None => None,
            Some(p) => match spec_payload_value(s, p, schema[k]) {
                None => None,
                Some((v, p2)) => match spec_payload_fields(s, p2, schema, k + 1) {
                    None => None,
                    Some((rest, p3)) => Some((seq![v] + rest, p3)),
                }
            }
        }
    }
}

/// A whole payload: a parenthesized tuple matching the schema, and nothing
/// but whitespace after it.
pub open spec fn spec_payload(schema: Seq<PayloadKind>, s: Seq<u8>) -> Option<Seq<AttrValueV>> {
    match spec_eat(s, 0, 40) {
        None => None,
        Some(p) => match spec_payload_fields(s, p, schema, 0) {
            None => None,
            Some((vals, p2)) => {
                let p3 = skip_ws(s, p2);
                if p3 < s.len() && s[p3] == 41 && skip_ws(s, p3 + 1) == s.len() {
                    Some(vals)
                } else {
                    None
                }
            }}}
}

fn parse_payload_value(s: &Vec<u8>, pos: usize, kind: PayloadKind) -> (r: Option<
    (AttrValue, usize),
>)
    requires
        pos <= s.len(),
    ensures
        r matches Some(t) ==> spec_payload_value(s@, pos as int, kind) == Some((t.0@, t.1 as int)),
        r is None ==> spec_payload_value(s@, pos as int, kind) is None,
        r matches Some(t) ==> pos < t.1 <= s.len(),
{
    match kind {
        PayloadKind::Unsigned => match parse_uint_ws(s, pos, u64::MAX) {
            Some((n, p)) => Some((AttrValue::Unsigned(n), p)),
            None => None,
        },
        PayloadKind::Scalar => match parse_scalar(s, pos) {
            Some((d, p)) => Some((AttrValue::Scalar(d), p)),
            None => None,
        },
        PayloadKind::Text => match parse_text(s, pos) {
            Some((t, p)) => Some((AttrValue::Text(t), p)),
            None => None,
        }
    }
}

fn parse_payload_fields(s: &Vec<u8>, pos: usize, schema: &Vec<PayloadKind>, k: usize) -> (r:
    Option<(Vec<AttrValue>, usize)>)
    requires
        pos <= s.len(),
        k <= schema.len(),
    ensures
        r matches Some(t) ==> spec_payload_fields(s@, pos as int, schema@, k as int) == Some(
            (t.0@.map_values(|v: AttrValue| v@), t.1 as int),
        ),
        r is None ==> spec_payload_fields(s@, pos as int, schema@, k as int) is None,
        r matches Some(t) ==> pos <= t.1 <= s.len(),
    decreases schema.len() - k,
{
    if k >= schema.len() {
        let empty: Vec<AttrValue> = Vec::new();
        proof {
            assert(empty@.map_values(|v: AttrValue| v@) =~= Seq::<AttrValueV>::empty());
        }
        Some((empty, pos))
    } else {
        let pre: Option<usize> = if k > 0 {
            eat(s, pos, 44)
        } else {
            Some(pos)
        };
        match pre {
            None => None,
            Some(p) => match parse_payload_value(s, p, schema[k]) {
                None => None,
                Some((v, p2)) => match parse_payload_fields(s, p2, schema, k + 1) {
                    None => None,
                    Some((mut rest, p3)) => {
                        rest.insert(0, v);
                        proof {
                            assert(rest@.map_values(|v2: AttrValue| v2@) =~= seq![
                                spec_payload_value(s@, p as int, schema@[k as int]).unwrap().0,
                            ] + spec_payload_fields(s@, p2 as int, schema@, k + 1).unwrap().0);
                        }
                        Some((rest, p3))
                    }}}}
    }
}

/// Deserialize one payload against a schema, as a registered descriptor
/// does.
pub fn parse_payload(schema: &Vec<PayloadKind>, s: &Vec<u8>) -> (r: Option<Vec<AttrValue>>)
    ensures
        r matches Some(vals) ==> spec_payload(schema@, s@) == Some(
            vals@.map_values(|v: AttrValue| v@),
        ),
        r is None ==> spec_payload(schema@, s@) is None,
{
    match eat(s, 0, 40) {
        None => None,
        Some(p) => match parse_payload_fields(s, p, schema, 0) {
            None => None,
            Some((vals, p2)) => {
                let p3 = skip_ws_from(s, p2);
                if p3 < s.len() && s[p3] == 41 && skip_ws_from(s, p3 + 1) == s.len() {
                    Some(vals)
                } else {
                    None
                }
            }}}
}

/// What attribute decoding returns for every name and payload: resolution
/// against both name forms, then the descriptor's own deserialization.
pub open spec fn spec_decode_attribute(
    reg: Seq<TypeDescriptorV>,
    name: Seq<u8>,
    payload: Seq<u8>,
) -> Result<BoxedAttributeV, AttributeError> {
    match spec_resolve(reg, name) {
        None => Err(AttributeError::UnknownAttributeType),
        Some(d) => {
            if !d.deserializable {
                Err(AttributeError::NotDeserializable)
            } else {
                match spec_payload(d.schema, payload) {
                    None => Err(AttributeError::PayloadMismatch),
                    Some(vals) => Ok(BoxedAttributeV { type_id: d.type_id, values: vals })
            }
            }
        }}
}

/// Decode one named attribute: `UnknownAttributeType` when neither name
/// form resolves, `NotDeserializable` when the descriptor cannot
/// deserialize, `PayloadMismatch` when the payload does not fit the
/// descriptor's shape, and the boxed attribute otherwise.
pub fn decode_attribute(reg: &AttributeRegistry, name: &Vec<u8>, payload: &Vec<u8>) -> (r: Result<
    BoxedAttribute,
    AttributeError,
>)
    ensures
        match r {
            Ok(a) => spec_decode_attribute(reg@, name@, payload@) == Ok::<
                BoxedAttributeV,
                AttributeError,
            >(a@),
            Err(e) => spec_decode_attribute(reg@, name@, payload@) == Err::<
                BoxedAttributeV,
                AttributeError,
            >(e),
        },
{
    match reg.resolve(name) {
        None => Err(AttributeError::UnknownAttributeType),
        Some(d) => {
            if !d.deserializable {
                Err(AttributeError::NotDeserializable)
            } else {
                match parse_payload(&d.schema, payload) {
                    None => Err(AttributeError::PayloadMismatch),
                    Some(vals) => Ok(BoxedAttribute { type_id: d.type_id, values: vals })
            }
            }
        }}
}

} // verus!
