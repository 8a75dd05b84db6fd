//! Errors of a conversion and the context they carry.

use vstd::prelude::*;

use crate::attribute::AttributeType;

verus! {

/// The four entity kinds of a geometry snapshot.
#[derive(Debug, Clone, Copy, PartialEq, Eq, Structural)]
pub enum EntityKind {
    Point,
    Vertex,
    Prim,
    Detail,
}

impl EntityKind {
    /// The name of the entity kind, as used in messages.
    pub fn name(&self) -> (r: &'static str)
        ensures
            r@ == match self {
                EntityKind::Point => "point"@,
                EntityKind::Vertex => "vertex"@,
                EntityKind::Prim => "prim"@,
                EntityKind::Detail => "detail"@,
            },
    {
        match self {
            EntityKind::Point => "point",
            EntityKind::Vertex => "vertex",
            EntityKind::Prim => "prim",
            EntityKind::Detail => "detail",
        }
    }
}

/// Where a decode is happening: which input snapshot and which entity kind.
#[derive(Debug, Clone, Copy, PartialEq, Eq, Structural)]
pub struct ErrContext {
    pub input_index: usize,
    pub entity: EntityKind,
}

/// Everything that can make a conversion fail. Every error is terminal for
/// the conversion it comes from.
#[derive(Debug, Clone, PartialEq, Eq)]
pub enum Error {
    /// The batch of inputs holds no snapshot at all.
    NoGeometry,
    /// The detail collection holds no record and its layout has no default.
    NoDetail,
    /// A column's tuple size differs from the arity the field expects.
    InvalidAttributeLength { expected: usize, actual: usize },
    /// A column is populated with another scalar kind than the field expects.
    InvalidAttributeType { expected: AttributeType, actual: AttributeType },
    /// A column's flat vector is not a whole number of tuples.
    UnevenAttributeData { attr: String, tuple_size: usize, len: usize },
    /// Two columns of one entity collection hold different numbers of tuples.
    RowCountMismatch {
        input_index: usize,
        entity: EntityKind,
        attr: String,
        expected: usize,
        actual: usize,
    },
    /// The requested input slot holds no snapshot.
    GeometryMissing(usize),
    /// A failure raised by the caller, passed through unchanged.
    UserError(String),
    /// A required attribute is absent from its collection.
    MissingAttr { input_index: usize, entity: EntityKind, attr: String },
    /// Output primitives lack the `vertices` pseudo-attribute.
    MissingOutPrimVertices,
    /// Output vertices lack the `ptnum` pseudo-attribute.
    MissingOutVertexPtnums,
    /// The output `ptnum` pseudo-attribute is not of the index kind.
    InvalidOutVertexPtnum,
    /// An output primitive refers to a vertex that does not exist.
    InvalidOutPrimVertex(usize),
    /// A declared attribute uses a name that the assembler reserves.
    AttrNameCollision(&'static str),
}

} // verus!
