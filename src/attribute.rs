//! The column model: scalar kinds, tagged flat vectors and named columns.

use vstd::prelude::*;

use crate::error::Error;

verus! {

/// The scalar kind that populates a column.
#[derive(Debug, Clone, Copy, PartialEq, Eq, Structural)]
pub enum AttributeType {
    Float,
    FloatArray,
    Int,
    IntArray,
    String,
    StringArray,
    Index,
    PrimVertex,
}

impl AttributeType {
    /// The wire name of the kind.
    pub open spec fn spec_name(self) -> Seq<char> {
        match self {
            AttributeType::Float => "float"@,
            AttributeType::FloatArray => "float_array"@,
            AttributeType::Int => "int"@,
            AttributeType::IntArray => "int_array"@,
            AttributeType::String => "string"@,
            AttributeType::StringArray => "string_array"@,
            AttributeType::Index => "index"@,
            AttributeType::PrimVertex => "prim_vertex"@,
        }
    }

    /// The wire name of the kind, as it appears in the serialized format.
    pub fn name(&self) -> (r: &'static str)
        ensures
            r@ == self.spec_name(),
    {
        match self {
            AttributeType::Float => "float",
            AttributeType::FloatArray => "float_array",
            AttributeType::Int => "int",
            AttributeType::IntArray => "int_array",
            AttributeType::String => "string",
            AttributeType::StringArray => "string_array",
            AttributeType::Index => "index",
            AttributeType::PrimVertex => "prim_vertex",
        }
    }
}


/// One scalar of a column, as seen by specifications. Single-precision floats
/// are held by their IEEE-754 bit patterns: the transcoder moves them and never
/// computes with them.
pub enum Scalar {
    Float(u32),
    FloatArray(Seq<u32>),
    Int(i32),
    IntArray(Seq<i32>),
    String(Seq<char>),
    StringArray(Seq<Seq<char>>),
    Index(usize),
    PrimVertex(Seq<usize>),
}

pub open spec fn strings_view(v: Vec<String>) -> Seq<Seq<char>> {
    v@.map_values(|s: String| s@)
}

/// The mathematical model of a tagged flat vector: its kind and its scalars.
#[verifier::ext_equal]
pub struct AttrValues {
    pub kind: AttributeType,
    pub items: Seq<Scalar>,
}

impl AttrValues {
    pub open spec fn empty(kind: AttributeType) -> AttrValues {
        AttrValues { kind, items: Seq::empty() }
    }

    pub open spec fn len(self) -> nat {
        self.items.len()
    }

    pub open spec fn subrange(self, lo: int, hi: int) -> AttrValues {
        AttrValues { kind: self.kind, items: self.items.subrange(lo, hi) }
    }

    pub open spec fn concat(self, other: AttrValues) -> AttrValues {
        AttrValues { kind: self.kind, items: self.items + other.items }
    }
}

pub proof fn lemma_map_subrange<A, B>(s: Seq<A>, f: spec_fn(A) -> B, lo: int, hi: int)
    requires
        0 <= lo <= hi <= s.len(),
    ensures
        s.subrange(lo, hi).map_values(f) == s.map_values(f).subrange(lo, hi),
{
    assert(s.subrange(lo, hi).map_values(f) =~= s.map_values(f).subrange(lo, hi));
}

pub proof fn lemma_map_add<A, B>(s: Seq<A>, t: Seq<A>, f: spec_fn(A) -> B)
    ensures
        (s + t).map_values(f) == s.map_values(f) + t.map_values(f),
{
    assert((s + t).map_values(f) =~= s.map_values(f) + t.map_values(f));
}

/// A homogeneous flat vector of one scalar kind.
#[derive(Debug, Clone, PartialEq)]
pub enum RawAttributeData {
    /// Single-precision floats, by their IEEE-754 bit patterns.
    Float(Vec<u32>),
    /// Variable-length arrays of single-precision floats, by bit pattern.
    FloatArray(Vec<Vec<u32>>),
    Int(Vec<i32>),
    IntArray(Vec<Vec<i32>>),
    String(Vec<String>),
    StringArray(Vec<Vec<String>>),
    /// References to points.
    Index(Vec<usize>),
    /// Per-primitive lists of vertex indices.
    PrimVertex(Vec<Vec<usize>>),
}

impl View for RawAttributeData {
    type V = AttrValues;

    open spec fn view(&self) -> AttrValues {
        match self {
            RawAttributeData::Float(v) => AttrValues {
                kind: AttributeType::Float,
                items: v@.map_values(|x: u32| Scalar::Float(x)),
            },
            RawAttributeData::FloatArray(v) => AttrValues {
                kind: AttributeType::FloatArray,
                items: v@.map_values(|x: Vec<u32>| Scalar::FloatArray(x@)),
            },
            RawAttributeData::Int(v) => AttrValues {
                kind: AttributeType::Int,
                items: v@.map_values(|x: i32| Scalar::Int(x)),
            },
            RawAttributeData::IntArray(v) => AttrValues {
                kind: AttributeType::IntArray,
                items: v@.map_values(|x: Vec<i32>| Scalar::IntArray(x@)),
            },
            RawAttributeData::String(v) => AttrValues {
                kind: AttributeType::String,
                items: v@.map_values(|x: String| Scalar::String(x@)),
            },
            RawAttributeData::StringArray(v) => AttrValues {
                kind: AttributeType::StringArray,
                items: v@.map_values(|x: Vec<String>| Scalar::StringArray(strings_view(x))),
            },
            RawAttributeData::Index(v) => AttrValues {
                kind: AttributeType::Index,
                items: v@.map_values(|x: usize| Scalar::Index(x)),
            },
            RawAttributeData::PrimVertex(v) => AttrValues {
                kind: AttributeType::PrimVertex,
                items: v@.map_values(|x: Vec<usize>| Scalar::PrimVertex(x@)),
            },
        }
    }
}

impl RawAttributeData {
    /// The number of scalars.
    pub fn len(&self) -> (r: usize)
        ensures
            r == self@.len(),
    {
        match self {
            RawAttributeData::Float(v) => v.len(),
            RawAttributeData::FloatArray(v) => v.len(),
            RawAttributeData::Int(v) => v.len(),
            RawAttributeData::IntArray(v) => v.len(),
            RawAttributeData::String(v) => v.len(),
            RawAttributeData::StringArray(v) => v.len(),
            RawAttributeData::Index(v) => v.len(),
            RawAttributeData::PrimVertex(v) => v.len(),
        }
    }

    pub fn is_empty(&self) -> (r: bool)
        ensures
            r == (self@.len() == 0),
    {
        self.len() == 0
    }

    /// The scalar kind that populates the vector.
    pub fn kind(&self) -> (r: AttributeType)
        ensures
            r == self@.kind,
    {
        match self {
            RawAttributeData::Float(_) => AttributeType::Float,
            RawAttributeData::FloatArray(_) => AttributeType::FloatArray,
            RawAttributeData::Int(_) => AttributeType::Int,
            RawAttributeData::IntArray(_) => AttributeType::IntArray,
            RawAttributeData::String(_) => AttributeType::String,
            RawAttributeData::StringArray(_) => AttributeType::StringArray,
            RawAttributeData::Index(_) => AttributeType::Index,
            RawAttributeData::PrimVertex(_) => AttributeType::PrimVertex,
        }
    }

    /// An empty vector of the given kind.
    pub fn with_kind(kind: AttributeType) -> (r: RawAttributeData)
        ensures
            r@ == AttrValues::empty(kind),
    {
        let r = match kind {
            AttributeType::Float => RawAttributeData::Float(Vec::new()),
            AttributeType::FloatArray => RawAttributeData::FloatArray(Vec::new()),
            AttributeType::Int => RawAttributeData::Int(Vec::new()),
            AttributeType::IntArray => RawAttributeData::IntArray(Vec::new()),
            AttributeType::String => RawAttributeData::String(Vec::new()),
            AttributeType::StringArray => RawAttributeData::StringArray(Vec::new()),
            AttributeType::Index => RawAttributeData::Index(Vec::new()),
            AttributeType::PrimVertex => RawAttributeData::PrimVertex(Vec::new()),
        };
        assert(r@.items =~= Seq::<Scalar>::empty());
        r
    }

    /// The error for a vector that is not of the `expected` kind.
    fn err<T>(&self, expected: AttributeType) -> (r: Result<T, Error>)
        ensures
            r == Err::<T, Error>(Error::InvalidAttributeType { expected, actual: self@.kind }),
    {
        Err(Error::InvalidAttributeType { expected, actual: self.kind() })
    }

    pub fn float(self) -> (r: Result<Vec<u32>, Error>)
        ensures
            self is Float ==> r == Ok::<Vec<u32>, Error>(self->Float_0),
            !(self is Float) ==> r == Err::<Vec<u32>, Error>(
                Error::InvalidAttributeType { expected: AttributeType::Float, actual: self@.kind },
            ),
    {
        match self {
            RawAttributeData::Float(v) => Ok(v),
            other => other.err(AttributeType::Float),
        }
    }

    pub fn float_array(self) -> (r: Result<Vec<Vec<u32>>, Error>)
        ensures
            self is FloatArray ==> r == Ok::<Vec<Vec<u32>>, Error>(self->FloatArray_0),
            !(self is FloatArray) ==> r == Err::<Vec<Vec<u32>>, Error>(
                Error::InvalidAttributeType {
                    expected: AttributeType::FloatArray,
                    actual: self@.kind,
                },
            ),
    {
        match self {
            RawAttributeData::FloatArray(v) => Ok(v),
            other => other.err(AttributeType::FloatArray),
        }
    }

    pub fn int_values(self) -> (r: Result<Vec<i32>, Error>)
        ensures
            self is Int ==> r == Ok::<Vec<i32>, Error>(self->Int_0),
            !(self is Int) ==> r == Err::<Vec<i32>, Error>(
                Error::InvalidAttributeType { expected: AttributeType::Int, actual: self@.kind },
            ),
    {
        match self {
            RawAttributeData::Int(v) => Ok(v),
            other => other.err(AttributeType::Int),
        }
    }

    pub fn int_array(self) -> (r: Result<Vec<Vec<i32>>, Error>)
        ensures
            self is IntArray ==> r == Ok::<Vec<Vec<i32>>, Error>(self->IntArray_0),
            !(self is IntArray) ==> r == Err::<Vec<Vec<i32>>, Error>(
                Error::InvalidAttributeType { expected: AttributeType::IntArray, actual: self@.kind },
            ),
    {
        match self {
            RawAttributeData::IntArray(v) => Ok(v),
            other => other.err(AttributeType::IntArray),
        }
    }

    pub fn string(self) -> (r: Result<Vec<String>, Error>)
        ensures
            self is String ==> r == Ok::<Vec<String>, Error>(self->String_0),
            !(self is String) ==> r == Err::<Vec<String>, Error>(
                Error::InvalidAttributeType { expected: AttributeType::String, actual: self@.kind },
            ),
    {
        match self {
            RawAttributeData::String(v) => Ok(v),
            other => other.err(AttributeType::String),
        }
    }

    pub fn string_array(self) -> (r: Result<Vec<Vec<String>>, Error>)
        ensures
            self is StringArray ==> r == Ok::<Vec<Vec<String>>, Error>(self->StringArray_0),
            !(self is StringArray) ==> r == Err::<Vec<Vec<String>>, Error>(
                Error::InvalidAttributeType {
                    expected: AttributeType::StringArray,
                    actual: self@.kind,
                },
            ),
    {
        match self {
            RawAttributeData::StringArray(v) => Ok(v),
            other => other.err(AttributeType::StringArray),
        }
    }

    pub fn index(self) -> (r: Result<Vec<usize>, Error>)
        ensures
            self is Index ==> r == Ok::<Vec<usize>, Error>(self->Index_0),
            !(self is Index) ==> r == Err::<Vec<usize>, Error>(
                Error::InvalidAttributeType { expected: AttributeType::Index, actual: self@.kind },
            ),
    {
        match self {
            RawAttributeData::Index(v) => Ok(v),
            other => other.err(AttributeType::Index),
        }
    }

    pub fn prim_vertex(self) -> (r: Result<Vec<Vec<usize>>, Error>)
        ensures
            self is PrimVertex ==> r == Ok::<Vec<Vec<usize>>, Error>(self->PrimVertex_0),
            !(self is PrimVertex) ==> r == Err::<Vec<Vec<usize>>, Error>(
                Error::InvalidAttributeType {
                    expected: AttributeType::PrimVertex,
                    actual: self@.kind,
                },
            ),
    {
        match self {
            RawAttributeData::PrimVertex(v) => Ok(v),
            other => other.err(AttributeType::PrimVertex),
        }
    }
    /// Splits the vector in two at position `at`.
    pub fn split_at(self, at: usize) -> (r: (RawAttributeData, RawAttributeData))
        requires
            at <= self@.len(),
        ensures
            r.0@ == self@.subrange(0, at as int),
            r.1@ == self@.subrange(at as int, self@.len() as int),
    {
        match self {
            RawAttributeData::Float(mut head) => {
                let ghost s = head@;
                let tail = head.split_off(at);
                proof {
                    lemma_map_subrange(s, |x: u32| Scalar::Float(x), 0, at as int);
                    lemma_map_subrange(s, |x: u32| Scalar::Float(x), at as int, s.len() as int);
                }
                (RawAttributeData::Float(head), RawAttributeData::Float(tail))
            },
            RawAttributeData::FloatArray(mut head) => {
                let ghost s = head@;
                let tail = head.split_off(at);
                proof {
                    lemma_map_subrange(s, |x: Vec<u32>| Scalar::FloatArray(x@), 0, at as int);
                    lemma_map_subrange(s, |x: Vec<u32>| Scalar::FloatArray(x@), at as int, s.len() as int);
                }
                (RawAttributeData::FloatArray(head), RawAttributeData::FloatArray(tail))
            },
            RawAttributeData::Int(mut head) => {
                let ghost s = head@;
                let tail = head.split_off(at);
                proof {
                    lemma_map_subrange(s, |x: i32| Scalar::Int(x), 0, at as int);
                    lemma_map_subrange(s, |x: i32| Scalar::Int(x), at as int, s.len() as int);
                }
                (RawAttributeData::Int(head), RawAttributeData::Int(tail))
            },
            RawAttributeData::IntArray(mut head) => {
                let ghost s = head@;
                let tail = head.split_off(at);
                proof {
                    lemma_map_subrange(s, |x: Vec<i32>| Scalar::IntArray(x@), 0, at as int);
                    lemma_map_subrange(s, |x: Vec<i32>| Scalar::IntArray(x@), at as int, s.len() as int);
                }
                (RawAttributeData::IntArray(head), RawAttributeData::IntArray(tail))
            },
            RawAttributeData::String(mut head) => {
                let ghost s = head@;
                let tail = head.split_off(at);
                proof {
                    lemma_map_subrange(s, |x: String| Scalar::String(x@), 0, at as int);
                    lemma_map_subrange(s, |x: String| Scalar::String(x@), at as int, s.len() as int);
                }
                (RawAttributeData::String(head), RawAttributeData::String(tail))
            },
            RawAttributeData::StringArray(mut head) => {
                let ghost s = head@;
                let tail = head.split_off(at);
                proof {
                    lemma_map_subrange(s, |x: Vec<String>| Scalar::StringArray(strings_view(x)), 0, at as int);
                    lemma_map_subrange(s, |x: Vec<String>| Scalar::StringArray(strings_view(x)), at as int, s.len() as int);
                }
                (RawAttributeData::StringArray(head), RawAttributeData::StringArray(tail))
            },
            RawAttributeData::Index(mut head) => {
                let ghost s = head@;
                let tail = head.split_off(at);
                proof {
                    lemma_map_subrange(s, |x: usize| Scalar::Index(x), 0, at as int);
                    lemma_map_subrange(s, |x: usize| Scalar::Index(x), at as int, s.len() as int);
                }
                (RawAttributeData::Index(head), RawAttributeData::Index(tail))
            },
            RawAttributeData::PrimVertex(mut head) => {
                let ghost s = head@;
                let tail = head.split_off(at);
                proof {
                    lemma_map_subrange(s, |x: Vec<usize>| Scalar::PrimVertex(x@), 0, at as int);
                    lemma_map_subrange(s, |x: Vec<usize>| Scalar::PrimVertex(x@), at as int, s.len() as int);
                }
                (RawAttributeData::PrimVertex(head), RawAttributeData::PrimVertex(tail))
            },
        }
    }

    /// Appends the scalars of `other`, which is of the same kind, after those of `self`.
    pub fn concat(self, other: RawAttributeData) -> (r: RawAttributeData)
        requires
            self@.kind == other@.kind,
        ensures
            r@ == self@.concat(other@),
    {
        match (self, other) {
            (RawAttributeData::Float(mut a), RawAttributeData::Float(mut b)) => {
                let ghost (sa, sb) = (a@, b@);
                a.append(&mut b);
                proof {
                    lemma_map_add(sa, sb, |x: u32| Scalar::Float(x));
                }
                RawAttributeData::Float(a)
            },
            (RawAttributeData::FloatArray(mut a), RawAttributeData::FloatArray(mut b)) => {
                let ghost (sa, sb) = (a@, b@);
                a.append(&mut b);
                proof {
                    lemma_map_add(sa, sb, |x: Vec<u32>| Scalar::FloatArray(x@));
                }
                RawAttributeData::FloatArray(a)
            },
            (RawAttributeData::Int(mut a), RawAttributeData::Int(mut b)) => {
                let ghost (sa, sb) = (a@, b@);
                a.append(&mut b);
                proof {
                    lemma_map_add(sa, sb, |x: i32| Scalar::Int(x));
                }
                RawAttributeData::Int(a)
            },
            (RawAttributeData::IntArray(mut a), RawAttributeData::IntArray(mut b)) => {
                let ghost (sa, sb) = (a@, b@);
                a.append(&mut b);
                proof {
                    lemma_map_add(sa, sb, |x: Vec<i32>| Scalar::IntArray(x@));
                }
                RawAttributeData::IntArray(a)
            },
            (RawAttributeData::String(mut a), RawAttributeData::String(mut b)) => {
                let ghost (sa, sb) = (a@, b@);
                a.append(&mut b);
                proof {
                    lemma_map_add(sa, sb, |x: String| Scalar::String(x@));
                }
                RawAttributeData::String(a)
            },
            (RawAttributeData::StringArray(mut a), RawAttributeData::StringArray(mut b)) => {
                let ghost (sa, sb) = (a@, b@);
                a.append(&mut b);
                proof {
                    lemma_map_add(sa, sb, |x: Vec<String>| Scalar::StringArray(strings_view(x)));
                }
                RawAttributeData::StringArray(a)
            },
            (RawAttributeData::Index(mut a), RawAttributeData::Index(mut b)) => {
                let ghost (sa, sb) = (a@, b@);
                a.append(&mut b);
                proof {
                    lemma_map_add(sa, sb, |x: usize| Scalar::Index(x));
                }
                RawAttributeData::Index(a)
            },
            (RawAttributeData::PrimVertex(mut a), RawAttributeData::PrimVertex(mut b)) => {
                let ghost (sa, sb) = (a@, b@);
                a.append(&mut b);
                proof {
                    lemma_map_add(sa, sb, |x: Vec<usize>| Scalar::PrimVertex(x@));
                }
                RawAttributeData::PrimVertex(a)
            },
            (a, _) => a,
        }
    }
}

/// One named attribute on the wire: a flat vector read as consecutive tuples
/// of `tuple_size` scalars.
#[derive(Debug, Clone, PartialEq)]
pub struct RawAttribute {
    pub tuple_size: usize,
    pub data: RawAttributeData,
}

/// The model of a column: its declared tuple size and its scalars.
pub struct AttrColumn {
    pub tuple_size: usize,
    pub values: AttrValues,
}

impl View for RawAttribute {
    type V = AttrColumn;

    open spec fn view(&self) -> AttrColumn {
        AttrColumn { tuple_size: self.tuple_size, values: self.data@ }
    }
}

} // verus!
