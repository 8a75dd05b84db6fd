//! Transcoding between a host's columnar, dynamically typed geometry attributes
//! and row-oriented records described by field layouts.
//!
//! A snapshot holds four entity collections (points, vertices, primitives and
//! one detail record); each maps attribute names to columns of scalars read as
//! tuples of a declared arity. A [`Layout`] describes the fields of one row
//! structure; [`Geometry::from_raw`] decodes a snapshot into rows and
//! [`Geometry::into_raw`] encodes rows back, rewriting primitive connectivity
//! from vertex indices to point indices.

pub mod adapter;
pub mod attribute;
pub mod attrs;
pub mod codec;
pub mod error;
pub mod geometry;
pub mod transcode;

pub use adapter::{bool_from_attr_data, bool_into_attr_data};
pub use attribute::{AttributeType, RawAttribute, RawAttributeData};
pub use attrs::Attributes;
pub use codec::into_array_iter;
pub use error::{EntityKind, ErrContext, Error};
pub use geometry::{
    load_from_raw, remap_vertices, take_input, Geometry, GeometryLayout, RawGeometry,
    RawGeometryOutput, RowGeometry,
};
pub use transcode::{from_attr, generate_to_attr, into_attr, load_from_attr, Field, Layout, Row};
