//! Carbonite: schema-separated columnar serialization.
//!
//! A [`Schema`] describes how values of a type are laid out. It is a value of
//! its own: it can be shipped once and reused for any number of data blobs,
//! which hold nothing but data. A blob stores the values of each leaf of the
//! schema together, in a column; a batch of rows shares its columns.
//!
//! - [`SchemaNode`] is the untyped tree, and [`Schema`] its typed wrapper; the
//!   binary form is in [`wire`].
//! - [`Serializer`] and [`Deserializer`] write and read blobs against a schema.
//!   A reader whose type has changed since is reconciled with the writer's
//!   schema by name: see [`plan`] and [`reader`].
//! - [`SerializeColumns`] and [`DeserializeColumns`] are the fast paths of types
//!   whose schema is known from the type alone ([`StaticSchema`]); they write
//!   and read the same bytes.
//! - [`SelfDescribingSerializer`] frames a blob together with its schema.
//! - [`trace`], [`tracer`] and [`request`] discover the schema of a type from how
//!   it asks to be read, [`compat`] and [`probe`] tell whether a changed type
//!   still reads what was released, and [`derive`] is what the derive macro
//!   decides.
//!
//! What a value is here is a [`Value`](value::Value): the terms in which a typed
//! value presents itself. [`put`](put::put) says what writing one appends to the
//! columns, [`get`](get::get) what reading gives back, and
//! [`lemma_get_put`](roundtrip::lemma_get_put) that these agree.
//!
//! What holds of the library as a whole is stated in modules of its own:
//! [`conform`] and [`canonical`] say which values are written and which bytes are
//! accepted, [`apart`] that rows do not depend on each other, [`bounded`] and
//! [`truncation`] what becomes of other bytes, [`evolve`] and [`turns`] what a
//! changed type is shown of old values and where it reads them, [`narrowing`] and
//! [`coverage`] what a comparison and a sample find, [`agreement`] and
//! [`converge`] that tracing ends with the whole schema, [`likeness`] what typed
//! values look like, and [`derive::declared`], [`derive::honored`] and
//! [`derive::retirement`] what a declaration comes to.
#![allow(unused_imports)]

use vstd::prelude::*;

pub mod agreement;
pub mod apart;
pub mod batch;
pub mod blob;
pub mod bounded;
pub mod builder;
pub mod canonical;
pub mod columnar;
pub mod compat;
pub mod conform;
pub mod converge;
pub mod coverage;
pub mod de;
pub mod derive;
pub mod entries;
pub mod error;
pub mod evolve;
pub mod fallback;
pub mod float;
pub mod get;
pub mod glam_types;
pub mod layout;
pub mod likeness;
pub mod narrowing;
pub mod node;
pub mod nonzero;
pub mod ordered;
pub mod plan;
pub mod probe;
pub mod product;
pub mod put;
pub mod reader;
pub mod request;
pub mod roundtrip;
pub mod rows;
pub mod sampled;
pub mod schema;
pub mod self_describing;
pub mod ser;
pub mod shape;
pub mod shared;
pub mod skip;
pub mod spot;
pub mod static_schema;
pub mod text;
pub mod time;
pub mod trace;
pub mod tracer;
pub mod trips;
pub mod truncation;
pub mod turns;
pub mod typed_array;
pub mod typed_de;
pub mod typed_maps;
pub mod typed_ser;
pub mod typed_sets;
pub mod typed_std;
pub mod typed_tuple;
pub mod typed_wrap;
pub mod value;
pub mod varint;
pub mod wire;

pub use crate::batch::{Batch, Serializer};
pub use crate::columnar::ColumnCursor;
pub use crate::error::{Error, Result};
pub use crate::rows::{Deserializer, Rows, RowsColumns};
pub use crate::schema::{Primitive, Schema, SchemaNode, VariantNode, SCHEMA_VERSION};
pub use crate::self_describing::{
    is_self_describing, peek_schema, to_vec_static, SelfDescribingDeserializer,
    SelfDescribingSerializer, FORMAT_VERSION, MAGIC,
};
pub use crate::static_schema::StaticSchema;
pub use crate::typed_de::DeserializeColumns;
pub use crate::typed_ser::SerializeColumns;
