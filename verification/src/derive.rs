//! What `#[derive(Schema)]` decides: which attributes it honors and which it
//! rejects, the names and shape that reach the wire, and the plan of the
//! columnar reader and writer.
//!
//! Everything here works on plain values. Turning tokens into them, and the
//! decisions back into tokens, is left to the macro itself.

pub mod as_repr;
pub mod attrs;
pub mod columnar;
pub mod declared;
pub mod expand;
pub mod honored;
pub mod model;
pub mod options;
pub mod removed;
pub mod rename;
pub mod retirement;
pub mod schema;
