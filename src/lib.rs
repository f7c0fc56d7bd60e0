//! Byte-level validity of values crossing a C boundary, and generation of the
//! C header that declares the exported functions and types.

pub mod decl;
pub mod definer;
pub mod header;
pub mod layout;
pub mod sample_exports;

pub use decl::{
    define, enum_definition, prototype, push_decimal, struct_definition, CEnum, CField, CFunction,
    CStruct, CVariant, Export, TypeDef,
};
pub use definer::{Definer, LimitedSink, SetDefiner, Sink, WriteError};
pub use header::{builder, default_guard, BoundBuilder, Builder, HeaderError, Registry, DEFAULT_BANNER};
pub use layout::{absent_discriminant, Field, Shape, Value, POINTER_BYTES};
pub use sample_exports::{concat_str, max};
