//! Typed building blocks for provisioning-engine configuration: a graph of
//! providers, resources, datasources, variables and outputs that writes out as
//! the engine's JSON document, expressions that survive that writing intact,
//! and the schema-to-field mapping that generated entity types follow.

pub mod text;
pub mod expr;
pub mod list_ref;
pub mod doc;
pub mod entity;
pub mod stack;
pub mod generate;
pub mod schema;

pub use expr::{Func, PrimExpr, PrimType, StackShared};
pub use list_ref::{ListRef, MapKV, MapListRef, MapListRefToRec, RecToListMappable, Ref, ToListMappable};
pub use entity::{
    Datasource, DatasourceData, IgnoreChanges, IgnoreChangesAll, PathRef, ProviderData, Referable,
    Resource, ResourceData, ResourceLifecycle, SerdeSkipDefault,
};
pub use stack::{BuildStack, ComponentType, Stack, StackError};
