//! Materialization of free-form scene-node metadata into typed, named
//! component records.
//!
//! Scene files carry textual metadata attached to nodes. This library decodes
//! such a metadata blob into named entries, resolves each entry against a
//! runtime type catalog, rewrites the entry's value text into the syntax the
//! catalog's deserializer accepts, decides whether the resulting records
//! belong on the node itself or on its structural parent, and injects all
//! records into an entity store in one pass, marking each source node so a
//! later pass never reprocesses it.

pub mod catalog;
pub mod decode;
pub mod materialize;
pub mod store;
pub mod text;

pub use catalog::{TypeCatalog, TypeDescriptor};
pub use materialize::{materialize_entries, MaterializeError, MaterializedEntry};
pub use store::{add_components_from_gltf_extras, EntityStore, SceneNode};
pub use text::capitalize_first_letter;
