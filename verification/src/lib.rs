//! An entity-component-system core: paged columns, a component registry,
//! an entity table indexed by bitmask, and the access views built from them.

pub mod access;
pub mod block_vec;
pub mod bundle;
pub mod component;
pub mod entity;
pub mod error;
pub mod free_list;
pub mod query;
pub mod storage;
pub mod sync;
pub mod system;
pub mod type_map;
pub mod world;
