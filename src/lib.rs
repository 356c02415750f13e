//! Two zomes over a host's content store: a self-linked entry that keeps a
//! pointer to the first revision of its lineage, and a parent/child pair whose
//! containment links follow the parent across updates. The host's record and
//! link store is modelled by `store::Dht`, over which every operation is stated.
pub mod entries;
pub mod schema;
pub mod store;
pub mod lineage;
pub mod containment;
