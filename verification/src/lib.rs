//! Snapshot and restore of hierarchical document collections: the path
//! algebra, the value mapping between the database's wire values and the
//! portable tagged values, the assembly of a fetched tree, the write plan of
//! a restore and its partition into transactions.

pub mod collect;
pub mod commit;
pub mod path;
pub mod seed;
pub mod type_mapping;
pub mod well_formed;
