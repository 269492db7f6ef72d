use vstd::prelude::*;

pub mod text;
pub mod dd_version;
pub mod version_stamp;
pub mod selector;
pub mod conversion_map;
pub mod xml;
pub mod map_load;
pub mod completeness;
pub mod status;
pub mod core_version;
pub mod hli_version;
pub mod reentry;
pub mod loss;
pub mod read_outcome;
pub mod stored_path;
pub mod loss_file;
pub mod timestamp_order;
pub mod context_registry;
pub mod resolution_laws;
pub mod read_path;
pub mod read_plan;
pub mod occurrence;
pub mod write_plan;

verus! {
} // verus!
