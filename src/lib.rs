//! Builds one hierarchical document out of a stream of `;dotted.path:value`
//! lines, folding each line into the running document with a verified merge.

pub mod engine;
pub mod leafs;
pub mod merge;
pub mod model;
pub mod options;
pub mod scalar;
pub mod text;

pub use engine::{Engine, LineOutcome};
pub use leafs::_get_leafs_from_map;
pub use merge::extend_hashmap;
pub use model::{string_to_dict, MapNodes, Node, TypedValue};
pub use options::{EngineOptions, Error, HowToDictInArray};
pub use scalar::infer_scalar;
