//! The prop-type resolver: turns a component's collected (unresolved) props
//! type into a resolved `ComponentEntry`. Every type that cannot be resolved
//! degrades to an opaque or named type together with a diagnostic.

pub mod context;
pub mod prop_types;
pub mod chain;
pub mod tsconfig;

pub use chain::{find_discriminant_prop, resolve_component};
pub use context::ResolutionContext;
pub use prop_types::resolve_collected_type;
pub use tsconfig::{strip_json_comments, tsconfig_aliases};
