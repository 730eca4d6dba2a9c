//! Verified core of a React component documentation extractor: the data
//! model, the known-pattern and React builtin tables, JSDoc parsing and
//! lookup, the TypeScript type syntax the collector reads and what it makes
//! of it, the decisions of the per-file collector, import bookkeeping, the
//! prop-type resolver, and the merging, keying and change tracking of the
//! extraction pipeline.

pub mod text;
pub mod chars;
pub mod types;
pub mod render;
pub mod react_types;
pub mod known;
pub mod jsdoc;
pub mod import_map;
pub mod resolver;
pub mod syntax;
pub mod collect;
pub mod detect;
pub mod pipeline;
