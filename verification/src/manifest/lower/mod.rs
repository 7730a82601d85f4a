//! Lowering a read manifest into the canonical schema model.
pub mod definitions;
pub mod parameters;
pub mod functions;
pub mod content;
pub mod producer;
pub mod registries;
pub mod domains;
pub mod availability;
pub mod bindings;
pub mod mapping;
pub mod queries;
pub mod projector_inputs;
pub mod projector_queries;
pub mod projector_outputs;
pub mod projectors;
