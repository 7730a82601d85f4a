//! Loading generated schema manifests into the canonical schema model.
pub mod validate;
pub mod version;
pub mod spans;
pub mod raw;
pub mod lower;
pub mod load;
pub mod outcome;
pub mod resolve;
pub mod modes;
