pub mod laws;
pub mod luau_types;
pub mod manifest;
