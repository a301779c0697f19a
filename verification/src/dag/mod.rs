pub mod manifest;
pub mod plan;
