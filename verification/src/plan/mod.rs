pub mod manifest;
pub mod planner;
