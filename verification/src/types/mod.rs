pub mod api;
pub mod artifact;
pub mod budget;
pub mod capability;
pub mod osmosis;
pub mod pattern;
pub mod result;
pub mod schema;
pub mod task;
