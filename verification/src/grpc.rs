pub mod api;
pub mod error;
pub mod fields;
pub mod objects;
pub mod rules;
