pub mod commands;
pub mod fields;
pub mod keys;
pub mod objects;
pub mod rules;
pub mod sync;
