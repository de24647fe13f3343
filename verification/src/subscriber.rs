pub mod keys;
pub mod pubsub_schema;
