//! The typed response models, one document shape per operation, each with
//! its decoder, its reference serializer, and a proof that decoding a
//! serialized model yields the model back.

pub mod attendance;
pub mod grade;
pub mod schedule;
pub mod school;
pub mod student;
