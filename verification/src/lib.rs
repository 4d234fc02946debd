//! Document metadata extracted from line-oriented "Key : Value" text: a
//! decimal version parser, a per-line record updater, a per-file record
//! builder, operating-system inference over the producer and creator-tool
//! fields, and an aggregator that summarizes a batch of completed records.

pub mod aggregate;
pub mod metadata;
pub mod os;
pub mod record;
pub mod text;
pub mod version;
