//! Decoding of sFlow sample records from a byte stream.
//!
//! An agent sends its samples in batches of tagged records. [`sample`] holds
//! the records and the way a batch is walked; [`decode`] holds the protocol
//! that every decodable type follows, and the decoder of counted sequences;
//! [`cursor`] holds the stream that decoders read from; [`types`] and
//! [`flow_records`] hold what a flow sample is made of; [`error`] holds the
//! ways in which decoding fails.

pub mod cursor;
pub mod decode;
pub mod error;
pub mod flow_records;
pub mod sample;
pub mod types;
