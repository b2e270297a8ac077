//! The identifiers that a flow sample carries.
//!
//! Each is one `u32` on the wire, most significant byte first. What the
//! bits of the number stand for is left to the reader of the sample.

use vstd::prelude::*;
use crate::cursor::{reading_u32, Outcome, ReadSeeker};
use crate::decode::Decodeable;
use crate::error::DecodeError;

verus! {

/// The source that a sample was taken from, as the agent that sent it
/// numbers its sources.
#[derive(Clone, Copy, Debug, Default, PartialEq, Eq)]
pub struct SourceID(pub u32);

/// An interface of the device that a sampled packet came in or went out by.
#[derive(Clone, Copy, Debug, Default, PartialEq, Eq)]
pub struct Interface(pub u32);

impl DeepView for SourceID {
    type V = SourceID;

    open spec fn deep_view(&self) -> SourceID {
        *self
    }
}

impl DeepView for Interface {
    type V = Interface;

    open spec fn deep_view(&self) -> Interface {
        *self
    }
}

impl Decodeable for SourceID {
    open spec fn decoding(bytes: Seq<u8>, start: nat) -> Outcome<SourceID> {
        let number = reading_u32(bytes, start);
        match number.result {
            Ok(value) => Outcome { result: Ok(SourceID(value)), position: number.position },
            Err(_) => number.failure(),
        }
    }

    proof fn lemma_decoding_advances(bytes: Seq<u8>, start: nat) {
    }

    proof fn lemma_decoding_of_prefix(bytes: Seq<u8>, start: nat, cut: nat) {
    }

    fn read_and_decode(stream: &mut ReadSeeker) -> (result: Result<SourceID, DecodeError>) {
        match stream.be_read_u32() {
            Ok(value) => Ok(SourceID(value)),
            Err(error) => Err(error),
        }
    }
}

impl Decodeable for Interface {
    open spec fn decoding(bytes: Seq<u8>, start: nat) -> Outcome<Interface> {
        let number = reading_u32(bytes, start);
        match number.result {
            Ok(value) => Outcome { result: Ok(Interface(value)), position: number.position },
            Err(_) => number.failure(),
        }
    }

    proof fn lemma_decoding_advances(bytes: Seq<u8>, start: nat) {
    }

    proof fn lemma_decoding_of_prefix(bytes: Seq<u8>, start: nat, cut: nat) {
    }

    fn read_and_decode(stream: &mut ReadSeeker) -> (result: Result<Interface, DecodeError>) {
        match stream.be_read_u32() {
            Ok(value) => Ok(Interface(value)),
            Err(error) => Err(error),
        }
    }
}

} // verus!
