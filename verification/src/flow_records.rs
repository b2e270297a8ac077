//! The records that a flow sample carries about the sampled packet.
//!
//! A flow record is a format number, the length of its payload in bytes,
//! and the payload. The payload is kept as it came: what it means depends
//! on the format, and is for the reader of the record to make out.

use vstd::prelude::*;
use crate::cursor::{reading_bytes, reading_u32, Outcome, ReadSeeker};
use crate::decode::Decodeable;
use crate::error::DecodeError;

verus! {

/// One record of a flow sample.
#[derive(Clone, Debug, Default, PartialEq, Eq)]
pub struct FlowRecord {
    /// The format that the payload is laid out in.
    pub format: u32,
    /// The payload, undecoded.
    pub data: Vec<u8>,
}

/// A flow record as a plain value.
pub struct FlowRecordView {
    pub format: u32,
    pub data: Seq<u8>,
}

impl DeepView for FlowRecord {
    type V = FlowRecordView;

    open spec fn deep_view(&self) -> FlowRecordView {
        FlowRecordView { format: self.format, data: self.data@ }
    }
}

impl Decodeable for FlowRecord {
    open spec fn decoding(bytes: Seq<u8>, start: nat) -> Outcome<FlowRecordView> {
        let format = reading_u32(bytes, start);
        let length = reading_u32(bytes, format.position);
        let data = reading_bytes(bytes, length.position, length.result->Ok_0 as nat);
        if format.result is Err {
            format.failure()
        } else if length.result is Err {
            length.failure()
        } else if data.result is Err {
            data.failure()
        } else {
            Outcome {
                result: Ok(
                    FlowRecordView { format: format.result->Ok_0, data: data.result->Ok_0 },
                ),
                position: data.position,
            }
        }
    }

    proof fn lemma_decoding_advances(bytes: Seq<u8>, start: nat) {
    }

    proof fn lemma_decoding_of_prefix(bytes: Seq<u8>, start: nat, cut: nat) {
        let format = reading_u32(bytes, start);
        let length = reading_u32(bytes, format.position);
        let data = reading_bytes(bytes, length.position, length.result->Ok_0 as nat);
        if format.result is Ok && length.result is Ok && data.result is Ok && data.position <= cut {
            assert(bytes.take(cut as int).subrange(length.position as int, data.position as int)
                =~= bytes.subrange(length.position as int, data.position as int));
        }
    }

    fn read_and_decode(stream: &mut ReadSeeker) -> (result: Result<FlowRecord, DecodeError>) {
        let format: u32 = match stream.be_read_u32() {
            Ok(format) => format,
            Err(error) => {
                return Err(error);
            },
        };
        let length: u32 = match stream.be_read_u32() {
            Ok(length) => length,
            Err(error) => {
                return Err(error);
            },
        };
        match stream.read_bytes(length as usize) {
            Ok(data) => Ok(FlowRecord { format, data }),
            Err(error) => Err(error),
        }
    }
}

} // verus!
