//! Sample records and the batches that they arrive in.
//!
//! A batch is a count and then that many records. Each record opens with
//! its format and the length of its payload in bytes. The payload of a
//! record in a format known here is decoded; that of any other record is
//! stepped over by its declared length, and the record is reported as
//! [`SampleRecord::Unknown`], so that a stream from a newer agent stays
//! readable.
//!
//! ```text
//! batch   = count:u32 record*
//! record  = format:u32 length:u32 payload
//! payload = flow sample          if format is 1
//!         | length bytes         otherwise
//! ```
//!
//! The length that a flow sample record declares is not held against what
//! its payload takes: a record that declares another length than its flow
//! sample has puts every record after it out of step.

use vstd::prelude::*;
use crate::cursor::{be_u32_at, reading_u32, seeking, Outcome, ReadSeeker, SeekFrom};
use crate::decode::{decoding_items, lemma_items_are_counted, Decodeable};
use crate::error::DecodeError;
use crate::flow_records::{FlowRecord, FlowRecordView};
use crate::types::{Interface, SourceID};

verus! {

/// The format number of a flow sample record.
pub const FLOW_SAMPLE_FORMAT: u32 = 1;

/// One packet sampled from the traffic of a source.
#[derive(Clone, Debug, Default, PartialEq, Eq)]
pub struct FlowSample {
    /// Goes up by one with each flow sample that the source generates. An
    /// agent that resets `sample_pool` resets this number too.
    pub sequence_number: u32,
    /// The source of the sample.
    pub sflow_data_source: SourceID,
    /// One packet in this many is sampled.
    pub sampling_rate: u32,
    /// How many packets could have been sampled: those passed over by the
    /// sampling process and those sampled.
    pub sample_pool: u32,
    /// How many times the agent saw that a packet marked for sampling was
    /// dropped for want of resources, since it was last reset. An agent that
    /// cannot see drops always reports zero.
    pub drops: u32,
    /// The interface that the packet was received on.
    pub input_id: Interface,
    /// The interface that the packet was sent on.
    pub output_id: Interface,
    /// What is known of the sampled packet, in the order of the stream.
    pub flow_records: Vec<FlowRecord>,
}

/// A flow sample as a plain value.
pub struct FlowSampleView {
    pub sequence_number: u32,
    pub sflow_data_source: SourceID,
    pub sampling_rate: u32,
    pub sample_pool: u32,
    pub drops: u32,
    pub input_id: Interface,
    pub output_id: Interface,
    pub flow_records: Seq<FlowRecordView>,
}

impl DeepView for FlowSample {
    type V = FlowSampleView;

    open spec fn deep_view(&self) -> FlowSampleView {
        FlowSampleView {
            sequence_number: self.sequence_number,
            sflow_data_source: self.sflow_data_source,
            sampling_rate: self.sampling_rate,
            sample_pool: self.sample_pool,
            drops: self.drops,
            input_id: self.input_id,
            output_id: self.output_id,
            flow_records: self.flow_records.deep_view(),
        }
    }
}

/// A flow sample on the wire is its fields one after another, in the
/// order in which the struct declares them.
impl Decodeable for FlowSample {
    open spec fn decoding(bytes: Seq<u8>, start: nat) -> Outcome<FlowSampleView> {
        let sequence_number = u32::decoding(bytes, start);
        let sflow_data_source = SourceID::decoding(bytes, sequence_number.position);
        let sampling_rate = u32::decoding(bytes, sflow_data_source.position);
        let sample_pool = u32::decoding(bytes, sampling_rate.position);
        let drops = u32::decoding(bytes, sample_pool.position);
        let input_id = Interface::decoding(bytes, drops.position);
        let output_id = Interface::decoding(bytes, input_id.position);
        let flow_records = Vec::<FlowRecord>::decoding(bytes, output_id.position);
        if sequence_number.result is Err {
            sequence_number.failure()
        } else if sflow_data_source.result is Err {
            sflow_data_source.failure()
        } else if sampling_rate.result is Err {
            sampling_rate.failure()
        } else if sample_pool.result is Err {
            sample_pool.failure()
        } else if drops.result is Err {
            drops.failure()
        } else if input_id.result is Err {
            input_id.failure()
        } else if output_id.result is Err {
            output_id.failure()
        } else if flow_records.result is Err {
            flow_records.failure()
        } else {
            Outcome {
                result: Ok(
                    FlowSampleView {
                        sequence_number: sequence_number.result->Ok_0,
                        sflow_data_source: sflow_data_source.result->Ok_0,
                        sampling_rate: sampling_rate.result->Ok_0,
                        sample_pool: sample_pool.result->Ok_0,
                        drops: drops.result->Ok_0,
                        input_id: input_id.result->Ok_0,
                        output_id: output_id.result->Ok_0,
                        flow_records: flow_records.result->Ok_0,
                    },
                ),
                position: flow_records.position,
            }
        }
    }

    proof fn lemma_decoding_advances(bytes: Seq<u8>, start: nat) {
        let sequence_number = u32::decoding(bytes, start);
        let sflow_data_source = SourceID::decoding(bytes, sequence_number.position);
        let sampling_rate = u32::decoding(bytes, sflow_data_source.position);
        let sample_pool = u32::decoding(bytes, sampling_rate.position);
        let drops = u32::decoding(bytes, sample_pool.position);
        let input_id = Interface::decoding(bytes, drops.position);
        let output_id = Interface::decoding(bytes, input_id.position);
        u32::lemma_decoding_advances(bytes, start);
        SourceID::lemma_decoding_advances(bytes, sequence_number.position);
        u32::lemma_decoding_advances(bytes, sflow_data_source.position);
        u32::lemma_decoding_advances(bytes, sampling_rate.position);
        u32::lemma_decoding_advances(bytes, sample_pool.position);
        Interface::lemma_decoding_advances(bytes, drops.position);
        Interface::lemma_decoding_advances(bytes, input_id.position);
        Vec::<FlowRecord>::lemma_decoding_advances(bytes, output_id.position);
    }

    proof fn lemma_decoding_of_prefix(bytes: Seq<u8>, start: nat, cut: nat) {
        let sequence_number = u32::decoding(bytes, start);
        let sflow_data_source = SourceID::decoding(bytes, sequence_number.position);
        let sampling_rate = u32::decoding(bytes, sflow_data_source.position);
        let sample_pool = u32::decoding(bytes, sampling_rate.position);
        let drops = u32::decoding(bytes, sample_pool.position);
        let input_id = Interface::decoding(bytes, drops.position);
        let output_id = Interface::decoding(bytes, input_id.position);
        Self::lemma_decoding_advances(bytes, start);
        u32::lemma_decoding_advances(bytes, start);
        SourceID::lemma_decoding_advances(bytes, sequence_number.position);
        u32::lemma_decoding_advances(bytes, sflow_data_source.position);
        u32::lemma_decoding_advances(bytes, sampling_rate.position);
        u32::lemma_decoding_advances(bytes, sample_pool.position);
        Interface::lemma_decoding_advances(bytes, drops.position);
        Interface::lemma_decoding_advances(bytes, input_id.position);
        Vec::<FlowRecord>::lemma_decoding_advances(bytes, output_id.position);
        u32::lemma_decoding_of_prefix(bytes, start, cut);
        if sequence_number.position <= cut {
            SourceID::lemma_decoding_of_prefix(bytes, sequence_number.position, cut);
        }
        if sflow_data_source.position <= cut {
            u32::lemma_decoding_of_prefix(bytes, sflow_data_source.position, cut);
        }
        if sampling_rate.position <= cut {
            u32::lemma_decoding_of_prefix(bytes, sampling_rate.position, cut);
        }
        if sample_pool.position <= cut {
            u32::lemma_decoding_of_prefix(bytes, sample_pool.position, cut);
        }
        if drops.position <= cut {
            Interface::lemma_decoding_of_prefix(bytes, drops.position, cut);
        }
        if input_id.position <= cut {
            Interface::lemma_decoding_of_prefix(bytes, input_id.position, cut);
        }
        if output_id.position <= cut {
            Vec::<FlowRecord>::lemma_decoding_of_prefix(bytes, output_id.position, cut);
        }
    }

    fn read_and_decode(stream: &mut ReadSeeker) -> (result: Result<FlowSample, DecodeError>) {
        let sequence_number: u32 = match u32::read_and_decode(stream) {
            Ok(value) => value,
            Err(error) => {
                return Err(error);
            },
        };
        let sflow_data_source = match SourceID::read_and_decode(stream) {
            Ok(value) => value,
            Err(error) => {
                return Err(error);
            },
        };
        let sampling_rate: u32 = match u32::read_and_decode(stream) {
            Ok(value) => value,
            Err(error) => {
                return Err(error);
            },
        };
        let sample_pool: u32 = match u32::read_and_decode(stream) {
            Ok(value) => value,
            Err(error) => {
                return Err(error);
            },
        };
        let drops: u32 = match u32::read_and_decode(stream) {
            Ok(value) => value,
            Err(error) => {
                return Err(error);
            },
        };
        let input_id = match Interface::read_and_decode(stream) {
            Ok(value) => value,
            Err(error) => {
                return Err(error);
            },
        };
        let output_id = match Interface::read_and_decode(stream) {
            Ok(value) => value,
            Err(error) => {
                return Err(error);
            },
        };
        let flow_records = match Vec::<FlowRecord>::read_and_decode(stream) {
            Ok(value) => value,
            Err(error) => {
                return Err(error);
            },
        };
        Ok(
            FlowSample {
                sequence_number,
                sflow_data_source,
                sampling_rate,
                sample_pool,
                drops,
                input_id,
                output_id,
                flow_records,
            },
        )
    }
}

/// One record of a batch.
#[derive(Clone, Debug, PartialEq, Eq)]
pub enum SampleRecord {
    /// A flow sample, decoded.
    FlowSample(FlowSample),
    /// A record in a format that is not known here. Its payload was stepped
    /// over and is not kept: the variant says only that a record stood at
    /// this place in the batch.
    Unknown,
}

/// A sample record as a plain value.
pub enum SampleRecordView {
    FlowSample(FlowSampleView),
    Unknown,
}

impl DeepView for SampleRecord {
    type V = SampleRecordView;

    open spec fn deep_view(&self) -> SampleRecordView {
        match self {
            SampleRecord::FlowSample(sample) => SampleRecordView::FlowSample(sample.deep_view()),
            SampleRecord::Unknown => SampleRecordView::Unknown,
        }
    }
}

/// A record on the wire is its format, the length of its payload, and
/// the payload.
impl Decodeable for SampleRecord {
    open spec fn decoding(bytes: Seq<u8>, start: nat) -> Outcome<SampleRecordView> {
        let format = reading_u32(bytes, start);
        let length = reading_u32(bytes, format.position);
        if format.result is Err {
            format.failure()
        } else if length.result is Err {
            length.failure()
        } else if format.result->Ok_0 == FLOW_SAMPLE_FORMAT {
            let sample = FlowSample::decoding(bytes, length.position);
            match sample.result {
                Ok(value) => Outcome {
                    result: Ok(SampleRecordView::FlowSample(value)),
                    position: sample.position,
                },
                Err(_) => sample.failure(),
            }
        } else {
            let skip = seeking(bytes, length.position, length.position + length.result->Ok_0);
            match skip.result {
                Ok(_) => Outcome { result: Ok(SampleRecordView::Unknown), position: skip.position },
                Err(_) => skip.failure(),
            }
        }
    }

    proof fn lemma_decoding_advances(bytes: Seq<u8>, start: nat) {
        let format = reading_u32(bytes, start);
        let length = reading_u32(bytes, format.position);
        if format.result is Ok && length.result is Ok {
            FlowSample::lemma_decoding_advances(bytes, length.position);
        }
    }

    proof fn lemma_decoding_of_prefix(bytes: Seq<u8>, start: nat, cut: nat) {
        let format = reading_u32(bytes, start);
        let length = reading_u32(bytes, format.position);
        if format.result is Ok && length.result is Ok {
            FlowSample::lemma_decoding_advances(bytes, length.position);
            if length.position <= cut {
                FlowSample::lemma_decoding_of_prefix(bytes, length.position, cut);
            }
        }
    }

    fn read_and_decode(stream: &mut ReadSeeker) -> (result: Result<SampleRecord, DecodeError>) {
        let format: u32 = match stream.be_read_u32() {
            Ok(format) => format,
            Err(error) => {
                return Err(error);
            },
        };
        let length: u32 = match stream.be_read_u32() {
            Ok(length) => length,
            Err(error) => {
                return Err(error);
            },
        };
        if format == FLOW_SAMPLE_FORMAT {
            match FlowSample::read_and_decode(stream) {
                Ok(sample) => Ok(SampleRecord::FlowSample(sample)),
                Err(error) => Err(error),
            }
        } else {
            match stream.seek(SeekFrom::Current(length as i64)) {
                Ok(_) => Ok(SampleRecord::Unknown),
                Err(error) => Err(error),
            }
        }
    }
}

/// Where the record at `start` ends, going by the length that it declares:
/// behind its two header words and that many bytes of payload.
pub open spec fn record_end(bytes: Seq<u8>, start: nat) -> nat {
    (start + 8 + be_u32_at(bytes, start + 4)) as nat
}

/// Where record number `index` begins in a run of records that begins at
/// `first`, going by declared lengths alone.
pub open spec fn record_start(bytes: Seq<u8>, first: nat, index: nat) -> nat
    decreases index,
{
    if index == 0 {
        first
    } else {
        record_end(bytes, record_start(bytes, first, (index - 1) as nat))
    }
}

/// Whether each flow sample among the first `count` records of the run at
/// `first` takes exactly the length that its record declares.
pub open spec fn flow_samples_fill_their_records(bytes: Seq<u8>, first: nat, count: nat) -> bool {
    forall|index: nat|
        index < count && be_u32_at(bytes, #[trigger] record_start(bytes, first, index))
            == FLOW_SAMPLE_FORMAT ==> FlowSample::decoding(
            bytes,
            record_start(bytes, first, index) + 8,
        ).position == record_end(bytes, record_start(bytes, first, index))
}

/// A record in a format other than that of a flow sample is stepped over
/// by exactly its declared length, whatever its payload holds: it comes out
/// as [`SampleRecord::Unknown`] with the cursor at the start of the next
/// record. Where the stream ends before the declared length is out, the
/// record fails with an I/O error, the cursor behind its header.
pub proof fn lemma_unknown_record_is_skipped(bytes: Seq<u8>, start: nat)
    requires
        start + 8 <= bytes.len(),
        be_u32_at(bytes, start) != FLOW_SAMPLE_FORMAT,
    ensures
        record_end(bytes, start) <= bytes.len() ==> SampleRecord::decoding(bytes, start) == (Outcome {
            result: Ok(SampleRecordView::Unknown),
            position: record_end(bytes, start),
        }),
        record_end(bytes, start) > bytes.len() ==> SampleRecord::decoding(bytes, start) == (Outcome {
            result: Err::<SampleRecordView, DecodeError>(DecodeError::Io),
            position: start + 8,
        }),
{
}

/// A record that decodes ends where its header says, provided that, if it
/// is a flow sample, the flow sample takes what the record declares.
pub proof fn lemma_record_ends_as_declared(bytes: Seq<u8>, start: nat)
    requires
        SampleRecord::decoding(bytes, start).result is Ok,
        be_u32_at(bytes, start) == FLOW_SAMPLE_FORMAT ==> FlowSample::decoding(
            bytes,
            start + 8,
        ).position == record_end(bytes, start),
    ensures
        SampleRecord::decoding(bytes, start).position == record_end(bytes, start),
{
}

/// A run of records that decodes, and whose flow samples take what their
/// records declare, is walked in step with its headers: the cursor ends
/// where the declared lengths alone say that the run ends.
pub proof fn lemma_records_end_as_declared(bytes: Seq<u8>, first: nat, count: nat)
    requires
        decoding_items::<SampleRecord>(bytes, first, count).result is Ok,
        flow_samples_fill_their_records(bytes, first, count),
    ensures
        decoding_items::<SampleRecord>(bytes, first, count).position == record_start(
            bytes,
            first,
            count,
        ),
    decreases count,
{
    if count > 0 {
        let before = (count - 1) as nat;
        assert(flow_samples_fill_their_records(bytes, first, before));
        lemma_records_end_as_declared(bytes, first, before);
        let last = record_start(bytes, first, before);
        assert(before < count);
        lemma_record_ends_as_declared(bytes, last);
    }
}

/// A batch whose count is zero decodes to no records, and takes the four
/// bytes of the count.
pub proof fn lemma_empty_batch(bytes: Seq<u8>, start: nat)
    requires
        start + 4 <= bytes.len(),
        be_u32_at(bytes, start) == 0,
    ensures
        Vec::<SampleRecord>::decoding(bytes, start) == (Outcome {
            result: Ok(Seq::<SampleRecordView>::empty()),
            position: start + 4,
        }),
{
}

/// A batch that decodes holds as many records as its count says.
pub proof fn lemma_batch_is_counted(bytes: Seq<u8>, start: nat)
    ensures
        Vec::<SampleRecord>::decoding(bytes, start).result matches Ok(records) ==> records.len()
            == be_u32_at(bytes, start),
{
    if let Ok(count) = reading_u32(bytes, start).result {
        lemma_items_are_counted::<SampleRecord>(bytes, start + 4, count as nat);
    }
}

/// No batch decodes from a stream that ends before the batch does: where
/// a batch decodes from `bytes`, from every stream that is cut short of the
/// end of that batch it fails with an I/O error.
pub proof fn lemma_truncated_batch_fails(bytes: Seq<u8>, start: nat, cut: nat)
    requires
        start <= cut <= bytes.len(),
        Vec::<SampleRecord>::decoding(bytes, start).result is Ok,
        cut < Vec::<SampleRecord>::decoding(bytes, start).position,
    ensures
        Vec::<SampleRecord>::decoding(bytes.take(cut as int), start).result == Err::<
            Seq<SampleRecordView>,
            DecodeError,
        >(DecodeError::Io),
{
    Vec::<SampleRecord>::lemma_decoding_of_prefix(bytes, start, cut);
}

/// A flow sample decodes whenever its seven leading words are in the
/// stream and its flow records decode. No word is held against a domain: a
/// count of drops of zero is a count like any other. Each field comes out
/// as the word at its place.
pub proof fn lemma_flow_sample_is_its_words(bytes: Seq<u8>, start: nat)
    requires
        start + 28 <= bytes.len(),
        Vec::<FlowRecord>::decoding(bytes, start + 28).result is Ok,
    ensures
        FlowSample::decoding(bytes, start) == (Outcome {
            result: Ok(
                FlowSampleView {
                    sequence_number: be_u32_at(bytes, start),
                    sflow_data_source: SourceID(be_u32_at(bytes, start + 4)),
                    sampling_rate: be_u32_at(bytes, start + 8),
                    sample_pool: be_u32_at(bytes, start + 12),
                    drops: be_u32_at(bytes, start + 16),
                    input_id: Interface(be_u32_at(bytes, start + 20)),
                    output_id: Interface(be_u32_at(bytes, start + 24)),
                    flow_records: Vec::<FlowRecord>::decoding(bytes, start + 28).result->Ok_0,
                },
            ),
            position: Vec::<FlowRecord>::decoding(bytes, start + 28).position,
        }),
{
}

} // verus!
