use sflow::cursor::ReadSeeker;
use sflow::decode::Decodeable;
use sflow::error::DecodeError;
use sflow::flow_records::FlowRecord;
use sflow::sample::FlowSample;
use sflow::types::{Interface, SourceID};

fn words(words: &[u32]) -> Vec<u8> {
    let mut bytes = Vec::new();
    for word in words {
        bytes.extend_from_slice(&word.to_be_bytes());
    }
    bytes
}

fn flow_record_bytes(format: u32, data: &[u8]) -> Vec<u8> {
    let mut bytes = words(&[format, data.len() as u32]);
    bytes.extend_from_slice(data);
    bytes
}

#[test]
fn u32_is_decoded_big_endian() {
    let mut stream = ReadSeeker::new(vec![0, 0, 1, 2]);
    assert_eq!(u32::read_and_decode(&mut stream), Ok(258));
    assert_eq!(stream.position(), 4);
}

#[test]
fn source_id_is_one_word() {
    let mut stream = ReadSeeker::new(words(&[0x0200_0007, 5]));
    assert_eq!(SourceID::read_and_decode(&mut stream), Ok(SourceID(0x0200_0007)));
    assert_eq!(stream.position(), 4);
}

#[test]
fn interface_is_one_word() {
    let mut stream = ReadSeeker::new(words(&[0x4000_0001, 5]));
    assert_eq!(Interface::read_and_decode(&mut stream), Ok(Interface(0x4000_0001)));
    assert_eq!(stream.position(), 4);
}

#[test]
fn identifiers_fail_on_a_short_stream() {
    let mut stream = ReadSeeker::new(vec![0, 0, 1]);
    assert_eq!(SourceID::read_and_decode(&mut stream), Err(DecodeError::Io));
    assert_eq!(Interface::read_and_decode(&mut stream), Err(DecodeError::Io));
    assert_eq!(stream.position(), 0);
}

#[test]
fn flow_record_keeps_its_payload() {
    let mut bytes = flow_record_bytes(1001, &[1, 2, 3, 4, 5, 6, 7, 8]);
    bytes.extend_from_slice(&[0xee, 0xee]);
    let mut stream = ReadSeeker::new(bytes);
    assert_eq!(
        FlowRecord::read_and_decode(&mut stream),
        Ok(FlowRecord { format: 1001, data: vec![1, 2, 3, 4, 5, 6, 7, 8] })
    );
    assert_eq!(stream.position(), 16);
}

#[test]
fn flow_record_with_empty_payload() {
    let mut stream = ReadSeeker::new(flow_record_bytes(3, &[]));
    assert_eq!(FlowRecord::read_and_decode(&mut stream), Ok(FlowRecord { format: 3, data: vec![] }));
    assert_eq!(stream.position(), 8);
}

#[test]
fn flow_record_cut_in_its_payload_fails() {
    let mut bytes = flow_record_bytes(1, &[1, 2, 3, 4]);
    bytes.pop();
    let mut stream = ReadSeeker::new(bytes);
    assert_eq!(FlowRecord::read_and_decode(&mut stream), Err(DecodeError::Io));
    assert_eq!(stream.position(), 8);
}

#[test]
fn flow_record_cut_in_its_header_fails() {
    let mut stream = ReadSeeker::new(vec![0, 0, 0, 1, 0, 0]);
    assert_eq!(FlowRecord::read_and_decode(&mut stream), Err(DecodeError::Io));
    assert_eq!(stream.position(), 4);
}

#[test]
fn sequence_of_words_is_counted() {
    let mut stream = ReadSeeker::new(words(&[3, 10, 20, 30, 40]));
    assert_eq!(Vec::<u32>::read_and_decode(&mut stream), Ok(vec![10, 20, 30]));
    assert_eq!(stream.position(), 16);
}

#[test]
fn sequence_with_too_few_items_fails() {
    let mut stream = ReadSeeker::new(words(&[3, 10, 20]));
    assert_eq!(Vec::<u32>::read_and_decode(&mut stream), Err(DecodeError::Io));
    assert_eq!(stream.position(), 12);
}

#[test]
fn sequence_with_a_huge_count_fails_at_the_first_missing_item() {
    let mut stream = ReadSeeker::new(words(&[u32::MAX, 1, 2]));
    assert_eq!(Vec::<u32>::read_and_decode(&mut stream), Err(DecodeError::Io));
    assert_eq!(stream.position(), 12);
}

#[test]
fn flow_sample_fields_come_in_wire_order() {
    let mut bytes = words(&[11, 22, 33, 44, 55, 66, 77, 2]);
    bytes.extend(flow_record_bytes(1, &[0xa, 0xb, 0xc, 0xd]));
    bytes.extend(flow_record_bytes(1002, &[]));
    let total = bytes.len() as u64;
    let mut stream = ReadSeeker::new(bytes);
    let sample = FlowSample::read_and_decode(&mut stream);
    assert_eq!(
        sample,
        Ok(FlowSample {
            sequence_number: 11,
            sflow_data_source: SourceID(22),
            sampling_rate: 33,
            sample_pool: 44,
            drops: 55,
            input_id: Interface(66),
            output_id: Interface(77),
            flow_records: vec![
                FlowRecord { format: 1, data: vec![0xa, 0xb, 0xc, 0xd] },
                FlowRecord { format: 1002, data: vec![] },
            ],
        })
    );
    assert_eq!(stream.position(), total);
    assert_eq!(total, 32 + 12 + 8);
}

#[test]
fn flow_sample_without_flow_records_takes_eight_words() {
    let mut bytes = words(&[1, 2, 3, 4, 5, 6, 7, 0]);
    bytes.extend_from_slice(&[0xff; 5]);
    let mut stream = ReadSeeker::new(bytes);
    let sample = FlowSample::read_and_decode(&mut stream).unwrap();
    assert!(sample.flow_records.is_empty());
    assert_eq!(stream.position(), 32);
}

#[test]
fn flow_sample_with_zero_drops_decodes() {
    let mut stream = ReadSeeker::new(words(&[9, 3, 1024, 500_000, 0, 4, 5, 0]));
    let sample = FlowSample::read_and_decode(&mut stream);
    assert!(sample.is_ok());
    let sample = sample.unwrap();
    assert_eq!(sample.drops, 0);
    assert_eq!(sample.sequence_number, 9);
    assert_eq!(sample.sampling_rate, 1024);
    assert_eq!(sample.sample_pool, 500_000);
    assert_eq!(stream.position(), 32);
}

#[test]
fn flow_sample_of_all_zero_words_decodes() {
    let mut stream = ReadSeeker::new(vec![0; 32]);
    assert_eq!(FlowSample::read_and_decode(&mut stream), Ok(FlowSample::default()));
    assert_eq!(stream.position(), 32);
}

#[test]
fn flow_sample_of_extreme_words_decodes() {
    let max = u32::MAX;
    let mut stream = ReadSeeker::new(words(&[max, max, max, max, max, max, max, 0]));
    let sample = FlowSample::read_and_decode(&mut stream).unwrap();
    assert_eq!(sample.sequence_number, max);
    assert_eq!(sample.sflow_data_source, SourceID(max));
    assert_eq!(sample.drops, max);
    assert_eq!(sample.input_id, Interface(max));
    assert_eq!(sample.output_id, Interface(max));
}

#[test]
fn flow_sample_cut_short_fails_where_the_stream_ends() {
    let mut whole = words(&[11, 22, 33, 44, 55, 66, 77, 1]);
    whole.extend(flow_record_bytes(1, &[1, 2, 3, 4, 5, 6]));
    for len in 0..whole.len() {
        let mut stream = ReadSeeker::new(whole[..len].to_vec());
        assert_eq!(FlowSample::read_and_decode(&mut stream), Err(DecodeError::Io), "cut at {}", len);
        let stopped = if len < 40 { (len as u64 / 4) * 4 } else { 40 };
        assert_eq!(stream.position(), stopped, "cut at {}", len);
    }
    let mut stream = ReadSeeker::new(whole);
    assert!(FlowSample::read_and_decode(&mut stream).is_ok());
    assert_eq!(stream.position(), 46);
}

#[test]
fn flow_sample_decodes_from_where_the_cursor_stands() {
    let mut bytes = vec![0xde, 0xad, 0xbe, 0xef];
    bytes.extend(words(&[1, 2, 3, 4, 5, 6, 7, 0]));
    let mut stream = ReadSeeker::new(bytes);
    assert_eq!(stream.be_read_u32(), Ok(0xdead_beef));
    let sample = FlowSample::read_and_decode(&mut stream).unwrap();
    assert_eq!(sample.sequence_number, 1);
    assert_eq!(sample.output_id, Interface(7));
    assert_eq!(stream.position(), 36);
}
