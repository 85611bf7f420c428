use stream_decoder::provider::{DataError, DataProvider};
use stream_decoder::source::FakeDataReader;

#[test]
fn should_not_set_eos_if_still_have_data() {
    let mut provider = DataProvider::new(FakeDataReader::new(vec![1, 2], false));
    let mut buf = vec![0u8; 2];
    assert!(provider.read_bytes(&mut buf).is_ok());

    assert_eq!(&buf[..], &[1, 2]);
}

#[test]
fn should_set_eos_if_try_to_read_too_much_data() {
    let mut provider = DataProvider::new(FakeDataReader::new(vec![1, 2, 3, 4], false));
    let mut buf = vec![0u8; 5];
    assert!(provider.read_bytes(&mut buf).is_err());

    assert_eq!(&buf[0..4], &[1, 2, 3, 4]);
}

#[test]
fn should_fail_if_data_reader_fails() {
    let mut provider = DataProvider::new(FakeDataReader::new(vec![1, 2], true));
    let mut buf = vec![0u8; 2];

    assert!(provider.read_bytes(&mut buf).is_err());
}

#[test]
fn reads_are_exact_for_every_batching() {
    for bound in 1..6usize {
        let data = vec![10u8, 20, 30, 40, 50];
        let mut provider = DataProvider::new(FakeDataReader::with_batch_bound(data, bound));
        let mut buf = vec![0u8; 5];
        assert!(provider.read_bytes(&mut buf).is_ok());
        assert_eq!(&buf[..], &[10, 20, 30, 40, 50]);
    }
}

#[test]
fn over_read_fails_with_end_of_stream_after_serving_the_rest() {
    let mut provider = DataProvider::new(FakeDataReader::new(vec![1, 2, 3, 4], false));
    let mut buf = vec![0u8; 5];
    let outcome = provider.read_bytes(&mut buf);
    assert_eq!(outcome.unwrap_err(), DataError::EndOfStream);
    assert_eq!(&buf[0..4], &[1, 2, 3, 4]);
}

#[test]
fn broken_source_fails_first_one_byte_read_with_source_error() {
    let mut provider = DataProvider::new(FakeDataReader::new(vec![1, 2], true));
    let mut buf = vec![0u8; 1];
    let outcome = provider.read_bytes(&mut buf);
    assert!(matches!(outcome, Err(DataError::IOError(_))));
}

#[test]
fn consecutive_single_byte_reads_advance_in_order() {
    let mut provider = DataProvider::new(FakeDataReader::new(vec![1, 2], false));
    let mut first = vec![0u8; 1];
    let mut second = vec![0u8; 1];
    assert!(provider.read_bytes(&mut first).is_ok());
    assert!(provider.read_bytes(&mut second).is_ok());
    assert_eq!(first[0], 1);
    assert_eq!(second[0], 2);
}

#[test]
fn reads_span_refills_beyond_one_buffer() {
    let mut data = Vec::new();
    for i in 0..600usize {
        data.push((i % 251) as u8);
    }
    let expected = data.clone();
    let mut provider = DataProvider::new(FakeDataReader::new(data, false));
    let mut buf = vec![0u8; 600];
    assert!(provider.read_bytes(&mut buf).is_ok());
    assert_eq!(buf, expected);
}

#[test]
fn empty_read_succeeds_on_empty_source() {
    let mut provider = DataProvider::new(FakeDataReader::new(Vec::new(), false));
    let mut buf = vec![0u8; 0];
    assert!(provider.read_bytes(&mut buf).is_ok());
}
