use stream_decoder::provider::{DataError, DataProvider};
use stream_decoder::source::FakeDataReader;

#[test]
fn read_string_should_not_fail_if_valid_string() {
    let mut provider = DataProvider::new(FakeDataReader::new(vec![65, 66, 0], false));

    let message = provider.read_string();
    assert!(message.is_ok());
    assert_eq!("AB", message.unwrap());
}

#[test]
fn read_string_should_fail_if_no_zero_at_the_end() {
    let mut provider = DataProvider::new(FakeDataReader::new(vec![65, 66, 67, 68], false));

    let message = provider.read_string();
    assert!(message.is_err());
}

#[test]
fn read_string_should_fail_if_non_utf8_string() {
    let mut provider = DataProvider::new(FakeDataReader::new(vec![65, 220, 0, 5], false));

    let message = provider.read_string();
    assert!(message.is_err());
}

#[test]
fn unterminated_string_reports_end_of_stream() {
    let mut provider = DataProvider::new(FakeDataReader::new(vec![65, 66, 67, 68], false));
    let message = provider.read_string();
    assert_eq!(message.unwrap_err(), DataError::EndOfStream);
}

#[test]
fn invalid_utf8_reports_encoding_error() {
    let mut provider = DataProvider::new(FakeDataReader::new(vec![65, 220, 0], false));
    let message = provider.read_string();
    assert_eq!(message.unwrap_err(), DataError::Utf8Error);
}

#[test]
fn broken_source_fails_read_string_with_source_error() {
    let mut provider = DataProvider::new(FakeDataReader::new(vec![65, 0], true));
    let message = provider.read_string();
    assert!(matches!(message, Err(DataError::IOError(_))));
}

#[test]
fn leading_terminator_yields_empty_string() {
    let mut provider = DataProvider::new(FakeDataReader::new(vec![0], false));
    let message = provider.read_string();
    assert_eq!("", message.unwrap());
}

#[test]
fn terminator_is_consumed_but_not_included() {
    let mut provider = DataProvider::new(FakeDataReader::new(vec![72, 105, 0, 33], false));
    assert_eq!("Hi", provider.read_string().unwrap());
    let mut rest = vec![0u8; 1];
    assert!(provider.read_bytes(&mut rest).is_ok());
    assert_eq!(rest[0], 33);
}

#[test]
fn multibyte_utf8_text_is_decoded() {
    let mut bytes = String::from("héllo wörld ✓").into_bytes();
    bytes.push(0);
    let mut provider = DataProvider::new(FakeDataReader::new(bytes, false));
    assert_eq!("héllo wörld ✓", provider.read_string().unwrap());
}

#[test]
fn string_reads_span_refills() {
    let mut data = vec![97u8; 520];
    data.push(0);
    let mut provider = DataProvider::new(FakeDataReader::new(data, false));
    let message = provider.read_string().unwrap();
    assert_eq!(message.len(), 520);
    assert!(message.bytes().all(|b| b == 97));
}

#[test]
fn consecutive_strings_come_in_order() {
    let mut provider = DataProvider::new(FakeDataReader::new(vec![65, 0, 66, 0], false));
    assert_eq!("A", provider.read_string().unwrap());
    assert_eq!("B", provider.read_string().unwrap());
    assert_eq!(
        provider.read_string().unwrap_err(),
        DataError::EndOfStream
    );
}
