use stream_decoder::provider::DataError;
use stream_decoder::source::SourceFault;

#[test]
fn source_errors_compare_equal_whatever_the_cause() {
    let a = DataError::IOError(SourceFault {
        message: String::from("connection reset"),
    });
    let b = DataError::IOError(SourceFault {
        message: String::from("disk gone"),
    });
    assert_eq!(a, b);
}

#[test]
fn distinct_variants_compare_unequal() {
    let fault = DataError::IOError(SourceFault {
        message: String::new(),
    });
    assert_ne!(DataError::EndOfStream, DataError::Utf8Error);
    assert_ne!(DataError::EndOfStream, fault);
    assert_ne!(DataError::Utf8Error, fault);
}

#[test]
fn payload_free_variants_compare_equal_to_themselves() {
    assert_eq!(DataError::EndOfStream, DataError::EndOfStream);
    assert_eq!(DataError::Utf8Error, DataError::Utf8Error);
}
