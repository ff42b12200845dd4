use time::error::{ComponentRange, Error, Format, IndeterminateOffset};
use time::Time;

#[test]
fn indeterminate_offset() {
    assert_eq!(
        IndeterminateOffset.message().as_bytes().to_vec(),
        Error::IndeterminateOffset.message()
    );
    assert!(match Error::from(IndeterminateOffset) {
        Error::IndeterminateOffset => true,
        _ => false,
    });
}

#[test]
fn component_range_message() {
    let err = match Time::from_hms(24, 0, 0) {
        Err(e) => e,
        Ok(_) => panic!("24 must not be a valid hour"),
    };
    assert_eq!(err.message(), b"hour must be in the range 0..=23".to_vec());
}

#[test]
fn component_range_message_negative_bounds() {
    let err = ComponentRange {
        name: "hours",
        minimum: -23,
        maximum: 23,
        value: 30,
        conditional_range: false,
    };
    assert_eq!(err.message(), b"hours must be in the range -23..=23".to_vec());
}

#[test]
fn error_wraps_component_range() {
    let err = match Time::from_hms(0, 60, 0) {
        Err(e) => e,
        Ok(_) => panic!("60 must not be a valid minute"),
    };
    let wrapped = Error::from(err);
    assert_eq!(wrapped.component_range(), Some(err));
    assert_eq!(wrapped.message(), err.message());
}

#[test]
fn format_error_messages() {
    assert_eq!(
        Format::InsufficientTypeInformation.message(),
        "The format provided requires more information than the type provides."
    );
    assert_eq!(
        Error::ConversionRange.message(),
        b"Source value is out of range for the target type".to_vec()
    );
}
