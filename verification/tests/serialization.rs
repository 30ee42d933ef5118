use termscp::serialization::{SerializerError, SerializerErrorKind};

#[test]
fn test_config_serialization_errors() {
    let error: SerializerError = SerializerError::new(SerializerErrorKind::Syntax);
    assert!(error.msg.is_none());
    assert_eq!(error.to_message(), String::from("Syntax error"));
    let error: SerializerError =
        SerializerError::new_ex(SerializerErrorKind::Syntax, String::from("bad syntax"));
    assert!(error.msg.is_some());
    assert_eq!(error.to_message(), String::from("Syntax error (bad syntax)"));
    // Fmt
    assert_eq!(
        SerializerError::new(SerializerErrorKind::Generic).to_message(),
        String::from("Operation failed")
    );
    assert_eq!(
        SerializerError::new(SerializerErrorKind::Io).to_message(),
        String::from("IO error")
    );
    assert_eq!(
        SerializerError::new(SerializerErrorKind::Serialization).to_message(),
        String::from("Serialization error")
    );
}

#[test]
fn test_serializer_error_keeps_kind() {
    let error = SerializerError::new_ex(SerializerErrorKind::Io, String::from("disk full"));
    assert_eq!(error.kind, SerializerErrorKind::Io);
    assert_eq!(error.to_message(), String::from("IO error (disk full)"));
}
