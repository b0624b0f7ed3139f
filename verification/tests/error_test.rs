use amp_rs::error::AmpError;

#[test]
fn test_error_display() {
    let err = AmpError::Other("test error".to_string());
    assert_eq!(err.message(), "test error");
}

#[test]
fn test_error_from_io() {
    let io_err = std::io::Error::new(std::io::ErrorKind::NotFound, "not found");
    let amp_err = AmpError::from(io_err);
    assert!(amp_err.message().contains("not found"));
    assert!(amp_err.message().starts_with("IO error: "));
}

#[test]
fn test_error_messages_by_kind() {
    assert_eq!(
        AmpError::Embedding("no model".to_string()).message(),
        "Embedding error: no model"
    );
    assert_eq!(
        AmpError::Indexing("walk failed".to_string()).message(),
        "Indexing error: walk failed"
    );
    assert_eq!(
        AmpError::Config("bad port".to_string()).message(),
        "Config error: bad port"
    );
    let storage = AmpError::from(rusqlite::Error::QueryReturnedNoRows);
    assert!(matches!(storage, AmpError::Storage(_)));
    assert!(storage.message().starts_with("Storage error: "));
    let json_err = serde_json::from_str::<Vec<String>>("not json").unwrap_err();
    let ser = AmpError::from(json_err);
    assert!(matches!(ser, AmpError::Serialization(_)));
    assert!(ser.message().starts_with("Serialization error: "));
}
