use light_reader::domain::AppError;

#[test]
fn app_error_display() {
    let err = AppError::new("TEST_CODE", "test message");
    assert_eq!(err.display(), "[TEST_CODE] test message");
}

#[test]
fn app_error_with_detail() {
    let err = AppError::with_detail("CODE", "msg", "detail");
    assert_eq!(err.detail, Some("detail".to_string()));
}

#[test]
fn source_error_is_attached() {
    let err = AppError::new("TEST", "message").with_source(std::io::Error::other("boom").to_string());
    assert!(err.source.is_some());
}
