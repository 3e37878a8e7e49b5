use yellowstone_grpc_geyser::block_meta::QueryError;
use yellowstone_grpc_geyser::status::{
    append_decimal, invalid_filter_message, lagged_message, StatusCode,
};

fn decimal(number: i32) -> String {
    let mut text = String::new();
    append_decimal(&mut text, number);
    text
}

#[test]
fn decimal_digits() {
    assert_eq!(decimal(0), "0");
    assert_eq!(decimal(7), "7");
    assert_eq!(decimal(10), "10");
    assert_eq!(decimal(1234567890), "1234567890");
    assert_eq!(decimal(-1), "-1");
    assert_eq!(decimal(-305), "-305");
    assert_eq!(decimal(i32::MAX), "2147483647");
    assert_eq!(decimal(i32::MIN), "-2147483648");
}

#[test]
fn decimal_is_appended() {
    let mut text = "slot ".to_string();
    append_decimal(&mut text, 42);
    assert_eq!(text, "slot 42");
}

#[test]
fn query_error_messages() {
    assert_eq!(QueryError::Startup.message(), "startup");
    assert_eq!(QueryError::BlockNotAvailable.message(), "block is not available yet");
    assert_eq!(QueryError::ResponseNotBuilt.message(), "failed to build response");
    assert_eq!(
        QueryError::UnknownCommitment(7).message(),
        "failed to create CommitmentLevel from 7"
    );
    assert_eq!(
        QueryError::UnknownCommitment(-12).message(),
        "failed to create CommitmentLevel from -12"
    );
}

#[test]
fn query_error_codes() {
    assert_eq!(QueryError::UnknownCommitment(3).code(), StatusCode::Unknown);
    assert_eq!(QueryError::Startup.code(), StatusCode::Internal);
    assert_eq!(QueryError::BlockNotAvailable.code(), StatusCode::Internal);
    assert_eq!(QueryError::ResponseNotBuilt.code(), StatusCode::Internal);
}

#[test]
fn session_messages() {
    assert_eq!(lagged_message(), "lagged");
    assert_eq!(invalid_filter_message("too many accounts"), "failed to create filter: too many accounts");
    assert_eq!(invalid_filter_message(""), "failed to create filter: ");
}
