use edge_proxy::catalog::{game_from_detail, PpvsuStreamDetail};
use edge_proxy::errors::AppError;
use edge_proxy::obfuscation::parse_protobuf;
use edge_proxy::proxy::ProxyController;

#[test]
fn status_codes_match_error_kinds() {
    assert_eq!(AppError::BadRequest("x".to_string()).status_code(), 400);
    assert_eq!(AppError::Unauthorized.status_code(), 401);
    assert_eq!(AppError::NotFound("x".to_string()).status_code(), 404);
    assert_eq!(AppError::InternalServerError.status_code(), 500);
    assert_eq!(AppError::InternalServerErrorWithContext("x".to_string()).status_code(), 500);
    assert_eq!(AppError::ServiceUnavailable.status_code(), 503);
}

#[test]
fn bad_url_encoding_is_a_bad_request() {
    assert!(matches!(
        ProxyController::decode_url("!!!not-base64!!!"),
        Err(AppError::BadRequest(_))
    ));
}

#[test]
fn missing_protobuf_field_is_internal() {
    assert!(matches!(
        parse_protobuf(&[]),
        Err(AppError::InternalServerErrorWithContext(_))
    ));
}

#[test]
fn stream_without_sources_is_not_found() {
    let detail = PpvsuStreamDetail {
        id: 1,
        name: "n".to_string(),
        poster: "p".to_string(),
        start_timestamp: 0,
        end_timestamp: 0,
        sources: vec![],
        category_name: None,
    };
    assert!(matches!(game_from_detail(&detail, 0), Err(AppError::NotFound(_))));
}
