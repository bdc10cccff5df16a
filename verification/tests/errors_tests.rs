use literm::errors::AppError;

#[test]
fn every_variant_renders_its_prefix_and_status() {
    let cases: Vec<(AppError, u16, String)> = vec![
        (AppError::Config("bad".to_string()), 500, "config error: bad".to_string()),
        (AppError::Io("gone".to_string()), 500, "io error: gone".to_string()),
        (AppError::Toml("line 3".to_string()), 500, "toml parse error: line 3".to_string()),
        (AppError::Unauthorized, 401, "unauthorized".to_string()),
        (AppError::BadRequest("why".to_string()), 400, "bad request: why".to_string()),
        (AppError::Internal("oops".to_string()), 500, "internal error: oops".to_string()),
        (AppError::Hdf5("no file".to_string()), 500, "hdf5 error: no file".to_string()),
    ];
    for (err, status, message) in cases {
        assert_eq!(err.status_code(), status);
        assert_eq!(err.message(), message);
        let (got_status, body) = err.response_parts();
        assert_eq!(got_status, status);
        assert_eq!(body, format!("{{\"error\":{}}}", serde_json::to_string(&message).unwrap()));
    }
}

#[test]
fn error_bodies_escape_their_messages() {
    let err = AppError::BadRequest("a \"quoted\"\npath".to_string());
    let (_, body) = err.response_parts();
    assert_eq!(body, "{\"error\":\"bad request: a \\\"quoted\\\"\\npath\"}");
}
