use literm::errors::AppError;
use literm::sandbox::FsService;

#[test]
fn resolving_the_empty_path_names_the_root() {
    let fs = FsService::new("/tmp").unwrap();
    let root = fs.root();
    let resolved = fs.resolve_path("").unwrap();
    assert_eq!(resolved, root);
}

#[test]
fn parent_traversal_cannot_escape_the_root() {
    let fs = FsService::new("/tmp").unwrap();
    match fs.resolve_path("../etc/passwd") {
        Err(AppError::BadRequest(m)) => assert_eq!(m, "path escapes root"),
        Err(AppError::Io(_)) => panic!("the path resolved nowhere, not outside"),
        _ => panic!("expected the escape to be refused"),
    }
    match fs.resolve_path("..") {
        Err(AppError::BadRequest(m)) => assert_eq!(m, "path escapes root"),
        _ => panic!("expected the escape to be refused"),
    }
}

#[test]
fn an_absolute_path_outside_the_root_is_refused() {
    let fs = FsService::new("/tmp").unwrap();
    match fs.resolve_path("/etc/passwd") {
        Err(AppError::BadRequest(m)) => assert_eq!(m, "path escapes root"),
        _ => panic!("expected the escape to be refused"),
    }
}

#[test]
fn a_missing_path_is_an_io_error() {
    let fs = FsService::new("/tmp").unwrap();
    match fs.resolve_path("no-such-entry-anywhere-here") {
        Err(AppError::Io(_)) => {}
        _ => panic!("expected an io error"),
    }
}

#[test]
fn escape_refusal_renders_as_a_400_with_the_exact_body() {
    let fs = FsService::new("/tmp").unwrap();
    let err = fs.resolve_path("../etc/passwd").unwrap_err();
    let (status, body) = err.response_parts();
    assert_eq!(status, 400);
    assert_eq!(body, "{\"error\":\"bad request: path escapes root\"}");
}

#[test]
fn resolved_paths_round_trip_through_to_relative() {
    let fs = FsService::new("/").unwrap();
    let resolved = fs.resolve_path("tmp").unwrap();
    let rel = fs.to_relative(resolved.as_str()).unwrap();
    let again = fs.resolve_path(rel.as_str()).unwrap();
    assert_eq!(again, resolved);
}

#[test]
fn to_relative_strips_the_root_by_whole_components() {
    let fs = FsService::new("/tmp").unwrap();
    let root = fs.root();
    assert_eq!(fs.to_relative(root.as_str()).unwrap(), "");
    assert_eq!(fs.to_relative(&format!("{root}/a/b")).unwrap(), "a/b");
    // A sibling whose name merely extends the root's text is outside.
    assert!(fs.to_relative(&format!("{root}extra")).is_none());
    assert!(fs.to_relative("/somewhere/else").is_none());
}

#[test]
fn root_is_canonical_and_absolute() {
    let fs = FsService::new("/tmp/..").unwrap();
    assert_eq!(fs.root(), "/");
    let fs2 = FsService::new("/no/such/directory/exists");
    assert!(matches!(fs2, Err(AppError::Io(_))));
}
