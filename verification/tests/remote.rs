use nextsyncengine::helpers::remove_extended_prefix;
use nextsyncengine::paths::split_path;
use nextsyncengine::remote::{
    build_url, evaluate_auth_status, evaluate_exists_status, server_available, status_to_result,
    AuthOutcome, ExistsOutcome,
};

#[test]
fn test_build_url() {
    let base = "https://cloud.example/remote.php/dav/files/testuser";
    let parts = vec!["/remote_parent".to_string(), "test_file.txt".to_string()];
    assert_eq!(
        build_url(base, &parts),
        format!("{}/remote_parent/test_file.txt", base)
    );
}

#[test]
fn test_build_url_adds_missing_slash() {
    assert_eq!(
        build_url("http://h/dav", &vec!["a".to_string(), "/b".to_string()]),
        "http://h/dav/a/b".to_string()
    );
}

#[test]
fn test_server_available() {
    assert!(server_available(200));
    assert!(server_available(404));
    assert!(!server_available(503));
    assert!(!server_available(500));
}

#[test]
fn test_auth_outcomes() {
    assert_eq!(evaluate_auth_status(200), AuthOutcome::Authorized);
    assert_eq!(evaluate_auth_status(204), AuthOutcome::Authorized);
    assert_eq!(evaluate_auth_status(401), AuthOutcome::Unauthorized);
    assert_eq!(evaluate_auth_status(503), AuthOutcome::Error);
    assert_eq!(evaluate_auth_status(301), AuthOutcome::Unauthorized);
}

#[test]
fn test_exists_outcomes() {
    assert_eq!(evaluate_exists_status(207), ExistsOutcome::Exists);
    assert_eq!(evaluate_exists_status(404), ExistsOutcome::Missing);
    assert_eq!(evaluate_exists_status(503), ExistsOutcome::Error);
}

#[test]
fn test_status_to_result() {
    assert_eq!(status_to_result(201), Ok(()));
    assert_eq!(status_to_result(399), Ok(()));
    assert_eq!(status_to_result(400), Err(400));
    assert_eq!(status_to_result(599), Err(599));
}

#[test]
fn test_split_path_drops_empty_segments() {
    assert_eq!(
        split_path("/Test/2024/03/"),
        vec!["Test".to_string(), "2024".to_string(), "03".to_string()]
    );
    assert_eq!(split_path("a//b"), vec!["a".to_string(), "b".to_string()]);
    assert_eq!(split_path(""), Vec::<String>::new());
}

#[test]
fn test_remove_extended_prefix() {
    assert_eq!(
        remove_extended_prefix(r"\\?\C:\photos".to_string()),
        r"C:\photos".to_string()
    );
    assert_eq!(
        remove_extended_prefix(r"\\?\\\?\C:\x".to_string()),
        r"C:\x".to_string()
    );
    assert_eq!(
        remove_extended_prefix("/home/user".to_string()),
        "/home/user".to_string()
    );
}
