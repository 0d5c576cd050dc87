use model_browser::paths::{
    check_request_path, check_within_root, download_extensions, image_extensions,
    mesh_extensions, thumbnail_extensions, validate_path, PathError,
};

/// A stand-in for the file system: the paths that exist, each resolving to itself.
fn resolver<'a>(existing: &'a [&'a str]) -> impl Fn(&str) -> Option<String> + 'a {
    move |p: &str| {
        if existing.contains(&p) {
            Some(p.to_string())
        } else {
            None
        }
    }
}

#[test]
fn test_rejects_parent_dir() {
    let result = validate_path("/tmp", "../etc/passwd", &[], '/', resolver(&["/tmp"]));
    assert!(matches!(result, Err(PathError::TraversalAttempt)));
}

#[test]
fn test_rejects_absolute_path() {
    let result = validate_path("/tmp", "/etc/passwd", &[], '/', resolver(&["/tmp"]));
    assert!(matches!(result, Err(PathError::AbsolutePath)));
}

#[test]
fn test_rejects_encoded_traversal() {
    let result = validate_path("/tmp", "%2e%2e/etc/passwd", &[], '/', resolver(&["/tmp"]));
    assert!(matches!(result, Err(PathError::TraversalAttempt)));
}

#[test]
fn test_rejects_disallowed_extension() {
    let root = "/tmp/model_browser_test_ext";
    let files = [root, "/tmp/model_browser_test_ext/test.txt"];
    let result = validate_path(root, "test.txt", &["stl", "3mf"], '/', resolver(&files));
    assert!(matches!(result, Err(PathError::DisallowedExtension)));
}

#[test]
fn test_accepts_valid_path() {
    let root = "/tmp/model_browser_test_valid";
    let files = [root, "/tmp/model_browser_test_valid/cube.stl"];
    let result = validate_path(root, "cube.stl", &["stl", "3mf"], '/', resolver(&files));
    assert!(result.is_ok());
    assert_eq!(result.unwrap(), "/tmp/model_browser_test_valid/cube.stl");
}

#[test]
fn missing_file_is_not_found() {
    let result = validate_path("/lib", "gone.stl", &["stl"], '/', resolver(&["/lib"]));
    assert_eq!(result, Err(PathError::NotFound));
}

#[test]
fn empty_path_is_not_found() {
    assert_eq!(check_request_path("", &[], '/'), Err(PathError::NotFound));
}

#[test]
fn invalid_utf8_encoding_is_refused() {
    assert_eq!(check_request_path("%ff.stl", &[], '/'), Err(PathError::InvalidEncoding));
}

#[test]
fn symlink_out_of_root_is_refused() {
    // The joined path resolves to a sibling directory that merely shares the prefix.
    let resolve = |p: &str| match p {
        "/lib" => Some("/lib".to_string()),
        "/lib/link.stl" => Some("/lib2/real.stl".to_string()),
        _ => None,
    };
    let result = validate_path("/lib", "link.stl", &["stl"], '/', resolve);
    assert_eq!(result, Err(PathError::OutsideRoot));
}

#[test]
fn within_root_needs_separator() {
    assert_eq!(check_within_root("/lib", "/lib2/a.stl", '/'), Err(PathError::OutsideRoot));
    assert_eq!(check_within_root("/lib", "/lib/a.stl", '/'), Ok(()));
    assert_eq!(check_within_root("/", "/a.stl", '/'), Ok(()));
    assert_eq!(check_within_root("/lib", "/lib", '/'), Err(PathError::OutsideRoot));
}

#[test]
fn percent_decoding_and_case_insensitive_extension() {
    assert_eq!(check_request_path("a%20b/Model.STL", &["stl"], '/'), Ok("a b/Model.STL".to_string()));
    assert_eq!(check_request_path("dir/x.3MF", &mesh_extensions(), '/'), Ok("dir/x.3MF".to_string()));
}

#[test]
fn dot_dot_inside_a_name_is_not_traversal() {
    assert_eq!(check_request_path("a..b/c.stl", &["stl"], '/'), Ok("a..b/c.stl".to_string()));
    assert_eq!(check_request_path("a/..", &[], '/'), Err(PathError::TraversalAttempt));
}

#[test]
fn extensionless_file_is_refused_by_allowlist() {
    assert_eq!(check_request_path("README", &["stl"], '/'), Err(PathError::DisallowedExtension));
    assert_eq!(check_request_path(".stl", &["stl"], '/'), Err(PathError::DisallowedExtension));
    assert_eq!(check_request_path("README", &[], '/'), Ok("README".to_string()));
}

#[test]
fn extension_lists_per_endpoint() {
    assert_eq!(mesh_extensions(), vec!["3mf", "stl"]);
    assert_eq!(image_extensions(), vec!["jpg", "jpeg", "png"]);
    assert_eq!(download_extensions(), vec!["3mf", "stl", "jpg", "jpeg", "png"]);
    assert_eq!(thumbnail_extensions(), vec!["3mf"]);
}

#[test]
fn error_status_and_messages() {
    assert_eq!(PathError::NotFound.status_code(), 404);
    assert_eq!(PathError::TraversalAttempt.status_code(), 400);
    assert_eq!(PathError::InvalidEncoding.message(), "Invalid path encoding");
    assert_eq!(PathError::TraversalAttempt.message(), "Path traversal not allowed");
    assert_eq!(PathError::AbsolutePath.message(), "Absolute paths not allowed");
    assert_eq!(PathError::OutsideRoot.message(), "Path outside library root");
    assert_eq!(PathError::DisallowedExtension.message(), "File type not allowed");
    assert_eq!(PathError::NotFound.message(), "File not found");
}

#[test]
fn windows_separators_are_honoured() {
    assert_eq!(check_request_path("..%5Cx.stl", &["stl"], '\\'), Err(PathError::TraversalAttempt));
    assert_eq!(check_request_path("a/..", &[], '\\'), Err(PathError::TraversalAttempt));
    assert_eq!(check_request_path("%5Cx.stl", &["stl"], '\\'), Err(PathError::AbsolutePath));
    assert_eq!(check_request_path("C:x.stl", &["stl"], '\\'), Err(PathError::AbsolutePath));
    assert_eq!(check_request_path("dir%5Cm.stl", &["stl"], '\\'), Ok("dir\\m.stl".to_string()));
    // On Unix a backslash is an ordinary character of a name.
    assert_eq!(check_request_path("..%5Cx.stl", &["stl"], '/'), Ok("..\\x.stl".to_string()));
    assert_eq!(check_within_root("C:\\lib", "C:\\lib\\a.stl", '\\'), Ok(()));
    assert_eq!(check_within_root("C:\\lib", "C:\\lib2\\a.stl", '\\'), Err(PathError::OutsideRoot));
}

#[test]
fn windows_join_uses_backslash() {
    let resolve = |p: &str| match p {
        "C:\\lib" => Some("C:\\lib".to_string()),
        "C:\\lib\\dir/m.stl" => Some("C:\\lib\\dir\\m.stl".to_string()),
        _ => None,
    };
    let result = validate_path("C:\\lib", "dir/m.stl", &["stl"], '\\', resolve);
    assert_eq!(result, Ok("C:\\lib\\dir\\m.stl".to_string()));
}
