use httpcore::util::{public, sanitize_path, static_file_path};

#[test]
fn sanitize_removes_traversal_and_escapes() {
    assert_eq!(sanitize_path("/../etc//passwd"), "/etc/passwd");
    assert_eq!(sanitize_path("/a/../b"), "/a/b");
    assert_eq!(sanitize_path("~/secret"), "/secret");
    assert_eq!(sanitize_path("a\\b"), "ab");
    assert_eq!(sanitize_path("  /a b  "), "/ab");
    assert_eq!(sanitize_path("/plain/path.html"), "/plain/path.html");
}

#[test]
fn sanitize_collapses_double_slashes_once() {
    assert_eq!(sanitize_path("//x"), "/x");
    assert_eq!(sanitize_path("////x"), "//x");
}

#[test]
fn public_prefixes_the_public_directory() {
    assert_eq!(public("/index.html"), "src/public/index.html");
    assert_eq!(public("index.html"), "src/public/index.html");
    assert_eq!(public("src/public/index.html"), "src/public/index.html");
}

#[test]
fn static_file_path_fills_in_index() {
    assert_eq!(static_file_path(""), "src/public/index.html");
    assert_eq!(static_file_path("/"), "src/public/index.html");
    assert_eq!(static_file_path("/docs/"), "src/public/docs/index.html");
    assert_eq!(static_file_path("/a.html"), "src/public/a.html");
    assert_eq!(static_file_path("style.css"), "src/public/style.css");
}

#[test]
fn static_file_path_sanitizes_first() {
    assert_eq!(static_file_path("/../a.html"), "src/public/a.html");
}
