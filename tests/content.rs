use webview_bridge::{content_reply, drive_path, extension, mime_type};

#[test]
fn mime_types_by_extension() {
    assert_eq!(mime_type("/site/index.html"), "text/html");
    assert_eq!(mime_type("style.css"), "text/css");
    assert_eq!(mime_type("app.js"), "application/javascript");
    assert_eq!(mime_type("logo.png"), "image/png");
    assert_eq!(mime_type("photo.jpg"), "image/jpeg");
    assert_eq!(mime_type("photo.jpeg"), "image/jpeg");
    assert_eq!(mime_type("icon.svg"), "image/svg+xml");
}

#[test]
fn mime_type_falls_back_to_plain_text() {
    assert_eq!(mime_type("archive.tar.gz"), "text/plain");
    assert_eq!(mime_type("README"), "text/plain");
    assert_eq!(mime_type(""), "text/plain");
    assert_eq!(mime_type("page.HTML"), "text/plain");
}

#[test]
fn mime_type_of_dotless_name_uses_whole_name() {
    assert_eq!(mime_type("html"), "text/html");
}

#[test]
fn extension_is_after_last_dot() {
    assert_eq!(extension("a.b.c"), "c");
    assert_eq!(extension("dir.v2/file"), "v2/file");
    assert_eq!(extension("trailing."), "");
    assert_eq!(extension("none"), "none");
}

#[test]
fn drive_path_drops_leading_slash() {
    assert_eq!(drive_path("/C:/hello/index.html"), "C:/hello/index.html");
    assert_eq!(drive_path("/usr/share/index.html"), "/usr/share/index.html");
    assert_eq!(drive_path("/C"), "/C");
}

#[test]
fn content_reply_serves_file() {
    let r = content_reply("/x/app.js", Some(vec![1, 2, 3]));
    assert_eq!(r.status, 200);
    assert_eq!(r.content_type, Some("application/javascript"));
    assert_eq!(r.body, vec![1, 2, 3]);
}

#[test]
fn content_reply_missing_file_is_not_found() {
    let r = content_reply("/x/app.js", None);
    assert_eq!(r.status, 404);
    assert_eq!(r.content_type, None);
    assert_eq!(r.body, b"Not Found".to_vec());
}
