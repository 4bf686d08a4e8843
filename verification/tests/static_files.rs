use todo_framework::http::{ContentKind, Header};
use todo_framework::static_route::{get_content_type, StaticRouter};

#[test]
fn content_types_by_extension() {
    assert_eq!(get_content_type("jpeg"), Some(ContentKind::Jpeg));
    assert_eq!(get_content_type("jpg"), Some(ContentKind::Jpeg));
    assert_eq!(get_content_type("png"), Some(ContentKind::Png));
    assert_eq!(get_content_type("txt"), Some(ContentKind::Plaintext));
    assert_eq!(get_content_type("html"), Some(ContentKind::Html));
    assert_eq!(get_content_type("xml"), Some(ContentKind::Xml));
    assert_eq!(get_content_type("gif"), None);
    assert_eq!(get_content_type("HTML"), None);
    assert_eq!(get_content_type(""), None);
}

#[test]
fn file_path_joins_root_and_request() {
    let r = StaticRouter::new("/srv/www".to_string());
    assert_eq!(r.file_path("css/site.css"), "/srv/www/css/site.css");
    // an absolute request path replaces the root, as PathBuf::push does
    assert_eq!(r.file_path("/index.html"), "/index.html");
}

#[test]
fn file_response_with_known_type() {
    let r = StaticRouter::new("/srv".to_string());
    let reply = r.file_response("/srv/index.html", "<p>hi</p>".to_string());
    assert_eq!(reply.status, 200);
    assert_eq!(reply.body, "<p>hi</p>");
    assert_eq!(reply.headers, vec![Header::ContentLength(9), Header::ContentType(ContentKind::Html)]);
}

#[test]
fn file_response_with_unknown_type() {
    let r = StaticRouter::new("/srv".to_string());
    let reply = r.file_response("/srv/notes.md", "abc".to_string());
    assert_eq!(reply.headers, vec![Header::ContentLength(3)]);
    let reply = r.file_response("/srv/Makefile", String::new());
    assert_eq!(reply.headers, vec![Header::ContentLength(0)]);
}
