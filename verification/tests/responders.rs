use todo_framework::errors::{Error as AppError, ErrorKind as AppErrorKind};
use todo_framework::framework::errors::{Error, ErrorKind};
use todo_framework::framework::http::StatusCode;
use todo_framework::framework::responder::{Json, Responder};
use todo_framework::http::{reason_or_empty, ContentKind, Header, Reply};
use todo_framework::models::{NewTodo, Todo};

#[test]
fn reason_phrases_come_from_hyper() {
    assert_eq!(reason_or_empty(404), "Not Found");
    assert_eq!(reason_or_empty(200), "OK");
    assert_eq!(reason_or_empty(418), "I'm a teapot");
    assert_eq!(reason_or_empty(299), "");
    assert_eq!(reason_or_empty(42), "");
    assert_eq!(reason_or_empty(700), "");
}

#[test]
fn status_code_reply_has_reason_body() {
    let r = StatusCode(404).respond();
    assert_eq!(r.status, 404);
    assert_eq!(r.body, "Not Found");
    assert!(r.headers.is_empty());
    let r = StatusCode(599).respond();
    assert_eq!(r.status, 599);
    assert_eq!(r.body, "");
}

#[test]
fn serde_error_is_bad_request() {
    let r = Error::from_kind(ErrorKind::Serde("expected value".to_string())).respond();
    assert_eq!(r.status, 400);
    assert_eq!(r.body, "Bad Request");
}

#[test]
fn other_errors_are_internal() {
    for kind in vec![
        ErrorKind::Msg("m".to_string()),
        ErrorKind::Hyper("h".to_string()),
        ErrorKind::Io("i".to_string()),
        ErrorKind::Db("d".to_string()),
        ErrorKind::UnknownContentType("x/y".to_string()),
    ] {
        let r = Error::from_kind(kind).respond();
        assert_eq!(r.status, 500);
        assert_eq!(r.body, "Internal Server Error");
    }
}

#[test]
fn error_descriptions() {
    assert_eq!(Error::from_kind(ErrorKind::Msg("oops".to_string())).description(), "oops");
    assert_eq!(Error::from_kind(ErrorKind::Io("disk".to_string())).description(), "disk");
    assert_eq!(
        Error::from_kind(ErrorKind::UnknownContentType("x/y".to_string())).description(),
        "unknown content type"
    );
    assert!(matches!(Error::from_kind(ErrorKind::Db("d".to_string())).kind(), ErrorKind::Db(_)));
    assert_eq!(AppError::from_kind(AppErrorKind::Serde("s".to_string())).description(), "s");
    assert_eq!(AppError::from_kind(AppErrorKind::Hyper("h".to_string())).description(), "h");
    assert_eq!(AppError::from_kind(AppErrorKind::Msg("m".to_string())).description(), "m");
}

#[test]
fn text_reply_sets_length_and_type() {
    let r = "h\u{e9}".respond();
    assert_eq!(r.status, 200);
    assert_eq!(r.body, "h\u{e9}");
    assert_eq!(r.headers, vec![Header::ContentLength(3), Header::ContentType(ContentKind::Plaintext)]);
    let s = "h\u{e9}".to_string().respond();
    assert_eq!(s.headers, r.headers);
    assert_eq!(s.body, r.body);
}

#[test]
fn unit_reply_is_empty_ok() {
    let r = ().respond();
    assert_eq!(r.status, 200);
    assert!(r.headers.is_empty());
    assert_eq!(r.body, "");
}

#[test]
fn reply_passes_through() {
    let r = Responder::respond(Reply::new().with_status(201).with_body("x".to_string()));
    assert_eq!(r.status, 201);
    assert_eq!(r.body, "x");
}

#[test]
fn with_header_replaces_same_kind_in_place() {
    let r = Reply::new()
        .with_header(Header::ContentType(ContentKind::Html))
        .with_header(Header::ContentLength(5))
        .with_header(Header::ContentType(ContentKind::Xml));
    assert_eq!(r.headers, vec![Header::ContentType(ContentKind::Xml), Header::ContentLength(5)]);
}

#[test]
fn json_reply_sets_json_type() {
    let r = Json::<u8>::respond_with(Ok("{\"a\":1}".to_string()));
    assert_eq!(r.status, 200);
    assert_eq!(r.body, "{\"a\":1}");
    assert_eq!(r.headers, vec![Header::ContentLength(7), Header::ContentType(ContentKind::Json)]);
}

#[test]
fn json_serialize_failure_answers_with_error() {
    let r = Json::<u8>::respond_with(Err(Error::from_kind(ErrorKind::Serde("bad".to_string()))));
    assert_eq!(r.status, 400);
    let r = Json::<u8>::respond_with(Err(Error::from_kind(ErrorKind::Io("bad".to_string()))));
    assert_eq!(r.status, 500);
    assert!(Json::<u8>::try_respond_with(Err(Error::from_kind(ErrorKind::Io("bad".to_string())))).is_err());
    let wrapped = Json(3u8);
    assert_eq!(wrapped.0, 3);
}

#[test]
fn models_hold_fields() {
    let n = NewTodo { title: "t".to_string(), item_order: 2 };
    let t = Todo { id: 1, title: n.title.clone(), item_order: n.item_order, completed: false };
    assert_eq!(t.title, "t");
    assert_eq!(t.item_order, 2);
    assert!(!t.completed);
}

#[test]
fn reply_for_status_uses_given_phrase() {
    let r = todo_framework::framework::responder::reply_for_status(404, Some("Gone Away"));
    assert_eq!(r.status, 404);
    assert_eq!(r.body, "Gone Away");
    let r = todo_framework::framework::responder::reply_for_status(299, None);
    assert_eq!(r.body, "");
    assert!(r.headers.is_empty());
}
