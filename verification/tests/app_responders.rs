use todo_framework::errors::{Error as AppError, ErrorKind as AppErrorKind};
use todo_framework::handlers::index;
use todo_framework::http::{ContentKind, Header, Reply};
use todo_framework::responder::{Gzip, Json as AppJson, NotFound, Responder as AppResponder};

#[test]
fn app_responders() {
    let r = "hi".respond().ok().unwrap();
    assert_eq!(r.headers, vec![Header::ContentLength(2), Header::ContentType(ContentKind::Plaintext)]);
    let r = String::from("hi").respond().ok().unwrap();
    assert_eq!(r.body, "hi");
    let r = AppResponder::respond(()).ok().unwrap();
    assert_eq!(r.status, 200);
    let r = NotFound.respond().ok().unwrap();
    assert_eq!(r.status, 404);
    assert_eq!(r.body, "");
    let r = AppResponder::respond(Reply::new().with_status(204)).ok().unwrap();
    assert_eq!(r.status, 204);
}

#[test]
fn app_json_replies() {
    let r = AppJson::<u8>::respond_with(Ok("[]".to_string())).ok().unwrap();
    assert_eq!(r.headers, vec![Header::ContentLength(2), Header::ContentType(ContentKind::Json)]);
    let e = AppJson::<u8>::respond_with(Err(AppError::from_kind(AppErrorKind::Serde("x".to_string()))));
    assert!(e.is_err());
}

#[test]
fn index_greets() {
    assert_eq!(index().ok(), Some("Hello, World!"));
}


#[test]
fn gzip_answers_as_wrapped_value() {
    let direct = AppResponder::respond("zip").ok().unwrap();
    let wrapped = Gzip("zip").respond().ok().unwrap();
    assert_eq!(wrapped.status, direct.status);
    assert_eq!(wrapped.headers, direct.headers);
    assert_eq!(wrapped.body, direct.body);
    let nf = Gzip(NotFound).respond().ok().unwrap();
    assert_eq!(nf.status, 404);
}
