use todo_framework::framework::router::vecrouter::VecRouter as SubVecRouter;
use todo_framework::framework::router::{default_not_found, Router as FrameworkRouter, SubRouter};
use todo_framework::http::Method;
use todo_framework::route_table::{self, Route, Target};
use todo_framework::router::vecrouter::VecRouter;
use todo_framework::router::{not_found, Router};

#[test]
fn vec_router_first_match_wins() {
    let mut r = VecRouter::new();
    r.insert("/todos", 1);
    r.insert("/todos/", 2);
    r.insert("/other", 3);
    assert_eq!(r.route("/todos"), Some(&1));
    assert_eq!(r.route("/todos/"), Some(&1));
    assert_eq!(r.route("/other"), Some(&3));
    assert_eq!(r.route("/none"), None);
}

#[test]
fn vec_router_empty_routes_nothing() {
    let r: VecRouter<u8> = VecRouter::new();
    assert_eq!(r.route("/"), None);
}

#[test]
fn vec_router_later_route_reached_when_earlier_differs() {
    let mut r = VecRouter::new();
    r.insert("/a", 1);
    assert_eq!(r.route("/b"), None);
    r.insert("/b", 2);
    assert_eq!(r.route("/b"), Some(&2));
    assert_eq!(r.route("/a"), Some(&1));
}

#[test]
fn method_router_separates_methods() {
    let r = Router::new().get("/todos", 1).post("/todos", 2).get("/", 3);
    assert_eq!(r.route(&Method::Get, "/todos"), Some(&1));
    assert_eq!(r.route(&Method::Post, "/todos"), Some(&2));
    assert_eq!(r.route(&Method::Get, "/"), Some(&3));
    assert_eq!(r.route(&Method::Post, "/"), None);
    assert_eq!(r.route(&Method::Delete, "/todos"), None);
}

#[test]
fn method_router_all_helpers() {
    let r = Router::new()
        .put("/p", 1)
        .patch("/p", 2)
        .delete("/p", 3)
        .method(Method::Extension("PURGE".to_string()), "/p", 4)
        .method(Method::Head, "/p", 5);
    assert_eq!(r.route(&Method::Put, "/p"), Some(&1));
    assert_eq!(r.route(&Method::Patch, "/p"), Some(&2));
    assert_eq!(r.route(&Method::Delete, "/p"), Some(&3));
    assert_eq!(r.route(&Method::Extension("PURGE".to_string()), "/p"), Some(&4));
    assert_eq!(r.route(&Method::Extension("OTHER".to_string()), "/p"), None);
    assert_eq!(r.route(&Method::Head, "/p"), Some(&5));
}

#[test]
fn method_router_registering_keeps_earlier_match() {
    let r = Router::new().get("/todos", 1).get("/todos/", 2);
    assert_eq!(r.route(&Method::Get, "/todos/"), Some(&1));
}

#[test]
fn not_found_reply_names_path() {
    let reply = not_found("/missing");
    assert_eq!(reply.status, 404);
    assert_eq!(reply.body, "Path not found: /missing");
    assert!(reply.headers.is_empty());
}

#[test]
fn route_table_dispatch() {
    let r = route_table::Router::new().get("/todos", 1).post("/todos", 2);
    assert!(matches!(r.route(&Method::Get, "/todos"), Target::Handler(&1)));
    assert!(matches!(r.route(&Method::Post, "/todos"), Target::Handler(&2)));
    assert!(matches!(r.route(&Method::Delete, "/todos"), Target::MethodNotAllowed));
    assert!(matches!(r.route(&Method::Get, "/nothing"), Target::NotFound));
    // exact paths only: no component matching here
    assert!(matches!(r.route(&Method::Get, "/todos/"), Target::NotFound));
}

#[test]
fn route_table_first_route_wins_and_new_routes_fill_gaps() {
    let r = route_table::Router::new().get("/a", 1).get("/a", 2).put("/a", 3).patch("/b", 4);
    assert!(matches!(r.route(&Method::Get, "/a"), Target::Handler(&1)));
    assert!(matches!(r.route(&Method::Put, "/a"), Target::Handler(&3)));
    assert!(matches!(r.route(&Method::Patch, "/b"), Target::Handler(&4)));
    assert!(matches!(r.route(&Method::Delete, "/b"), Target::MethodNotAllowed));
    let r = r.delete("/b", 5);
    assert!(matches!(r.route(&Method::Delete, "/b"), Target::Handler(&5)));
}

#[test]
fn route_table_route_new() {
    let _route = Route::new(Method::Get, "/x", 7);
    let r: route_table::Router<u8> = route_table::Router::new();
    assert!(matches!(r.route(&Method::Get, "/x"), Target::NotFound));
}

#[test]
fn route_table_replies() {
    let nf = route_table::not_found("/x");
    assert_eq!(nf.status, 404);
    assert_eq!(nf.body, "Path not found: /x");
    let mna = route_table::method_not_allowed();
    assert_eq!(mna.status, 405);
    assert_eq!(mna.body, "");
    let err = route_table::translate_error("boom".to_string());
    assert_eq!(err.status, 500);
    assert_eq!(err.body, "boom");
}

#[test]
fn framework_router_routes_and_falls_back() {
    let r = FrameworkRouter::new().get("/todos", 1).post("/todos", 2);
    assert_eq!(r.route(&Method::Get, "/todos"), Some(&1));
    assert_eq!(r.route(&Method::Get, "/todos/"), Some(&1));
    assert_eq!(r.route(&Method::Post, "/todos"), Some(&2));
    assert_eq!(r.route(&Method::Get, "/x"), None);
    let r = r.not_found(9);
    assert_eq!(r.route(&Method::Get, "/x"), Some(&9));
    assert_eq!(r.route(&Method::Put, "/todos"), Some(&9));
    assert_eq!(r.route(&Method::Get, "/todos"), Some(&1));
}

#[test]
fn framework_router_all_helpers() {
    let r = FrameworkRouter::new().put("/p", 1).patch("/p", 2).delete("/p", 3).method(Method::Options, "/p", 4);
    assert_eq!(r.route(&Method::Put, "/p"), Some(&1));
    assert_eq!(r.route(&Method::Patch, "/p"), Some(&2));
    assert_eq!(r.route(&Method::Delete, "/p"), Some(&3));
    assert_eq!(r.route(&Method::Options, "/p"), Some(&4));
}

#[test]
fn framework_default_not_found_reply() {
    let reply = default_not_found("/q");
    assert_eq!(reply.status, 404);
    assert_eq!(reply.body, "Path not found: /q");
}

#[test]
fn sub_vec_router_trait() {
    let mut r: SubVecRouter<u8> = SubRouter::empty();
    assert_eq!(r.route("/a"), None);
    r.insert("/a/", 1);
    r.insert("/a", 2);
    assert_eq!(r.route("/a"), Some(&1));
}

#[test]
fn method_same_as() {
    assert!(Method::Get.same_as(&Method::Get));
    assert!(!Method::Get.same_as(&Method::Post));
    assert!(Method::Extension("X".to_string()).same_as(&Method::Extension("X".to_string())));
    assert!(!Method::Extension("X".to_string()).same_as(&Method::Extension("Y".to_string())));
    assert!(!Method::Trace.same_as(&Method::Connect));
}
