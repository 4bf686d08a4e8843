//! A small HTTP routing framework: path-keyed routers, a prefix tree of
//! routes, response building and the static-file rules, each stated over
//! plain values and proved with Verus.

pub mod text;
pub mod http;
pub mod slots;
pub mod paths;
pub mod matching;
pub mod errors;
pub mod responder;
pub mod router;
pub mod route_table;
pub mod static_route;
pub mod handlers;
pub mod models;
pub mod framework;
