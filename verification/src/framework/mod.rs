pub mod errors;
pub mod http;
pub mod responder;
pub mod router;
