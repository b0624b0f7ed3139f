//! What the HTTP endpoints answer.
pub mod routes;

pub use routes::AppState;
