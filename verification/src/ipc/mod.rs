//! The request/response protocol between the command-line client and the
//! running application, and the dispatcher that answers requests.
pub mod handlers;
pub mod types;
