//! The boundary's response payloads: the success body echoes the delivery
//! identifier, a client error carries code 400, a server error code 500,
//! each with its human-readable message.

use vstd::prelude::*;
use vstd::string::*;

use crate::notify::EmailConfig;

verus! {

/// The wire shape of an error reply.
#[derive(Debug, Clone)]
pub struct HttpErrMessage {
    pub code: Option<i32>,
    pub error: Option<String>,
    pub message: String,
}

/// The process-wide state each request handler reads.
pub struct AppState {
    pub email_config: EmailConfig,
}

/// A server-error reply: code 500, the delivery failure's message.
pub fn err500(message: &str) -> (r: HttpErrMessage)
    ensures
        r.code == Some(500i32),
        r.error matches Some(e) && e@ == "Server Error"@,
        r.message@ == message@,
{
    HttpErrMessage {
        code: Some(500),
        error: Some("Server Error".to_owned()),
        message: message.to_owned(),
    }
}

/// A client-error reply: code 400, the validation failure's message.
pub fn err400(message: &str) -> (r: HttpErrMessage)
    ensures
        r.code == Some(400i32),
        r.error matches Some(e) && e@ == "Bad Request"@,
        r.message@ == message@,
{
    HttpErrMessage {
        code: Some(400),
        error: Some("Bad Request".to_owned()),
        message: message.to_owned(),
    }
}

} // verus!
