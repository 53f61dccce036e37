//! The errors that the gateway itself answers with.

use vstd::prelude::*;

use crate::text::opt_text;

verus! {

/// The body of an error answer.
#[derive(Debug)]
pub struct OpenAiErrorResponse {
    pub error: OpenAiError,
}

/// An error in the form that OpenAI clients expect.
#[derive(Debug)]
pub struct OpenAiError {
    pub message: String,
    pub error_type: String,
    pub param: Option<String>,
    pub code: Option<String>,
}

/// An error answer: the HTTP status and the body.
#[derive(Debug)]
pub struct ErrorReply {
    pub status: u16,
    pub body: OpenAiErrorResponse,
}

/// What an error answer says.
pub struct ErrorView {
    pub status: u16,
    pub error_type: Seq<char>,
    pub message: Seq<char>,
    pub param: Option<Seq<char>>,
    pub code: Option<Seq<char>>,
}

impl View for ErrorReply {
    type V = ErrorView;

    open spec fn view(&self) -> ErrorView {
        ErrorView {
            status: self.status,
            error_type: self.body.error.error_type@,
            message: self.body.error.message@,
            param: opt_text(self.body.error.param),
            code: opt_text(self.body.error.code),
        }
    }
}

pub open spec fn opt_str(s: Option<&str>) -> Option<Seq<char>> {
    match s {
        Some(t) => Some(t@),
        None => None,
    }
}

/// The error that a request is refused with.
pub open spec fn invalid_request(
    status: u16,
    message: Seq<char>,
    param: Option<Seq<char>>,
    code: Seq<char>,
) -> ErrorView {
    ErrorView { status, error_type: "invalid_request_error"@, message, param, code: Some(code) }
}

/// The error of a request that could not be served.
pub open spec fn server_error(
    status: u16,
    message: Seq<char>,
    param: Option<Seq<char>>,
    code: Seq<char>,
) -> ErrorView {
    ErrorView { status, error_type: "server_error"@, message, param, code: Some(code) }
}

fn owned(s: Option<&str>) -> (r: Option<String>)
    ensures
        opt_text(r) == opt_str(s),
{
    match s {
        Some(t) => Some(t.to_owned()),
        None => None,
    }
}

/// An error answer with the given parts.
pub fn openai_error_response(
    status: u16,
    error_type: &str,
    message: &str,
    param: Option<&str>,
    code: Option<&str>,
) -> (r: ErrorReply)
    ensures
        r@ == (ErrorView {
            status,
            error_type: error_type@,
            message: message@,
            param: opt_str(param),
            code: opt_str(code),
        }),
{
    ErrorReply {
        status,
        body: OpenAiErrorResponse {
            error: OpenAiError {
                message: message.to_owned(),
                error_type: error_type.to_owned(),
                param: owned(param),
                code: owned(code),
            },
        },
    }
}

/// An error answer shows its status and the fields of its body.
pub proof fn error_answers_show_their_fields(reply: ErrorReply)
    ensures
        reply@.status == reply.status,
        reply@.error_type == reply.body.error.error_type@,
        reply@.message == reply.body.error.message@,
        reply.body.error.param matches Some(text) ==> reply@.param == Some(text@),
        reply.body.error.param is None ==> reply@.param is None,
        reply.body.error.code matches Some(text) ==> reply@.code == Some(text@),
        reply.body.error.code is None ==> reply@.code is None,
{
}

/// Optional text is shown as it is.
pub proof fn optional_text_is_shown(text: &str)
    ensures
        opt_str(Some(text)) == Some(text@),
        opt_str(None) == None::<Seq<char>>,
{
}

} // verus!
