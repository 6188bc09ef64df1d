//! Statuses and pages of HTTP answers.

use vstd::prelude::*;
use vstd::string::*;

verus! {

/// The statuses that the service answers with.
#[derive(Debug, Clone, Copy, PartialEq, Eq, Structural)]
pub enum Status {
    Success,
    Created,
    NoContent,
    BadRequest,
    Unauthorized,
    Forbidden,
    NotFound,
    TooManyRequests,
    InternalServerError,
}

/// The kinds of pages.
#[derive(Debug, Clone, Copy, PartialEq, Eq, Structural)]
pub enum PageKind {
    Plain,
    Html,
    Json,
}

/// An answer with a body.
#[derive(Debug)]
pub struct Page {
    pub status: Status,
    pub kind: PageKind,
    pub body: String,
}

/// The number of a status.
pub open spec fn status_code(status: Status) -> u16 {
    match status {
        Status::Success => 200,
        Status::Created => 201,
        Status::NoContent => 204,
        Status::BadRequest => 400,
        Status::Unauthorized => 401,
        Status::Forbidden => 403,
        Status::NotFound => 404,
        Status::TooManyRequests => 429,
        Status::InternalServerError => 500,
    }
}

/// The number of a status with its standard phrase.
pub open spec fn status_line(status: Status) -> Seq<char> {
    match status {
        Status::Success => "200 OK"@,
        Status::Created => "201 Created"@,
        Status::NoContent => "204 No Content"@,
        Status::BadRequest => "400 Bad Request"@,
        Status::Unauthorized => "401 Unauthorized"@,
        Status::Forbidden => "403 Forbidden"@,
        Status::NotFound => "404 Not Found"@,
        Status::TooManyRequests => "429 Too Many Requests"@,
        Status::InternalServerError => "500 Internal Server Error"@,
    }
}

impl Status {
    /// The number of the status.
    pub fn code(self) -> (r: u16)
        ensures
            r == status_code(self),
    {
        match self {
            Status::Success => 200,
            Status::Created => 201,
            Status::NoContent => 204,
            Status::BadRequest => 400,
            Status::Unauthorized => 401,
            Status::Forbidden => 403,
            Status::NotFound => 404,
            Status::TooManyRequests => 429,
            Status::InternalServerError => 500,
        }
    }

    /// The number of the status with its standard phrase.
    pub fn line(self) -> (r: &'static str)
        ensures
            r@ == status_line(self),
    {
        match self {
            Status::Success => "200 OK",
            Status::Created => "201 Created",
            Status::NoContent => "204 No Content",
            Status::BadRequest => "400 Bad Request",
            Status::Unauthorized => "401 Unauthorized",
            Status::Forbidden => "403 Forbidden",
            Status::NotFound => "404 Not Found",
            Status::TooManyRequests => "429 Too Many Requests",
            Status::InternalServerError => "500 Internal Server Error",
        }
    }
}

/// The text of the page for an error.
pub open spec fn error_body(status: Status, message: Seq<char>) -> Seq<char> {
    status_line(status) + seq![' '] + message
}

/// The page is the plain text page for an error.
pub open spec fn is_error_page(page: Page, status: Status, message: Seq<char>) -> bool {
    &&& page.status == status
    &&& page.kind == PageKind::Plain
    &&& page.body@ == error_body(status, message)
}

/// The plain text page for an error.
pub fn error_page(status: Status, message: &str) -> (r: Page)
    ensures
        is_error_page(r, status, message@),
{
    let mut body = status.line().to_owned();
    body.push(' ');
    assert(body@ =~= status_line(status) + seq![' ']);
    body.append(message);
    Page { status, kind: PageKind::Plain, body }
}

/// What is said of a failure inside the service.
pub open spec fn internal_message() -> Seq<char> {
    "Something went wrong."@
}

/// The page for a failure inside the service.
pub fn internal_page() -> (r: Page)
    ensures
        is_error_page(r, Status::InternalServerError, internal_message()),
{
    error_page(Status::InternalServerError, "Something went wrong.")
}

// ---------------------------------------------------------------- laws

/// No two statuses share a number: those of success are from 200 on, those of
/// a client's fault from 400 on, and that of the service's own from 500 on.
pub proof fn lemma_status_codes(a: Status, b: Status)
    ensures
        status_code(a) == status_code(b) ==> a == b,
        200 <= status_code(a) < 300 <==> a == Status::Success || a == Status::Created || a
            == Status::NoContent,
        500 <= status_code(a) <==> a == Status::InternalServerError,
        status_code(a) < 300 || 400 <= status_code(a) <= 500,
        status_code(Status::Success) == 200,
        status_code(Status::Created) == 201,
        status_code(Status::NoContent) == 204,
        status_code(Status::BadRequest) == 400,
        status_code(Status::Unauthorized) == 401,
        status_code(Status::Forbidden) == 403,
        status_code(Status::NotFound) == 404,
        status_code(Status::TooManyRequests) == 429,
{
}

/// The line of a status begins with the digits of its number and a space.
pub proof fn lemma_status_line_has_the_code(status: Status)
    ensures
        status_line(status).len() > 4,
        status_line(status)[0] as int - 48 == status_code(status) as int / 100,
        status_line(status)[1] as int - 48 == status_code(status) as int / 10 % 10,
        status_line(status)[2] as int - 48 == status_code(status) as int % 10,
        status_line(status)[3] == ' ',
{
    reveal_strlit("200 OK");
    reveal_strlit("201 Created");
    reveal_strlit("204 No Content");
    reveal_strlit("400 Bad Request");
    reveal_strlit("401 Unauthorized");
    reveal_strlit("403 Forbidden");
    reveal_strlit("404 Not Found");
    reveal_strlit("429 Too Many Requests");
    reveal_strlit("500 Internal Server Error");
}

/// The page of an error says its status, a space and the message, and nothing
/// else.
pub proof fn lemma_error_body_parts(status: Status, message: Seq<char>)
    ensures
        error_body(status, message).len() == status_line(status).len() + 1 + message.len(),
        error_body(status, message).take(status_line(status).len() as int) == status_line(status),
        error_body(status, message)[status_line(status).len() as int] == ' ',
        error_body(status, message).skip(status_line(status).len() as int + 1) == message,
{
    let body = error_body(status, message);
    assert(body.take(status_line(status).len() as int) =~= status_line(status));
    assert(body.skip(status_line(status).len() as int + 1) =~= message);
}

/// The page for an error is in plain text and has the status that it tells.
pub proof fn lemma_error_page(page: Page, status: Status, message: Seq<char>)
    ensures
        is_error_page(page, status, message) <==> {
            &&& page.status == status
            &&& page.kind == PageKind::Plain
            &&& page.body@ == status_line(status) + seq![' '] + message
        },
        internal_message() == "Something went wrong."@,
{
}

} // verus!
