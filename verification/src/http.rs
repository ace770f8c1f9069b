//! What requests carry and what a status says.
use crate::error::Error;
use vstd::prelude::*;

verus! {

/// The text of a status code: the code and its canonical reason, as `reqwest::StatusCode` writes
/// them by its `Display`.
pub uninterp spec fn status_line(code: u16) -> Seq<char>;

/// Whether a header may have this value: every character is a tab, or neither a control
/// character below the space nor the delete character.
pub open spec fn header_text(text: Seq<char>) -> bool {
    forall|i: int|
        0 <= i < text.len() ==> {
            ||| #[trigger] text[i] == '\t'
            ||| (text[i] as u32 >= 32 && text[i] as u32 != 127)
        }
}

/// A status code that `reqwest::StatusCode` can have.
pub open spec fn status_code(code: u16) -> bool {
    100 <= code <= 999
}

/// Calls `reqwest::StatusCode::is_success`, which is true of the codes from 200 to 299.
#[verifier::external_body]
pub(crate) fn code_is_success(code: u16) -> (yes: bool)
    requires
        status_code(code),
    ensures
        yes == (200 <= code <= 299),
{
    reqwest::StatusCode::from_u16(code).unwrap().is_success()
}

/// Writes a `reqwest::StatusCode` by its `Display`, which depends on the code alone.
#[verifier::external_body]
pub(crate) fn code_line(code: u16) -> (line: String)
    requires
        status_code(code),
    ensures
        line@ == status_line(code),
{
    reqwest::StatusCode::from_u16(code).unwrap().to_string()
}

/// Calls `reqwest::header::HeaderValue::from_str`, which refuses control characters other than
/// the tab, and nothing else.
#[verifier::external_body]
pub(crate) fn is_header_text(text: &str) -> (yes: bool)
    ensures
        yes == header_text(text@),
{
    reqwest::header::HeaderValue::from_str(text).is_ok()
}

/// The status of a reply.
#[derive(Clone, Copy, Debug)]
pub struct Status {
    code: u16,
}

impl View for Status {
    type V = u16;

    closed spec fn view(&self) -> u16 {
        self.code
    }
}

impl Status {
    #[verifier::type_invariant]
    closed spec fn is_code(self) -> bool {
        status_code(self.code)
    }

    /// The status of that code, where there can be one.
    pub fn new(code: u16) -> (res: Option<Status>)
        ensures
            match res {
                Some(status) => status_code(code) && status@ == code,
                None => !status_code(code),
            },
            res is Some <==> 100 <= code <= 999,
    {
        if 100 <= code && code <= 999 {
            Some(Status { code })
        } else {
            None
        }
    }

    /// Whether the request succeeded.
    pub fn is_success(&self) -> (yes: bool)
        ensures
            yes == (200 <= self@ <= 299),
    {
        proof {
            use_type_invariant(self);
        }
        code_is_success(self.code)
    }

    /// The code and its reason.
    pub fn line(&self) -> (line: String)
        ensures
            line@ == status_line(self@),
    {
        proof {
            use_type_invariant(self);
        }
        code_line(self.code)
    }
}

/// One header of a request.
#[derive(Debug)]
pub struct Header {
    pub name: String,
    pub value: String,
}

impl View for Header {
    type V = (Seq<char>, Seq<char>);

    open spec fn view(&self) -> (Seq<char>, Seq<char>) {
        (self.name@, self.value@)
    }
}

/// The names and values of headers.
pub open spec fn header_views(headers: Seq<Header>) -> Seq<(Seq<char>, Seq<char>)> {
    Seq::new(headers.len(), |i: int| headers[i]@)
}

/// The header that says that JSON is sent.
pub open spec fn json_content() -> (Seq<char>, Seq<char>) {
    ("content-type"@, "application/json"@)
}

/// The header that says that JSON is wanted.
pub open spec fn json_accepted() -> (Seq<char>, Seq<char>) {
    ("accept"@, "application/json"@)
}

/// The header that authorizes a request by a token, under a scheme.
pub open spec fn authorization(scheme: Seq<char>, token: Seq<char>) -> (Seq<char>, Seq<char>) {
    ("authorization"@, scheme + token)
}

/// The header that authorizes a request, refused where the token cannot stand in a header.
fn authorize(scheme: &str, token: &str) -> (res: Result<Header, Error>)
    ensures
        match res {
            Ok(header) => header@ == authorization(scheme@, token@) && header_text(scheme@ + token@),
            Err(error) => error is HeaderInvalid && !header_text(scheme@ + token@),
        },
{
    let value = scheme.to_string().concat(token);
    if is_header_text(value.as_str()) {
        Ok(Header { name: "authorization".to_string(), value })
    } else {
        Err(Error::HeaderInvalid)
    }
}

/// The header that says that JSON is sent.
fn content() -> (header: Header)
    ensures
        header@ == json_content(),
{
    Header { name: "content-type".to_string(), value: "application/json".to_string() }
}

/// The headers of a request for projects: the token, under the scheme `Bearer`.
pub fn project_headers(token: &str) -> (res: Result<Vec<Header>, Error>)
    ensures
        match res {
            Ok(headers) => header_views(headers@) == seq![authorization("Bearer "@, token@)]
                && header_text("Bearer "@ + token@),
            Err(error) => error is HeaderInvalid && !header_text("Bearer "@ + token@),
        },
        res matches Ok(headers) ==> headers@.len() == 1 && headers@[0].name@ == "authorization"@
            && headers@[0].value@ == "Bearer "@ + token@,
{
    match authorize("Bearer ", token) {
        Ok(header) => {
            let mut headers: Vec<Header> = Vec::new();
            headers.push(header);
            assert(header_views(headers@) =~= seq![authorization("Bearer "@, token@)]);
            Ok(headers)
        },
        Err(error) => Err(error),
    }
}

/// The headers of a request for models, for a page of issues or for comments: the token, under
/// the scheme `Bearer`, and JSON as the type of content.
pub fn search_headers(token: &str) -> (res: Result<Vec<Header>, Error>)
    ensures
        match res {
            Ok(headers) => header_views(headers@) == seq![
                authorization("Bearer "@, token@),
                json_content(),
            ] && header_text("Bearer "@ + token@),
            Err(error) => error is HeaderInvalid && !header_text("Bearer "@ + token@),
        },
        res matches Ok(headers) ==> headers@.len() == 2 && headers@[0].name@ == "authorization"@
            && headers@[0].value@ == "Bearer "@ + token@ && headers@[1].name@ == "content-type"@
            && headers@[1].value@ == "application/json"@,
{
    match project_headers(token) {
        Ok(mut headers) => {
            assert(header_views(headers@).len() == 1);
            assert(header_views(headers@)[0] == headers@[0]@);
            headers.push(content());
            assert(header_views(headers@) =~= seq![
                authorization("Bearer "@, token@),
                json_content(),
            ]);
            Ok(headers)
        },
        Err(error) => Err(error),
    }
}

/// The headers of a chat request: JSON as the type of content, the token, under the scheme
/// `token`, and JSON as the type that is wanted.
pub fn chat_headers(token: &str) -> (res: Result<Vec<Header>, Error>)
    ensures
        match res {
            Ok(headers) => header_views(headers@) == seq![
                json_content(),
                authorization("token "@, token@),
                json_accepted(),
            ] && header_text("token "@ + token@),
            Err(error) => error is HeaderInvalid && !header_text("token "@ + token@),
        },
        res matches Ok(headers) ==> headers@.len() == 3 && headers@[0].name@ == "content-type"@
            && headers@[0].value@ == "application/json"@ && headers@[1].name@ == "authorization"@
            && headers@[1].value@ == "token "@ + token@ && headers@[2].name@ == "accept"@
            && headers@[2].value@ == "application/json"@,
{
    match authorize("token ", token) {
        Ok(header) => {
            let mut headers: Vec<Header> = Vec::new();
            headers.push(content());
            headers.push(header);
            headers.push(
                Header { name: "accept".to_string(), value: "application/json".to_string() },
            );
            assert(header_views(headers@) =~= seq![
                json_content(),
                authorization("token "@, token@),
                json_accepted(),
            ]);
            Ok(headers)
        },
        Err(error) => Err(error),
    }
}

/// A text may stand in a header exactly where each of its parts may, and a character may unless it
/// is a control character other than the tab.
pub proof fn header_texts_are_told_by_their_characters(front: Seq<char>, back: Seq<char>, c: char)
    ensures
        header_text(front + back) <==> header_text(front) && header_text(back),
        header_text(Seq::empty()),
        header_text(seq![c]) <==> !(c as int <= 31 && c != '\t') && c as int != 127,
{
    let whole = front + back;
    if header_text(whole) {
        assert forall|i: int| 0 <= i < front.len() implies #[trigger] front[i] == '\t' || (
        front[i] as u32 >= 32 && front[i] as u32 != 127) by {
            assert(whole[i] == front[i]);
        }
        assert forall|i: int| 0 <= i < back.len() implies #[trigger] back[i] == '\t' || (
        back[i] as u32 >= 32 && back[i] as u32 != 127) by {
            assert(whole[front.len() + i] == back[i]);
        }
    }
    assert(seq![c][0] == c);
}

/// A request is authorized by the scheme and the whole token, and different tokens authorize in
/// different ways.
pub proof fn a_request_carries_its_token(scheme: Seq<char>, token: Seq<char>, other: Seq<char>)
    ensures
        authorization(scheme, token).0 == "authorization"@,
        scheme.is_prefix_of(authorization(scheme, token).1),
        token.is_suffix_of(authorization(scheme, token).1),
        authorization(scheme, token).1.len() == scheme.len() + token.len(),
        token != other ==> authorization(scheme, token) != authorization(scheme, other),
{
    if authorization(scheme, token) == authorization(scheme, other) {
        assert((scheme + token).skip(scheme.len() as int) =~= token);
        assert((scheme + other).skip(scheme.len() as int) =~= other);
    }
}

} // verus!
