//! What the crawler makes of an HTTP response: which part of it to read, and what
//! it then amounts to. The requests themselves are made elsewhere.
use vstd::prelude::*;
use vstd::string::*;

use crate::text::optional_text;
use crate::urls::{ParseError, WebUrl, url_joined, url_result};

verus! {

/// The name under which the crawler asks for pages, and looks for its rules in a
/// robots.txt.
pub const USER_AGENT: &'static str = "MikesCrawler";

/// The status of an HTTP response.
#[derive(Debug, Clone, Copy, PartialEq, Eq, Structural)]
pub struct Status {
    pub code: u16,
}

impl Status {
    /// The status with a code.
    pub fn new(code: u16) -> (status: Status)
        ensures
            status.code == code,
    {
        Status { code }
    }
}

/// Whether a status says that the request was met.
pub open spec fn is_success(code: u16) -> bool {
    200 <= code < 300
}

/// Whether a status sends the client elsewhere.
pub open spec fn is_redirection(code: u16) -> bool {
    300 <= code < 400
}

/// What a request came to.
#[derive(Debug, Clone, PartialEq, Eq)]
pub enum HttpResponse {
    /// A page, with its text.
    Html(String),
    /// Something else, with its content type.
    OtherContent(String),
    /// The server sends the client to another URL.
    Redirect(Status, WebUrl),
    /// The server did not meet the request, and said why.
    ServerFailure(Status, String),
}

/// What a request came to, by its texts.
pub enum HttpResponseView {
    Html(Seq<char>),
    OtherContent(Seq<char>),
    Redirect(u16, Seq<char>),
    ServerFailure(u16, Seq<char>),
}

impl View for HttpResponse {
    type V = HttpResponseView;

    open spec fn view(&self) -> HttpResponseView {
        match self {
            HttpResponse::Html(body) => HttpResponseView::Html(body@),
            HttpResponse::OtherContent(content_type) => HttpResponseView::OtherContent(
                content_type@,
            ),
            HttpResponse::Redirect(status, target) => HttpResponseView::Redirect(
                status.code,
                target@,
            ),
            HttpResponse::ServerFailure(status, message) => HttpResponseView::ServerFailure(
                status.code,
                message@,
            ),
        }
    }
}

/// Why a response can not be used.
#[derive(Debug, PartialEq, Eq)]
pub enum FetchError {
    /// A response that met the request does not say what it holds.
    NoContentType,
    /// A header holds more than visible ASCII.
    BadHeader,
    /// The content type can not be read.
    BadContentType(String),
    /// A redirection does not say where to.
    NoLocation,
    /// A redirection leads nowhere.
    BadLocation(ParseError),
    /// The request for a robots.txt was neither met nor answered with "not found".
    BadRobotsStatus(String),
}

/// Why a response can not be used, by its texts.
pub enum FetchErrorView {
    NoContentType,
    BadHeader,
    BadContentType(Seq<char>),
    NoLocation,
    BadLocation(Seq<char>),
    BadRobotsStatus(Seq<char>),
}

impl View for FetchError {
    type V = FetchErrorView;

    open spec fn view(&self) -> FetchErrorView {
        match self {
            FetchError::NoContentType => FetchErrorView::NoContentType,
            FetchError::BadHeader => FetchErrorView::BadHeader,
            FetchError::BadContentType(message) => FetchErrorView::BadContentType(message@),
            FetchError::NoLocation => FetchErrorView::NoLocation,
            FetchError::BadLocation(error) => FetchErrorView::BadLocation(error@),
            FetchError::BadRobotsStatus(status) => FetchErrorView::BadRobotsStatus(status@),
        }
    }
}

impl FetchErrorView {
    /// The error in words.
    pub open spec fn message(self) -> Seq<char> {
        match self {
            FetchErrorView::NoContentType => "No content type on OK response"@,
            FetchErrorView::BadHeader => "failed to convert header to a str"@,
            FetchErrorView::BadContentType(message) => message,
            FetchErrorView::NoLocation => "No Location header on redirect"@,
            FetchErrorView::BadLocation(message) => message,
            FetchErrorView::BadRobotsStatus(status) => "Got status "@ + status
                + " for robots.txt"@,
        }
    }
}

impl FetchError {
    /// The error in words.
    pub fn message(&self) -> (message: String)
        ensures
            message@ == self@.message(),
            message@ == (match *self {
                FetchError::NoContentType => "No content type on OK response"@,
                FetchError::BadHeader => "failed to convert header to a str"@,
                FetchError::BadContentType(message) => message@,
                FetchError::NoLocation => "No Location header on redirect"@,
                FetchError::BadLocation(error) => error@,
                FetchError::BadRobotsStatus(status) => "Got status "@ + status@
                    + " for robots.txt"@,
            }),
    {
        match self {
            FetchError::NoContentType => "No content type on OK response".to_owned(),
            FetchError::BadHeader => "failed to convert header to a str".to_owned(),
            FetchError::BadContentType(message) => message.clone(),
            FetchError::NoLocation => "No Location header on redirect".to_owned(),
            FetchError::BadLocation(error) => error.message(),
            FetchError::BadRobotsStatus(status) => {
                let mut message: String = "Got status ".to_owned();
                message.append(status.as_str());
                message.append(" for robots.txt");
                message
            },
        }
    }
}

/// Whether a byte of a header is a visible character of ASCII, a space or a tab.
pub open spec fn is_visible(byte: u8) -> bool {
    32 <= byte < 127 || byte == 9
}

/// The text of a header that holds nothing but visible ASCII.
pub open spec fn header_text(value: Seq<u8>) -> Option<Seq<char>> {
    if forall|i: int| 0 <= i < value.len() ==> is_visible(#[trigger] value[i]) {
        Some(value.map_values(|byte: u8| byte as char))
    } else {
        None
    }
}

/// Calls `reqwest::header::HeaderValue::to_str`. Trusted: it gives the text of a
/// header whose bytes are all visible ASCII, and an error for any other.
#[verifier::external_body]
fn call_to_str(value: &Vec<u8>) -> (text: Option<String>)
    ensures
        optional_text(text) == header_text(value@),
{
    match reqwest::header::HeaderValue::from_bytes(value) {
        Ok(value) => value.to_str().ok().map(str::to_string),
        Err(_) => None,
    }
}

/// A media type.
#[derive(Debug, PartialEq, Eq)]
pub struct MediaType {
    /// The type and subtype, without parameters.
    pub essence: String,
    /// The whole media type.
    pub full: String,
}

/// What reading a media type gives, by its texts.
pub open spec fn media_type_result(value: Result<MediaType, String>) -> Result<
    (Seq<char>, Seq<char>),
    Seq<char>,
> {
    match value {
        Ok(media_type) => Ok((media_type.essence@, media_type.full@)),
        Err(message) => Err(message@),
    }
}

/// What `mime::Mime::from_str` makes of a text: the essence and the whole text of
/// the media type, or the message of the error.
pub uninterp spec fn mime_parsed(text: Seq<char>) -> Result<(Seq<char>, Seq<char>), Seq<char>>;

/// Calls `mime::Mime::from_str`, and reads the media type by `essence_str` and
/// `to_string`. Trusted: the result is a function of the text.
#[verifier::external_body]
fn call_parse_mime(text: &str) -> (parsed: Result<MediaType, String>)
    ensures
        media_type_result(parsed) == mime_parsed(text@),
{
    match text.parse::<mime::Mime>() {
        Ok(mime) => Ok(
            MediaType { essence: mime.essence_str().to_string(), full: mime.to_string() },
        ),
        Err(error) => Err(error.to_string()),
    }
}

/// What to do with a response.
#[derive(Debug, PartialEq, Eq)]
pub enum GetPlan {
    /// Read the body: it is a page.
    ReadHtml,
    /// Read the body: it says why the server failed.
    ReadFailure(Status),
    /// Leave the body: this is what the response comes to.
    Respond(HttpResponse),
}

/// What to do with a response, by its texts.
pub enum GetPlanView {
    ReadHtml,
    ReadFailure(u16),
    Respond(HttpResponseView),
}

impl View for GetPlan {
    type V = GetPlanView;

    open spec fn view(&self) -> GetPlanView {
        match self {
            GetPlan::ReadHtml => GetPlanView::ReadHtml,
            GetPlan::ReadFailure(status) => GetPlanView::ReadFailure(status.code),
            GetPlan::Respond(response) => GetPlanView::Respond(response@),
        }
    }
}

/// What planning gives, by its texts.
pub open spec fn plan_result(value: Result<GetPlan, FetchError>) -> Result<
    GetPlanView,
    FetchErrorView,
> {
    match value {
        Ok(plan) => Ok(plan@),
        Err(error) => Err(error@),
    }
}

/// What to do with a response that met the request, given its media type: a page
/// is read, of anything else only the media type is kept.
pub open spec fn content_plan(media_type: Result<(Seq<char>, Seq<char>), Seq<char>>) -> Result<
    GetPlanView,
    FetchErrorView,
> {
    match media_type {
        Ok((essence, full)) => if essence == "text/html"@ {
            Ok(GetPlanView::ReadHtml)
        } else {
            Ok(GetPlanView::Respond(HttpResponseView::OtherContent(full)))
        },
        Err(message) => Err(FetchErrorView::BadContentType(message)),
    }
}

/// What to do with a redirection, given where it leads.
pub open spec fn redirect_plan(code: u16, target: Result<Seq<char>, Seq<char>>) -> Result<
    GetPlanView,
    FetchErrorView,
> {
    match target {
        Ok(target) => Ok(GetPlanView::Respond(HttpResponseView::Redirect(code, target))),
        Err(message) => Err(FetchErrorView::BadLocation(message)),
    }
}

/// What to do with a response to a request for a URL, given its status and its
/// `Content-Type` and `Location` headers.
pub open spec fn get_plan(
    url: Seq<char>,
    code: u16,
    content_type: Option<Seq<u8>>,
    location: Option<Seq<u8>>,
) -> Result<GetPlanView, FetchErrorView> {
    if is_success(code) {
        match content_type {
            None => Err(FetchErrorView::NoContentType),
            Some(value) => match header_text(value) {
                None => Err(FetchErrorView::BadHeader),
                Some(text) => content_plan(mime_parsed(text)),
            },
        }
    } else if is_redirection(code) {
        match location {
            None => Err(FetchErrorView::NoLocation),
            Some(value) => match header_text(value) {
                None => Err(FetchErrorView::BadHeader),
                Some(text) => redirect_plan(code, url_joined(url, text)),
            },
        }
    } else {
        Ok(GetPlanView::ReadFailure(code))
    }
}

/// What the bytes of a header are, where it is there.
pub open spec fn header_bytes(value: Option<Vec<u8>>) -> Option<Seq<u8>> {
    match value {
        Some(bytes) => Some(bytes@),
        None => None,
    }
}

/// Plans for a response that met the request, given its media type.
pub fn plan_content(media_type: Result<MediaType, String>) -> (plan: Result<GetPlan, FetchError>)
    ensures
        plan_result(plan) == content_plan(media_type_result(media_type)),
        match media_type {
            Ok(media_type) => {
                &&& plan == Ok::<GetPlan, FetchError>(GetPlan::ReadHtml) <==> media_type.essence@
                    == "text/html"@
                &&& media_type.essence@ != "text/html"@ ==> plan == Ok::<GetPlan, FetchError>(
                    GetPlan::Respond(HttpResponse::OtherContent(media_type.full)),
                )
            },
            Err(message) => plan == Err::<GetPlan, FetchError>(FetchError::BadContentType(message)),
        },
{
    match media_type {
        Ok(media_type) => if media_type.essence == "text/html".to_owned() {
            Ok(GetPlan::ReadHtml)
        } else {
            Ok(GetPlan::Respond(HttpResponse::OtherContent(media_type.full)))
        },
        Err(message) => Err(FetchError::BadContentType(message)),
    }
}

/// Plans for a redirection, given where it leads.
pub fn plan_redirect(status: Status, target: Result<WebUrl, ParseError>) -> (plan: Result<
    GetPlan,
    FetchError,
>)
    ensures
        plan_result(plan) == redirect_plan(status.code, url_result(target)),
        match target {
            Ok(target) => plan == Ok::<GetPlan, FetchError>(
                GetPlan::Respond(HttpResponse::Redirect(status, target)),
            ),
            Err(error) => plan == Err::<GetPlan, FetchError>(FetchError::BadLocation(error)),
        },
{
    match target {
        Ok(target) => Ok(GetPlan::Respond(HttpResponse::Redirect(status, target))),
        Err(error) => Err(FetchError::BadLocation(error)),
    }
}

/// Plans for a response to a request for a URL, given its status and its
/// `Content-Type` and `Location` headers.
pub fn plan_get(
    url: &WebUrl,
    status: Status,
    content_type: &Option<Vec<u8>>,
    location: &Option<Vec<u8>>,
) -> (plan: Result<GetPlan, FetchError>)
    ensures
        plan_result(plan) == get_plan(
            url@,
            status.code,
            header_bytes(*content_type),
            header_bytes(*location),
        ),
        status.code < 200 || 400 <= status.code ==> plan == Ok::<GetPlan, FetchError>(
            GetPlan::ReadFailure(status),
        ),
        200 <= status.code < 400 ==> !(plan matches Ok(GetPlan::ReadFailure(_))),
        200 <= status.code < 300 && content_type is None ==> plan == Err::<GetPlan, FetchError>(
            FetchError::NoContentType,
        ),
        300 <= status.code < 400 && location is None ==> plan == Err::<GetPlan, FetchError>(
            FetchError::NoLocation,
        ),
        300 <= status.code < 400 && location is Some && (forall|i: int|
            0 <= i < location->0.len() ==> 32 <= #[trigger] location->0@[i] < 127
                || location->0@[i] == 9) ==> match url_joined(
            url@,
            location->0@.map_values(|byte: u8| byte as char),
        ) {
            Ok(target) => plan matches Ok(GetPlan::Respond(HttpResponse::Redirect(to_status, to)))
                && to_status == status && to@ == target,
            Err(message) => plan matches Err(FetchError::BadLocation(error)) && error@ == message,
        },
        200 <= status.code < 300 && content_type is Some && (forall|i: int|
            0 <= i < content_type->0.len() ==> 32 <= #[trigger] content_type->0@[i] < 127
                || content_type->0@[i] == 9) ==> match mime_parsed(
            content_type->0@.map_values(|byte: u8| byte as char),
        ) {
            Ok((essence, full)) => if essence == "text/html"@ {
                plan == Ok::<GetPlan, FetchError>(GetPlan::ReadHtml)
            } else {
                plan matches Ok(GetPlan::Respond(HttpResponse::OtherContent(kept))) && kept@ == full
            },
            Err(message) => plan matches Err(FetchError::BadContentType(kept)) && kept@ == message,
        },
{
    if 200 <= status.code && status.code < 300 {
        match content_type {
            None => Err(FetchError::NoContentType),
            Some(value) => match call_to_str(value) {
                None => Err(FetchError::BadHeader),
                Some(text) => plan_content(call_parse_mime(text.as_str())),
            },
        }
    } else if 300 <= status.code && status.code < 400 {
        match location {
            None => Err(FetchError::NoLocation),
            Some(value) => match call_to_str(value) {
                None => Err(FetchError::BadHeader),
                Some(text) => plan_redirect(status, url.join(text.as_str())),
            },
        }
    } else {
        Ok(GetPlan::ReadFailure(status))
    }
}

impl GetPlanView {
    /// What a response comes to once the plan is carried out, given its body.
    pub open spec fn carried_out(self, body: Seq<char>) -> HttpResponseView {
        match self {
            GetPlanView::ReadHtml => HttpResponseView::Html(body),
            GetPlanView::ReadFailure(code) => HttpResponseView::ServerFailure(code, body),
            GetPlanView::Respond(response) => response,
        }
    }
}

impl GetPlan {
    /// Whether the plan asks for the body of the response.
    pub fn needs_body(&self) -> (needs: bool)
        ensures
            needs == !(self@ is Respond),
            needs <==> !(self is Respond),
    {
        match self {
            GetPlan::Respond(_) => false,
            _ => true,
        }
    }

    /// What a response comes to once the plan is carried out, given its body where
    /// the plan asks for it.
    pub fn carry_out(self, body: String) -> (response: HttpResponse)
        ensures
            response@ == self@.carried_out(body@),
            match self {
                GetPlan::ReadHtml => response == HttpResponse::Html(body),
                GetPlan::ReadFailure(status) => response == HttpResponse::ServerFailure(
                    status,
                    body,
                ),
                GetPlan::Respond(planned) => response == planned,
            },
    {
        match self {
            GetPlan::ReadHtml => HttpResponse::Html(body),
            GetPlan::ReadFailure(status) => HttpResponse::ServerFailure(status, body),
            GetPlan::Respond(response) => response,
        }
    }
}

/// What to do with a response to a request for a robots.txt.
#[derive(Debug, Clone, Copy, PartialEq, Eq, Structural)]
pub enum RobotsPlan {
    /// Read the body: it is the robots.txt.
    ReadRobots,
    /// There is no robots.txt.
    NoRobots,
}

/// How a status reads, as `reqwest::StatusCode` writes it.
pub uninterp spec fn status_text(code: u16) -> Seq<char>;

/// Calls `to_string` on the `reqwest::StatusCode` with a code, which has to be
/// from 100 to 999. Trusted: the result is a function of the code.
#[verifier::external_body]
fn call_status_to_string(code: u16) -> (text: String)
    requires
        100 <= code < 1000,
    ensures
        text@ == status_text(code),
{
    reqwest::StatusCode::from_u16(code).unwrap().to_string()
}

/// Plans for a response to a request for a robots.txt, given its status.
pub fn plan_get_robots(status: Status) -> (plan: Result<RobotsPlan, FetchError>)
    requires
        100 <= status.code < 1000,
    ensures
        is_success(status.code) ==> plan == Ok::<RobotsPlan, FetchError>(RobotsPlan::ReadRobots),
        status.code == 404 ==> plan == Ok::<RobotsPlan, FetchError>(RobotsPlan::NoRobots),
        !is_success(status.code) && status.code != 404 ==> {
            &&& plan matches Err(error)
            &&& error@ == FetchErrorView::BadRobotsStatus(status_text(status.code))
        },
        200 <= status.code < 300 <==> plan == Ok::<RobotsPlan, FetchError>(RobotsPlan::ReadRobots),
        status.code == 404 <==> plan == Ok::<RobotsPlan, FetchError>(RobotsPlan::NoRobots),
        plan matches Err(error) ==> error matches FetchError::BadRobotsStatus(text) && text@
            == status_text(status.code),
{
    if 200 <= status.code && status.code < 300 {
        Ok(RobotsPlan::ReadRobots)
    } else if status.code == 404 {
        Ok(RobotsPlan::NoRobots)
    } else {
        Err(FetchError::BadRobotsStatus(call_status_to_string(status.code)))
    }
}

} // verus!
