//! The logs of the server. Each request gets an id, so that the log lines of one
//! request can be told from those of another; each line shows the module that it
//! comes from, and some modules are silenced.
use rand::RngCore;
use vstd::prelude::*;
use vstd::string::*;

use crate::http_client::Status;
use crate::text::{
    decimal, decimal_text, padded_decimal, same_text, starts_with, three_digits,
};

verus! {

/// The header of a response that holds the id of its request.
pub const REQUEST_ID_HEADER: &'static str = "X-REQ-ID";

/// The key under which a log line holds the id of its request.
pub const REQUEST_ID_KEY: &'static str = "REQ";

/// A letter of base64, by its value.
pub open spec fn base64_char(value: nat) -> char {
    if value < 26 {
        ('A' as nat + value) as char
    } else if value < 52 {
        ('a' as nat + (value - 26)) as char
    } else if value < 62 {
        ('0' as nat + (value - 52)) as char
    } else if value == 62 {
        '+'
    } else {
        '/'
    }
}

/// Three bytes in base64: their twenty-four bits, six to a letter.
pub open spec fn base64_text(bytes: Seq<u8>) -> Seq<char> {
    let first = bytes[0] as nat;
    let second = bytes[1] as nat;
    let third = bytes[2] as nat;
    seq![
        base64_char(first / 4),
        base64_char((first % 4) * 16 + second / 16),
        base64_char((second % 16) * 4 + third / 64),
        base64_char(third % 64),
    ]
}

/// Calls `base64::encode` on three bytes. Trusted: it writes them in the standard
/// alphabet of base64, six bits to a letter, most significant first; three bytes
/// need no padding.
#[verifier::external_body]
fn call_encode(bytes: &[u8; 3]) -> (text: String)
    ensures
        text@ == base64_text(bytes@),
{
    base64::encode(bytes)
}

/// Calls `rand::RngCore::fill_bytes` on `rand::thread_rng`. Trusted: nothing is
/// claimed of the bytes, which are random. The generator panics where the operating
/// system has no randomness to start it with.
#[verifier::external_body]
fn call_fill_bytes() -> (bytes: [u8; 3]) {
    let mut bytes = [0u8; 3];
    rand::thread_rng().fill_bytes(&mut bytes);
    bytes
}

/// The id of a request.
#[derive(Debug, PartialEq, Eq)]
pub struct RequestId {
    text: String,
}

impl View for RequestId {
    type V = Seq<char>;

    closed spec fn view(&self) -> Seq<char> {
        self.text@
    }
}

impl RequestId {
    /// A random id: four letters of base64.
    pub fn rand() -> (id: RequestId)
        ensures
            exists|bytes: Seq<u8>| bytes.len() == 3 && id@ == #[trigger] base64_text(bytes),
    {
        let bytes: [u8; 3] = call_fill_bytes();
        assert(bytes@.len() == 3);
        RequestId::from_bytes(&bytes)
    }

    /// The id that is made of three bytes.
    pub fn from_bytes(bytes: &[u8; 3]) -> (id: RequestId)
        ensures
            id@ == base64_text(bytes@),
    {
        RequestId { text: call_encode(bytes) }
    }

    /// What stands for the id of a request that was given none.
    pub fn missing() -> (id: RequestId)
        ensures
            id@ == "missing"@,
    {
        RequestId { text: "missing".to_owned() }
    }

    /// The text of the id.
    pub fn as_str(&self) -> (text: &str)
        ensures
            text@ == self@,
    {
        self.text.as_str()
    }
}

proof fn lemma_base64_char_tells_values_apart(left: nat, right: nat)
    requires
        left < 64,
        right < 64,
        base64_char(left) == base64_char(right),
    ensures
        left == right,
{
    assert(base64_char(left) as nat == base64_char(right) as nat);
}

/// Different bytes make different ids, and none of them can be taken for that of a
/// request without one.
pub proof fn law_different_bytes_make_different_ids(left: Seq<u8>, right: Seq<u8>)
    requires
        left.len() == 3,
        right.len() == 3,
    ensures
        base64_text(left) == base64_text(right) ==> left == right,
        base64_text(left) != "missing"@,
{
    reveal_strlit("missing");
    assert(base64_text(left).len() == 4);
    if base64_text(left) == base64_text(right) {
        assert forall|i: int| 0 <= i < 4 implies #[trigger] base64_text(left)[i] == base64_text(
            right,
        )[i] by {}
        lemma_base64_char_tells_values_apart(left[0] as nat / 4, right[0] as nat / 4);
        lemma_base64_char_tells_values_apart(
            (left[0] as nat % 4) * 16 + left[1] as nat / 16,
            (right[0] as nat % 4) * 16 + right[1] as nat / 16,
        );
        lemma_base64_char_tells_values_apart(
            (left[1] as nat % 16) * 4 + left[2] as nat / 64,
            (right[1] as nat % 16) * 4 + right[2] as nat / 64,
        );
        lemma_base64_char_tells_values_apart(left[2] as nat % 64, right[2] as nat % 64);
        assert(left[0] == right[0] && left[1] == right[1] && left[2] == right[2]);
        assert(left =~= right);
    }
}

proof fn lemma_alphabet(value: nat)
    requires
        value < 64,
    ensures
        base64_char(value)
            == "ABCDEFGHIJKLMNOPQRSTUVWXYZabcdefghijklmnopqrstuvwxyz0123456789+/"@[value as int],
{
    reveal_strlit("ABCDEFGHIJKLMNOPQRSTUVWXYZabcdefghijklmnopqrstuvwxyz0123456789+/");
}

/// An id has four letters of the alphabet of base64. Read as digits to the base of
/// sixty-four, they stand for the number that the three bytes are.
pub proof fn law_ids_stand_for_their_bytes(bytes: Seq<u8>, letters: Seq<char>)
    requires
        bytes.len() == 3,
        letters == "ABCDEFGHIJKLMNOPQRSTUVWXYZabcdefghijklmnopqrstuvwxyz0123456789+/"@,
    ensures
        base64_text(bytes).len() == 4,
        exists|a: int, b: int, c: int, d: int|
            {
                &&& 0 <= a < 64 && 0 <= b < 64 && 0 <= c < 64 && 0 <= d < 64
                &&& #[trigger] letters[a] == base64_text(bytes)[0]
                &&& #[trigger] letters[b] == base64_text(bytes)[1]
                &&& #[trigger] letters[c] == base64_text(bytes)[2]
                &&& #[trigger] letters[d] == base64_text(bytes)[3]
                &&& a * 262144 + b * 4096 + c * 64 + d == bytes[0] * 65536 + bytes[1] * 256
                    + bytes[2]
            },
{
    let first = bytes[0] as nat;
    let second = bytes[1] as nat;
    let third = bytes[2] as nat;
    let a = first / 4;
    let b = (first % 4) * 16 + second / 16;
    let c = (second % 16) * 4 + third / 64;
    let d = third % 64;
    lemma_alphabet(a);
    lemma_alphabet(b);
    lemma_alphabet(c);
    lemma_alphabet(d);
    assert(letters[a as int] == base64_text(bytes)[0]);
    assert(letters[b as int] == base64_text(bytes)[1]);
    assert(letters[c as int] == base64_text(bytes)[2]);
    assert(letters[d as int] == base64_text(bytes)[3]);
}

/// The names by which a response and a log line hold the id of a request.
pub proof fn law_names_of_the_id()
    ensures
        REQUEST_ID_HEADER@ == "X-REQ-ID"@,
        REQUEST_ID_KEY@ == "REQ"@,
{
}

/// How long a request took.
#[derive(Debug, PartialEq, Eq)]
pub enum Elapsed {
    /// Whole seconds, and the milliseconds beyond them.
    Time(u64, u32),
    /// The clock can not tell, for a reason.
    ClockError(String),
    /// It was not noted when the request came in.
    NoStart,
}

/// How long a request took, by its text.
pub enum ElapsedView {
    Time(u64, u32),
    ClockError(Seq<char>),
    NoStart,
}

impl View for Elapsed {
    type V = ElapsedView;

    open spec fn view(&self) -> ElapsedView {
        match self {
            Elapsed::Time(seconds, millis) => ElapsedView::Time(*seconds, *millis),
            Elapsed::ClockError(message) => ElapsedView::ClockError(message@),
            Elapsed::NoStart => ElapsedView::NoStart,
        }
    }
}

/// A number in decimal, with leading zeros up to three digits.
pub open spec fn padded_text(number: nat) -> Seq<char> {
    if number < 1000 {
        three_digits(number)
    } else {
        decimal_text(number)
    }
}

impl ElapsedView {
    /// How long a request took, in words.
    pub open spec fn text(self) -> Seq<char> {
        match self {
            ElapsedView::Time(seconds, millis) => decimal_text(seconds as nat) + "."@ + padded_text(
                millis as nat,
            ) + "s"@,
            ElapsedView::ClockError(message) => message,
            ElapsedView::NoStart => "Start time not set"@,
        }
    }
}

impl Elapsed {
    /// How long a request took, in words.
    pub fn text(&self) -> (text: String)
        ensures
            text@ == self@.text(),
            self matches Elapsed::Time(seconds, millis) ==> text@ == decimal_text(seconds as nat)
                + "."@ + (if millis < 1000 {
                three_digits(millis as nat)
            } else {
                decimal_text(millis as nat)
            }) + "s"@,
            self matches Elapsed::ClockError(message) ==> text@ == message@,
            self is NoStart ==> text@ == "Start time not set"@,
    {
        match self {
            Elapsed::Time(seconds, millis) => {
                let mut text: String = decimal(*seconds);
                text.append(".");
                let digits: String = if *millis < 1000 {
                    padded_decimal(*millis as u64)
                } else {
                    decimal(*millis as u64)
                };
                text.append(digits.as_str());
                text.append("s");
                text
            },
            Elapsed::ClockError(message) => message.clone(),
            Elapsed::NoStart => "Start time not set".to_owned(),
        }
    }
}

/// How long a request took reads as its seconds in decimal, a point, its milliseconds with
/// at least three digits, and `s`; where that is not known, as the reason.
pub proof fn law_times_in_words(seconds: u64, millis: u32, message: Seq<char>)
    ensures
        millis < 1000 ==> ElapsedView::Time(seconds, millis).text() == decimal_text(seconds as nat)
            + "."@ + three_digits(millis as nat) + "s"@,
        millis >= 1000 ==> ElapsedView::Time(seconds, millis).text() == decimal_text(
            seconds as nat,
        ) + "."@ + decimal_text(millis as nat) + "s"@,
        ElapsedView::ClockError(message).text() == message,
        ElapsedView::NoStart.text() == "Start time not set"@,
{
}

/// How a status reads, as `rocket::http::Status` writes it.
pub uninterp spec fn rocket_status_text(code: u16) -> Seq<char>;

/// Calls `to_string` on the `rocket::http::Status` with a code. Trusted: the result
/// is a function of the code.
#[verifier::external_body]
fn call_rocket_status_to_string(code: u16) -> (text: String)
    ensures
        text@ == rocket_status_text(code),
{
    rocket::http::Status::new(code).to_string()
}

/// Rocket's logging actually leaves quite a lot to be desired out of the box
/// in particular there's no way of associating a log line with a particular
/// request. Including the log line which says the request is completed.
/// This module allows us to improve on that by giving each request a random id
/// and allowing us to arrange for that id to be included with most log lines
/// that are logged during the processing of the request.
#[derive(Debug, Clone, Copy, PartialEq, Eq)]
pub struct BetterLogging {}

impl BetterLogging {
    /// The name under which the logging is attached to the server.
    pub fn name(&self) -> (name: &'static str)
        ensures
            name@ == "BetterLogging"@,
    {
        "BetterLogging"
    }

    /// The log line that says that a request came in.
    pub fn on_request(&self, uri: &str) -> (line: String)
        ensures
            line@ == "Received request: "@ + uri@,
    {
        let mut line: String = "Received request: ".to_owned();
        line.append(uri);
        line
    }

    /// The log line that says that a request is completed, with what status and in
    /// what time.
    pub fn on_response(&self, uri: &str, status: Status, elapsed: &Elapsed) -> (line: String)
        ensures
            line@ == completed_line(uri@, rocket_status_text(status.code), elapsed@),
            line@ == "Completed request "@ + uri@ + " with status "@ + rocket_status_text(
                status.code,
            ) + " in "@ + elapsed@.text(),
    {
        completed(uri, call_rocket_status_to_string(status.code).as_str(), elapsed)
    }
}

/// The log line that says that a request is completed.
pub open spec fn completed_line(
    uri: Seq<char>,
    status: Seq<char>,
    elapsed: ElapsedView,
) -> Seq<char> {
    "Completed request "@ + uri + " with status "@ + status + " in "@ + elapsed.text()
}

/// The log line that says that a request is completed, given how its status reads.
pub fn completed(uri: &str, status: &str, elapsed: &Elapsed) -> (line: String)
    ensures
        line@ == completed_line(uri@, status@, elapsed@),
        line@ == "Completed request "@ + uri@ + " with status "@ + status@ + " in "@
            + elapsed@.text(),
{
    let mut line: String = "Completed request ".to_owned();
    line.append(uri);
    line.append(" with status ");
    line.append(status);
    line.append(" in ");
    line.append(elapsed.text().as_str());
    line
}

/// How much a log line matters.
#[derive(Debug, Clone, Copy, PartialEq, Eq, Structural)]
pub enum LogLevel {
    Critical,
    Error,
    Warning,
    Info,
    Debug,
    Trace,
}

impl LogLevel {
    /// The place of a level among all, from what matters most to what matters least.
    pub open spec fn rank(self) -> nat {
        match self {
            LogLevel::Critical => 1,
            LogLevel::Error => 2,
            LogLevel::Warning => 3,
            LogLevel::Info => 4,
            LogLevel::Debug => 5,
            LogLevel::Trace => 6,
        }
    }

    /// The name of a level in a log line.
    pub open spec fn short_text(self) -> Seq<char> {
        match self {
            LogLevel::Critical => "CRIT"@,
            LogLevel::Error => "ERRO"@,
            LogLevel::Warning => "WARN"@,
            LogLevel::Info => "INFO"@,
            LogLevel::Debug => "DEBG"@,
            LogLevel::Trace => "TRCE"@,
        }
    }

    /// The name of the level in a log line.
    pub fn as_short_str(&self) -> (name: &'static str)
        ensures
            name@ == self.short_text(),
    {
        match self {
            LogLevel::Critical => "CRIT",
            LogLevel::Error => "ERRO",
            LogLevel::Warning => "WARN",
            LogLevel::Info => "INFO",
            LogLevel::Debug => "DEBG",
            LogLevel::Trace => "TRCE",
        }
    }
}

/// Whether a module is not to be heard at a level: the tokenizer at every level down
/// to "debug", and two modules of the network at "debug" and below.
pub open spec fn is_silenced(module: Seq<char>, level: LogLevel) -> bool {
    ||| "html5ever::tokenizer"@.is_prefix_of(module) && level.rank() <= LogLevel::Debug.rank()
    ||| module == "mio::poll"@ && level.rank() >= LogLevel::Debug.rank()
    ||| module == "want"@ && level.rank() >= LogLevel::Debug.rank()
}

/// The tokenizer is heard at no level but "trace"; two modules of the network are not
/// heard at "debug" and "trace"; everything else is heard at every level.
pub proof fn law_only_three_modules_are_silenced(module: Seq<char>, level: LogLevel)
    ensures
        is_silenced(module, level) <==> {
            ||| "html5ever::tokenizer"@.is_prefix_of(module) && level != LogLevel::Trace
            ||| (module == "mio::poll"@ || module == "want"@) && (level == LogLevel::Debug || level
                == LogLevel::Trace)
        },
{
}

/// Each level has its own name of four letters in a log line.
pub proof fn law_levels_have_their_own_names(left: LogLevel, right: LogLevel)
    ensures
        LogLevel::Critical.short_text() == "CRIT"@,
        LogLevel::Error.short_text() == "ERRO"@,
        LogLevel::Warning.short_text() == "WARN"@,
        LogLevel::Info.short_text() == "INFO"@,
        LogLevel::Debug.short_text() == "DEBG"@,
        LogLevel::Trace.short_text() == "TRCE"@,
        left.short_text().len() == 4,
        left.short_text() == right.short_text() ==> left == right,
{
    reveal_strlit("CRIT");
    reveal_strlit("ERRO");
    reveal_strlit("WARN");
    reveal_strlit("INFO");
    reveal_strlit("DEBG");
    reveal_strlit("TRCE");
    if left.short_text() == right.short_text() {
        assert(left.short_text()[0] == right.short_text()[0]);
    }
}

/// The header of a log line shows the level, the module in square brackets and the
/// message, with a space before the level and before the message.
pub proof fn law_the_header_shows_the_module(
    level: LogLevel,
    module: Seq<char>,
    message: Seq<char>,
)
    ensures
        header_parts(level, module, message).len() == 5,
        header_parts(level, module, message)[0] == (HeaderPart::Whitespace, " "@),
        header_parts(level, module, message)[1] == (HeaderPart::Level, level.short_text()),
        header_parts(level, module, message)[2] == (HeaderPart::Location, "["@ + module + "]"@),
        header_parts(level, module, message)[3] == (HeaderPart::Whitespace, " "@),
        header_parts(level, module, message)[4] == (HeaderPart::Message, message),
{
}

/// Whether a line of a module is logged.
pub fn log_filter(module: &str, level: LogLevel) -> (logged: bool)
    ensures
        logged == !is_silenced(module@, level),
        "html5ever::tokenizer"@.is_prefix_of(module@) && level != LogLevel::Trace ==> !logged,
        (module@ == "mio::poll"@ || module@ == "want"@) && (level == LogLevel::Debug || level
            == LogLevel::Trace) ==> !logged,
        !logged ==> {
            ||| "html5ever::tokenizer"@.is_prefix_of(module@) && level != LogLevel::Trace
            ||| (module@ == "mio::poll"@ || module@ == "want"@) && (level == LogLevel::Debug
                || level == LogLevel::Trace)
        },
{
    if starts_with(module, "html5ever::tokenizer") && level != LogLevel::Trace {
        return false;
    }
    let quiet: bool = level == LogLevel::Debug || level == LogLevel::Trace;
    if same_text(module, "mio::poll") && quiet {
        return false;
    }
    if same_text(module, "want") && quiet {
        return false;
    }
    true
}

/// What a part of the header of a log line is.
#[derive(Debug, Clone, Copy, PartialEq, Eq, Structural)]
pub enum HeaderPart {
    Whitespace,
    Level,
    Location,
    Message,
}

/// The parts of the header of a log line that come after the time, in order.
pub open spec fn header_parts(level: LogLevel, module: Seq<char>, message: Seq<char>) -> Seq<
    (HeaderPart, Seq<char>),
> {
    seq![
        (HeaderPart::Whitespace, " "@),
        (HeaderPart::Level, level.short_text()),
        (HeaderPart::Location, "["@ + module + "]"@),
        (HeaderPart::Whitespace, " "@),
        (HeaderPart::Message, message),
    ]
}

/// The parts of the header of a log line that come after the time, in order, and
/// whether the line has a message.
///
/// Main benefit of this version of the header printer is that it shows the
/// module which is what we plan to filter on.
pub fn print_msg_header(level: LogLevel, module: &str, message: &str) -> (header: (
    Vec<(HeaderPart, String)>,
    bool,
))
    ensures
        header.0@.map_values(|part: (HeaderPart, String)| (part.0, part.1@)) == header_parts(
            level,
            module@,
            message@,
        ),
        header.1 == (message@.len() != 0),
        header.0.len() == 5,
        header.0@[0].0 == HeaderPart::Whitespace && header.0@[0].1@ == " "@,
        header.0@[1].0 == HeaderPart::Level && header.0@[1].1@ == level.short_text(),
        header.0@[2].0 == HeaderPart::Location && header.0@[2].1@ == "["@ + module@ + "]"@,
        header.0@[3].0 == HeaderPart::Whitespace && header.0@[3].1@ == " "@,
        header.0@[4].0 == HeaderPart::Message && header.0@[4].1@ == message@,
{
    let mut location: String = "[".to_owned();
    location.append(module);
    location.append("]");
    let mut parts: Vec<(HeaderPart, String)> = Vec::new();
    parts.push((HeaderPart::Whitespace, " ".to_owned()));
    parts.push((HeaderPart::Level, level.as_short_str().to_owned()));
    parts.push((HeaderPart::Location, location));
    parts.push((HeaderPart::Whitespace, " ".to_owned()));
    parts.push((HeaderPart::Message, message.to_owned()));
    assert(parts@.map_values(|part: (HeaderPart, String)| (part.0, part.1@)) =~= header_parts(
        level,
        module@,
        message@,
    ));
    (parts, !message.is_empty())
}

} // verus!
