//! URLs, known by their text.
use vstd::prelude::*;

use crate::text::{optional_text, same_optional_text};

verus! {

/// What `url::Url::parse` makes of a text: the text of the URL that it parses
/// to, or the message of the error.
pub uninterp spec fn url_parsed(text: Seq<char>) -> Result<Seq<char>, Seq<char>>;

/// What `url::Url::join` makes of a reference found at the URL that url writes as the
/// base text: the text of the URL that it leads to, or the message of the error.
pub uninterp spec fn url_joined(base: Seq<char>, reference: Seq<char>) -> Result<
    Seq<char>,
    Seq<char>,
>;

/// The domain name of the URL that url writes as this text, as `url::Url::domain`
/// gives it; nothing where the host is an IP address or there is none.
pub uninterp spec fn url_domain(text: Seq<char>) -> Option<Seq<char>>;

/// What is left of the URL that url writes as this text when
/// `url::Url::set_fragment` has taken its fragment away.
pub uninterp spec fn url_defragmented(text: Seq<char>) -> Seq<char>;

/// The URL as url holds it.
#[verifier::external_type_specification]
#[verifier::external_body]
pub struct ExUrl(url::Url);

/// A URL, with the text that url writes it as. It is known by that text: two URLs with
/// the same text are the same. Nothing but the calls of url in this file makes one, so
/// the text is always that of the URL beside it.
#[derive(Debug, PartialEq, Eq, Hash)]
pub struct WebUrl {
    url: url::Url,
    text: String,
}

impl View for WebUrl {
    type V = Seq<char>;

    closed spec fn view(&self) -> Seq<char> {
        self.text@
    }
}

/// The text of the URL that was made, or the message of the error.
spec fn made_result(value: Result<WebUrl, String>) -> Result<Seq<char>, Seq<char>> {
    match value {
        Ok(url) => Ok(url@),
        Err(message) => Err(message@),
    }
}

/// Calls `url::Url::parse`. Trusted: the result is a function of the text.
#[verifier::external_body]
fn call_parse(text: &str) -> (parsed: Result<WebUrl, String>)
    ensures
        made_result(parsed) == url_parsed(text@),
{
    match url::Url::parse(text) {
        Ok(url) => Ok(WebUrl { text: url.as_str().to_string(), url }),
        Err(error) => Err(error.to_string()),
    }
}

/// Calls `url::Url::join`. Trusted: the result is a function of the reference and of
/// the text that the base is written as, which shows where each part of it begins.
#[verifier::external_body]
fn call_join(base: &WebUrl, reference: &str) -> (joined: Result<WebUrl, String>)
    ensures
        made_result(joined) == url_joined(base@, reference@),
{
    match base.url.join(reference) {
        Ok(url) => Ok(WebUrl { text: url.as_str().to_string(), url }),
        Err(error) => Err(error.to_string()),
    }
}

/// Calls `url::Url::domain`. Trusted: the result is a function of the text that the URL
/// is written as, in which the host stands.
#[verifier::external_body]
fn call_domain(url: &WebUrl) -> (domain: Option<String>)
    ensures
        optional_text(domain) == url_domain(url@),
{
    url.url.domain().map(str::to_string)
}

/// Calls `url::Url::set_fragment` with no fragment on a copy. Trusted: the result is a
/// function of the text that the URL is written as, in which the fragment begins at the
/// first `#`; and the URL that is left has the same domain, because `set_fragment` cuts
/// the text off behind the host.
#[verifier::external_body]
fn call_set_fragment(url: &WebUrl) -> (rest: WebUrl)
    ensures
        rest@ == url_defragmented(url@),
        url_domain(rest@) == url_domain(url@),
{
    let mut url = url.url.clone();
    url.set_fragment(None);
    WebUrl { text: url.as_str().to_string(), url }
}

/// Calls `url::Url::clone`. Trusted: the copy is written as the same text.
#[verifier::external_body]
fn call_clone(url: &WebUrl) -> (copy: WebUrl)
    ensures
        copy@ == url@,
{
    WebUrl { url: url.url.clone(), text: url.text.clone() }
}

impl Clone for WebUrl {
    fn clone(&self) -> (copy: Self)
        ensures
            copy@ == self@,
    {
        call_clone(self)
    }
}

/// Why a text is not a URL, or a reference leads nowhere.
#[derive(Debug, PartialEq, Eq)]
pub struct ParseError {
    message: String,
}

impl View for ParseError {
    type V = Seq<char>;

    closed spec fn view(&self) -> Seq<char> {
        self.message@
    }
}

impl ParseError {
    /// The error in words.
    pub fn message(&self) -> (message: String)
        ensures
            message@ == self@,
    {
        self.message.clone()
    }
}

/// What the result of making a URL holds.
pub open spec fn url_result(value: Result<WebUrl, ParseError>) -> Result<Seq<char>, Seq<char>> {
    match value {
        Ok(url) => Ok(url@),
        Err(error) => Err(error@),
    }
}

impl WebUrl {
    /// Reads an absolute URL.
    pub fn parse(text: &str) -> (url: Result<WebUrl, ParseError>)
        ensures
            url_result(url) == url_parsed(text@),
            match url_parsed(text@) {
                Ok(parsed) => url matches Ok(url) && url@ == parsed,
                Err(message) => url matches Err(error) && error@ == message,
            },
    {
        match call_parse(text) {
            Ok(url) => Ok(url),
            Err(message) => Err(ParseError { message }),
        }
    }

    /// Follows a reference, relative or absolute, found at this URL.
    pub fn join(&self, reference: &str) -> (url: Result<WebUrl, ParseError>)
        ensures
            url_result(url) == url_joined(self@, reference@),
            match url_joined(self@, reference@) {
                Ok(joined) => url matches Ok(url) && url@ == joined,
                Err(message) => url matches Err(error) && error@ == message,
            },
    {
        match call_join(self, reference) {
            Ok(url) => Ok(url),
            Err(message) => Err(ParseError { message }),
        }
    }

    /// The domain name, where the URL has one.
    pub fn domain(&self) -> (domain: Option<String>)
        ensures
            optional_text(domain) == url_domain(self@),
            match url_domain(self@) {
                Some(name) => domain matches Some(domain) && domain@ == name,
                None => domain is None,
            },
    {
        call_domain(self)
    }

    /// Whether two URLs have the same domain name, or neither has one.
    pub fn same_domain(&self, other: &WebUrl) -> (same: bool)
        ensures
            same == (url_domain(self@) == url_domain(other@)),
    {
        same_optional_text(&self.domain(), &other.domain())
    }

    /// The same URL without its fragment. It has the same domain.
    pub fn without_fragment(&self) -> (url: WebUrl)
        ensures
            url@ == url_defragmented(self@),
            url_domain(url@) == url_domain(self@),
    {
        call_set_fragment(self)
    }

    /// Whether two URLs are the same.
    pub fn same(&self, other: &WebUrl) -> (same: bool)
        ensures
            same == (self@ == other@),
    {
        self.text == other.text
    }

    /// The text of the URL.
    pub fn as_str(&self) -> (text: &str)
        ensures
            text@ == self@,
    {
        self.text.as_str()
    }
}

} // verus!
