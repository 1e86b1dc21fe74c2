//! The tokens of an HTML page, as the tokenizer of html5ever sees them.
use html5ever::tokenizer::{
    BufferQueue, Token, TokenSink, TokenSinkResult, Tokenizer, TokenizerOpts, TokenizerResult,
};
use vstd::prelude::*;
use vstd::utf8::encode_utf8;

verus! {

/// The longest page, in bytes of UTF-8, that the tokenizer is given. It keeps
/// text in buffers that hold at most 2^31 bytes once they have grown, and one
/// byte of a page becomes at most three (a NUL becomes U+FFFD).
pub const MAX_PAGE_BYTES: usize = 715_827_882;

/// Whether a page is short enough for the tokenizer.
pub open spec fn page_fits(page: Seq<char>) -> bool {
    encode_utf8(page).len() <= MAX_PAGE_BYTES
}

/// Whether a page is short enough for the tokenizer.
pub fn fits(page: &str) -> (fits: bool)
    ensures
        fits == page_fits(page@),
        fits <==> encode_utf8(page@).len() <= 715_827_882,
{
    page.as_bytes().len() <= MAX_PAGE_BYTES
}

/// Whether a tag opens an element or closes one.
#[derive(Debug, PartialEq, Eq, Clone, Copy, Structural)]
pub enum TagKind {
    StartTag,
    EndTag,
}

/// An attribute of a tag.
#[derive(Debug, PartialEq, Eq)]
pub struct Attribute {
    pub name: String,
    pub value: String,
}

impl View for Attribute {
    type V = (Seq<char>, Seq<char>);

    open spec fn view(&self) -> (Seq<char>, Seq<char>) {
        (self.name@, self.value@)
    }
}

/// A tag of a page.
#[derive(Debug, PartialEq, Eq)]
pub struct Tag {
    pub kind: TagKind,
    pub name: String,
    pub attrs: Vec<Attribute>,
}

impl View for Tag {
    type V = (bool, Seq<char>, Seq<(Seq<char>, Seq<char>)>);

    /// Whether the tag opens an element, its name, and its attributes in order.
    open spec fn view(&self) -> (bool, Seq<char>, Seq<(Seq<char>, Seq<char>)>) {
        (
            self.kind == TagKind::StartTag,
            self.name@,
            self.attrs@.map_values(|attr: Attribute| attr@),
        )
    }
}

/// A token of a page.
#[derive(Debug, PartialEq, Eq)]
pub enum HtmlToken {
    /// A tag.
    TagToken(Tag),
    /// Text, a comment, or anything else that is no tag.
    OtherToken,
}

impl View for HtmlToken {
    type V = Option<(bool, Seq<char>, Seq<(Seq<char>, Seq<char>)>)>;

    /// The tag, where the token is one.
    open spec fn view(&self) -> Option<(bool, Seq<char>, Seq<(Seq<char>, Seq<char>)>)> {
        match self {
            HtmlToken::TagToken(tag) => Some(tag@),
            HtmlToken::OtherToken => None,
        }
    }
}

/// What tokenizing a page gives.
#[derive(Debug, PartialEq, Eq)]
pub struct Tokenized {
    /// Whether the tokenizer said that it was done.
    pub done: bool,
    /// Whether it left nothing of its input.
    pub used_up: bool,
    /// The tokens, in the order of the page.
    pub tokens: Vec<HtmlToken>,
}

impl View for Tokenized {
    type V = (bool, bool, Seq<Option<(bool, Seq<char>, Seq<(Seq<char>, Seq<char>)>)>>);

    open spec fn view(&self) -> (
        bool,
        bool,
        Seq<Option<(bool, Seq<char>, Seq<(Seq<char>, Seq<char>)>)>>,
    ) {
        (self.done, self.used_up, self.tokens@.map_values(|token: HtmlToken| token@))
    }
}

/// The token that html5ever hands to a sink.
#[verifier::external_type_specification]
#[verifier::external_body]
pub struct ExToken(html5ever::tokenizer::Token);

/// What a sink answers to a token of html5ever.
#[verifier::external_type_specification]
#[verifier::external_body]
#[verifier::reject_recursive_types(Handle)]
pub struct ExTokenSinkResult<Handle>(html5ever::tokenizer::TokenSinkResult<Handle>);

/// A sink that keeps the tokens it is handed.
struct KeepingSink {
    tokens: Vec<HtmlToken>,
}

impl TokenSink for KeepingSink {
    type Handle = ();

    /// Called back by `html5ever::tokenizer::Tokenizer` with each token, on behalf
    /// of `tokenize`. Trusted: it keeps each token, a tag field for field, and always
    /// asks the tokenizer to go on.
    #[verifier::external_body]
    fn process_token(&mut self, token: Token, _line_number: u64) -> TokenSinkResult<()> {
        self.tokens.push(match token {
            Token::TagToken(tag) => HtmlToken::TagToken(Tag {
                kind: match tag.kind {
                    html5ever::tokenizer::TagKind::StartTag => TagKind::StartTag,
                    html5ever::tokenizer::TagKind::EndTag => TagKind::EndTag,
                },
                name: tag.name.to_string(),
                attrs: tag.attrs.iter().map(
                    |a| Attribute { name: a.name.local.to_string(), value: a.value.to_string() },
                ).collect(),
            }),
            _ => HtmlToken::OtherToken,
        });
        TokenSinkResult::Continue
    }
}

/// What `html5ever::tokenizer::Tokenizer` makes of a page when its sink always
/// asks it to go on: whether `feed` was done, whether it used up its input, and
/// the tokens that `feed` and `end` handed out, each as `HtmlToken` views it.
pub uninterp spec fn html_tokenized(page: Seq<char>) -> (
    bool,
    bool,
    Seq<Option<(bool, Seq<char>, Seq<(Seq<char>, Seq<char>)>)>>,
);

/// Runs `html5ever::tokenizer::Tokenizer` (`new`, `feed`, `end`) over a page.
/// Trusted: the result is a function of the page, and `feed` is done and leaves nothing
/// of its input: it stops early only for a sink that asks for it, and otherwise where
/// there is no input any more.
#[verifier::external_body]
pub(crate) fn tokenize(page: &str) -> (tokenized: Tokenized)
    requires
        page_fits(page@),
    ensures
        tokenized@ == html_tokenized(page@),
        tokenized.done && tokenized.used_up,
{
    let mut buffers = BufferQueue::new();
    buffers.push_back(page.into());
    let sink = KeepingSink { tokens: Vec::new() };
    let mut tokenizer = Tokenizer::new(sink, TokenizerOpts::default());
    let done = matches!(tokenizer.feed(&mut buffers), TokenizerResult::Done);
    let used_up = buffers.is_empty();
    tokenizer.end();
    Tokenized { done, used_up, tokens: tokenizer.sink.tokens }
}

} // verus!
