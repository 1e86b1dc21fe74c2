//! What a robots.txt allows, as robotstxt reads it.
use vstd::prelude::*;
use vstd::utf8::{encode_utf8, encode_utf8_valid_utf8, is_char_boundary};

use crate::http_client::USER_AGENT;
use crate::text::optional_text;

verus! {

/// How many bytes of a line robotstxt reads before it skips the rest.
pub const MAX_LINE_BYTES: u64 = 16_663;

/// How many bytes of UTF-8 a character takes.
pub open spec fn utf8_bytes(character: char) -> nat {
    if character <= '\u{7f}' {
        1
    } else if character <= '\u{7ff}' {
        2
    } else if character <= '\u{ffff}' {
        3
    } else {
        4
    }
}

/// Whether a character ends a line.
pub open spec fn ends_line(character: char) -> bool {
    character == '\n' || character == '\r'
}

/// Where robotstxt takes the current line of a robots.txt to be, in bytes. It is
/// right about that as long as no character that it skips takes more than one byte.
pub struct Place {
    /// How many characters of the mark that some files begin with were skipped, or
    /// all three of them once another character was read.
    pub mark: nat,
    /// Where the line begins.
    pub start: nat,
    /// Where the line ends, as far as it was read.
    pub end: nat,
    /// How many characters of the line were skipped because it is too long.
    pub skipped: nat,
    /// Whether the line comes after a carriage return.
    pub after_return: bool,
}

impl Place {
    /// The place before the first character.
    pub open spec fn first() -> Place {
        Place { mark: 0, start: 0, end: 0, skipped: 0, after_return: false }
    }

    /// Whether a character is skipped as part of the mark that some files begin with.
    pub open spec fn in_mark(self, character: char) -> bool {
        ||| self.mark == 0 && character == '\u{ef}'
        ||| self.mark == 1 && character == '\u{bb}'
        ||| self.mark == 2 && character == '\u{bf}'
    }

    /// Whether the line is looked at when a character is read: it is when it ends,
    /// but for the nothing between a carriage return and a line feed.
    pub open spec fn takes_line(self, character: char) -> bool {
        &&& !self.in_mark(character)
        &&& ends_line(character)
        &&& !(self.start == self.end && self.after_return && character == '\n')
    }

    /// The place behind a character.
    pub open spec fn behind(self, character: char) -> Place {
        if self.in_mark(character) {
            Place {
                mark: self.mark + 1,
                start: self.start + utf8_bytes(character),
                end: self.end + utf8_bytes(character),
                ..self
            }
        } else if ends_line(character) {
            let end = self.end + self.skipped + utf8_bytes(character);
            Place { mark: 3, start: end, end, skipped: 0, after_return: character == '\r' }
        } else if self.end - self.start < MAX_LINE_BYTES {
            Place { mark: 3, end: self.end + utf8_bytes(character), ..self }
        } else {
            Place { mark: 3, skipped: self.skipped + 1, ..self }
        }
    }

    /// Whether the line begins and ends between characters of the text.
    pub open spec fn is_between_characters(self, robots: Seq<char>) -> bool {
        &&& is_char_boundary(encode_utf8(robots), self.start as int)
        &&& is_char_boundary(encode_utf8(robots), self.end as int)
    }
}

/// The place behind a text.
pub open spec fn place_behind(text: Seq<char>) -> Place
    decreases text.len(),
{
    if text.len() == 0 {
        Place::first()
    } else {
        place_behind(text.drop_last()).behind(text.last())
    }
}

/// Whether robotstxt can read a robots.txt to its end. It stops with a panic where a
/// line that it looks at does not begin and end between characters, and it counts
/// lines in 32 bits.
pub open spec fn is_readable(robots: Seq<char>) -> bool {
    &&& robots.len() < u32::MAX
    &&& forall|i: int|
        0 <= i < robots.len() && place_behind(#[trigger] robots.take(i)).takes_line(robots[i])
            ==> place_behind(robots.take(i)).is_between_characters(robots)
    &&& place_behind(robots).is_between_characters(robots)
}

fn bytes_of(character: char) -> (bytes: u64)
    ensures
        bytes == utf8_bytes(character),
{
    if character <= '\u{7f}' {
        1
    } else if character <= '\u{7ff}' {
        2
    } else if character <= '\u{ffff}' {
        3
    } else {
        4
    }
}

fn is_boundary(text: &str, at: u64) -> (boundary: bool)
    ensures
        boundary == is_char_boundary(encode_utf8(text@), at as int),
{
    proof {
        encode_utf8_valid_utf8(text@);
    }
    if at > text.as_bytes().len() as u64 {
        return false;
    }
    text.is_char_boundary(at as usize)
}

/// Whether robotstxt can read a robots.txt to its end.
pub fn readable(robots: &str) -> (readable: bool)
    ensures
        readable == is_readable(robots@),
{
    let mut count: u32 = 0;
    let mut mark: u64 = 0;
    let mut start: u64 = 0;
    let mut end: u64 = 0;
    let mut skipped: u64 = 0;
    let mut after_return: bool = false;
    for character in it: robots.chars()
        invariant
            it.seq() == robots@,
            count == it.index(),
            count < u32::MAX,
            mark <= 3,
            start <= end,
            end + skipped <= 4 * count,
            place_behind(robots@.take(it.index() as int)) == (Place {
                mark: mark as nat,
                start: start as nat,
                end: end as nat,
                skipped: skipped as nat,
                after_return,
            }),
            forall|i: int|
                0 <= i < it.index() && place_behind(#[trigger] robots@.take(i)).takes_line(
                    robots@[i],
                ) ==> place_behind(robots@.take(i)).is_between_characters(robots@),
    {
        let ghost at = it.index() as int;
        proof {
            assert(robots@.take(at + 1).drop_last() =~= robots@.take(at));
        }
        if count >= u32::MAX - 1 {
            return false;
        }
        count = count + 1;
        let bytes: u64 = bytes_of(character);
        if mark == 0 && character == '\u{ef}' || mark == 1 && character == '\u{bb}' || mark == 2
            && character == '\u{bf}' {
            mark = mark + 1;
            start = start + bytes;
            end = end + bytes;
        } else if character == '\n' || character == '\r' {
            if !(start == end && after_return && character == '\n') && !(is_boundary(robots, start)
                && is_boundary(robots, end)) {
                assert(place_behind(robots@.take(at)).takes_line(robots@[at]));
                return false;
            }
            mark = 3;
            end = end + skipped + bytes;
            start = end;
            skipped = 0;
            after_return = character == '\r';
        } else {
            mark = 3;
            if end - start < MAX_LINE_BYTES {
                end = end + bytes;
            } else {
                skipped = skipped + 1;
            }
        }
    }
    assert(robots@.take(robots@.len() as int) =~= robots@);
    is_boundary(robots, start) && is_boundary(robots, end)
}

/// Whether the rules of a robots.txt let an agent fetch a URL, as
/// `robotstxt::DefaultMatcher::one_agent_allowed_by_robots` judges.
pub uninterp spec fn robots_allow(robots: Seq<char>, agent: Seq<char>, url: Seq<char>) -> bool;

/// Calls `robotstxt::DefaultMatcher::one_agent_allowed_by_robots`. Trusted: the
/// result is a function of the three texts.
#[verifier::external_body]
fn call_one_agent_allowed(robots: &str, agent: &str, url: &str) -> (allowed: bool)
    requires
        is_readable(robots@),
    ensures
        allowed == robots_allow(robots@, agent@, url@),
{
    robotstxt::DefaultMatcher::default().one_agent_allowed_by_robots(robots, agent, url)
}

/// Whether a site lets the crawler fetch a URL. A site without a robots.txt
/// allows everything.
pub open spec fn is_allowed(robots: Option<Seq<char>>, url: Seq<char>) -> bool {
    match robots {
        Some(robots) => robots_allow(robots, USER_AGENT@, url),
        None => true,
    }
}

/// Whether a site lets the crawler fetch a URL.
pub fn allowed(robots: &Option<String>, url: &str) -> (allowed: bool)
    requires
        robots matches Some(robots) ==> is_readable(robots@),
    ensures
        allowed == is_allowed(optional_text(*robots), url@),
        robots matches Some(robots) ==> allowed == robots_allow(
            robots@,
            "MikesCrawler"@,
            url@,
        ),
        robots is None ==> allowed,
{
    match robots {
        Some(robots) => call_one_agent_allowed(robots.as_str(), USER_AGENT, url),
        None => true,
    }
}

} // verus!
