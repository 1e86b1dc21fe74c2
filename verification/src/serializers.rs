//! How the parts of an answer are written down, as numbers and text.
use vstd::prelude::*;
use vstd::string::*;

use crate::crawl_model::PageResultView;
use crate::crawler::{CrawlResult, PageResult, page_views};
use crate::http_client::Status;
use crate::link_extractor::url_texts;
use crate::urls::WebUrl;

verus! {

/// A status is written as its code.
pub fn serialize_status(data: &Status) -> (code: u16)
    ensures
        code == data.code,
{
    data.code
}

/// A URL is written as its text.
pub fn serialize_url(data: &WebUrl) -> (text: String)
    ensures
        text@ == data@,
{
    data.as_str().to_owned()
}

/// A list of URLs is written as the list of their texts, in the same order.
pub fn serialize_vec_url(data: &Vec<WebUrl>) -> (texts: Vec<String>)
    ensures
        texts@.map_values(|text: String| text@) == url_texts(data@),
        texts.len() == data.len(),
        forall|i: int| 0 <= i < texts.len() ==> (#[trigger] texts@[i])@ == data@[i]@,
{
    let mut texts: Vec<String> = Vec::new();
    let mut i: usize = 0;
    while i < data.len()
        invariant
            i <= data.len(),
            texts.len() == i,
            forall|j: int| 0 <= j < i ==> (#[trigger] texts@[j])@ == data@[j]@,
        decreases data.len() - i,
    {
        texts.push(serialize_url(&data[i]));
        i = i + 1;
    }
    assert(texts@.map_values(|text: String| text@) =~= url_texts(data@));
    texts
}

/// What the entries of an object hold: texts of URLs, and what came of each.
pub open spec fn entry_views(entries: Seq<(String, &PageResult)>) -> Seq<
    (Seq<char>, PageResultView),
> {
    entries.map_values(|entry: (String, &PageResult)| (entry.0@, entry.1@))
}

/// What came of the URLs of a crawl is written as an object, with the texts of the
/// URLs for keys, each once.
pub fn serialize_page_results(data: &CrawlResult) -> (entries: Vec<(String, &PageResult)>)
    ensures
        entry_views(entries@) == data@,
        entries.len() == data@.len(),
        forall|i: int|
            0 <= i < entries.len() ==> data@[i] == ((#[trigger] entries@[i]).0@, entries@[i].1@),
{
    let pages: &Vec<(WebUrl, PageResult)> = data.pages();
    let mut entries: Vec<(String, &PageResult)> = Vec::new();
    let mut i: usize = 0;
    while i < pages.len()
        invariant
            i <= pages.len(),
            entries.len() == i,
            forall|j: int|
                0 <= j < i ==> (#[trigger] entries@[j]).0@ == pages@[j].0@ && entries@[j].1@
                    == pages@[j].1@,
        decreases pages.len() - i,
    {
        entries.push((serialize_url(&pages[i].0), &pages[i].1));
        i = i + 1;
    }
    assert(entry_views(entries@) =~= page_views(pages@));
    entries
}

} // verus!
