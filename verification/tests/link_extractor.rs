use mikes_crawler::html::{Attribute, HtmlToken, Tag, TagKind, Tokenized, fits};
use mikes_crawler::link_extractor::{
    AnchorError, IncompletePage, PageInfo, PageInfoSink, extract_anchors, extract_links,
    parse_anchors, parse_page, read_anchors, read_tokenized,
};
use mikes_crawler::urls::WebUrl;

fn url(text: &str) -> WebUrl {
    WebUrl::parse(text).unwrap()
}

fn internal_links<const N: usize>(links: [&str; N]) -> PageInfo {
    PageInfo { internal_links: links.iter().map(|link| url(link)).collect(), external_links: vec![] }
}

fn external_links<const N: usize>(links: [&str; N]) -> PageInfo {
    PageInfo { internal_links: vec![], external_links: links.iter().map(|link| url(link)).collect() }
}

fn run_parse_successfully(html: &str) -> PageInfo {
    assert!(fits(html));
    parse_page(&url("https://example.com/start"), html).unwrap()
}

fn anchor(attrs: Vec<(&str, &str)>) -> Tag {
    Tag {
        kind: TagKind::StartTag,
        name: "a".to_string(),
        attrs: attrs
            .into_iter()
            .map(|(name, value)| Attribute { name: name.to_string(), value: value.to_string() })
            .collect(),
    }
}

#[test]
fn empty_lists_for_empty_html() {
    let html = "<!DOCTYPE html>
<html>
    <head></head>
    <body>
        Boring!
    </body>
</html
";

    let rv = run_parse_successfully(html);

    assert_eq!(rv, PageInfo::default())
}

#[test]
fn extracts_links_in_domain_as_internal_link() {
    let html = r##"<!DOCTYPE html>
<html>
    <head></head>
    <body>
        <a href="https://example.com/another">Interesting</a>
    </body>
</html
"##;

    let rv = run_parse_successfully(html);

    assert_eq!(rv, internal_links(["https://example.com/another"]))
}

#[test]
fn continues_after_script_tags() {
    let html = r##"<!DOCTYPE html>
<html>
    <head></head>
    <body>
        <script>
            function get_string() {
                return "Some JS here";
            }
            alert(get_string())
        </script>
        <a href="https://example.com/another">Interesting</a>
    </body>
</html
"##;

    let rv = run_parse_successfully(html);

    assert_eq!(rv, internal_links(["https://example.com/another"]))
}

#[test]
fn extracts_links_in_other_domain_as_external_link() {
    let html = r##"<!DOCTYPE html>
<html>
    <head></head>
    <body>
        <a href="https://notexample.com/another">Interesting</a>
    </body>
</html
"##;

    let rv = run_parse_successfully(html);

    assert_eq!(rv, external_links(["https://notexample.com/another"]))
}

#[test]
fn relative_links_are_internal_links() {
    let html = r##"<!DOCTYPE html>
<html>
    <head></head>
    <body>
        <a href="/another">Interesting</a>
    </body>
</html
"##;

    let rv = run_parse_successfully(html);

    assert_eq!(rv, internal_links(["https://example.com/another"]))
}

#[test]
fn links_keep_the_order_of_the_page() {
    let html = r#"<a href="/1"></a><a href="https://other.com/2"></a><a href="3"></a>
        <a href="https://third.com/4"></a><a href="/1"></a>"#;

    let rv = run_parse_successfully(html);

    assert_eq!(
        rv,
        PageInfo {
            internal_links: vec![
                url("https://example.com/1"),
                url("https://example.com/3"),
                url("https://example.com/1"),
            ],
            external_links: vec![url("https://other.com/2"), url("https://third.com/4")],
        }
    );
}

#[test]
fn subdomains_are_external() {
    let rv = run_parse_successfully(r#"<a href="https://www.example.com/">x</a>"#);

    assert_eq!(rv, external_links(["https://www.example.com/"]));
}

#[test]
fn links_without_a_domain_are_external() {
    let rv = run_parse_successfully(r#"<a href="mailto:someone@example.com">x</a>"#);

    assert_eq!(rv, external_links(["mailto:someone@example.com"]));
}

#[test]
fn links_of_a_file_with_a_host_are_sorted_by_it() {
    let page = url("file://host/");
    let info = parse_page(&page, r#"<a href="file://host//C:/x">x</a><a href="file:///y">y</a>"#);
    assert_eq!(
        info,
        Ok(PageInfo {
            internal_links: vec![page.join("file://host//C:/x").unwrap()],
            external_links: vec![url("file:///y")],
        })
    );
}

#[test]
fn links_are_followed_from_the_url_of_the_page() {
    let page = url("file://host//C:/x");
    let info = parse_page(&page, r#"<a href="y">y</a>"#).unwrap();
    assert_eq!(info.external_links, vec![]);
    assert_eq!(info.internal_links.len(), 1);
    assert_eq!(info.internal_links[0].as_str(), "file://host/C:/y");
}

#[test]
fn anchors_without_a_link_give_a_reason_in_page_order() {
    let page = url("https://example.com/start");
    let html = r#"<a>1</a><a href="/ok">2</a><a href="https://">3</a><a name="x">4</a><p>5</p>"#;
    let anchors = parse_anchors(&page, html).unwrap();
    let reasons: Vec<String> = anchors.unlinked.iter().map(|error| error.message()).collect();
    assert_eq!(reasons, vec!["No href", "empty host", "No href"]);
    assert_eq!(anchors.info, internal_links(["https://example.com/ok"]));
    assert_eq!(Ok(anchors.info), parse_page(&page, html));
}

#[test]
fn every_anchor_is_accounted_for() {
    let page = url("https://example.com/start");
    let tokens = vec![
        HtmlToken::TagToken(anchor(vec![("href", "/a")])),
        HtmlToken::OtherToken,
        HtmlToken::TagToken(anchor(vec![])),
        HtmlToken::TagToken(anchor(vec![("href", "https://other.com/")])),
    ];
    let anchors = extract_anchors(&page, &tokens);
    assert_eq!(anchors.unlinked, vec![AnchorError::NoHref]);
    assert_eq!(anchors.info.internal_links.len() + anchors.info.external_links.len(), 2);
    let not_done = Tokenized { done: false, used_up: true, tokens };
    assert_eq!(read_anchors(&page, &not_done), Err(IncompletePage));
}

#[test]
fn every_page_is_read_to_its_end() {
    for page in ["", "\u{feff}", "<", "<a", "<a href=", "&", "&am", "&#", "&#x", "<!", "<!doct", "<script>", "\r", "\r\n", "\0"] {
        assert!(parse_page(&url("https://example.com/"), page).is_ok());
    }
}

#[test]
fn names_and_entities_are_read_as_html() {
    let rv = run_parse_successfully(r#"<A TITLE="t" HREF='/a?b=1&amp;c=2'>x</A>"#);

    assert_eq!(rv, internal_links(["https://example.com/a?b=1&c=2"]));
}

#[test]
fn anchors_that_lead_nowhere_are_left_out() {
    let rv = run_parse_successfully(
        r#"<a>x</a><a name="here">x</a><a href="https://">x</a><area href="/area"><a href="/ok">x</a>"#,
    );

    assert_eq!(rv, internal_links(["https://example.com/ok"]));
}

#[test]
fn an_anchor_without_href_is_an_error() {
    let page = url("https://example.com/start");
    let mut sink = PageInfoSink::new(&page);

    assert_eq!(sink.process_anchor(&anchor(vec![("name", "here")])), Err(AnchorError::NoHref));
    assert_eq!(sink.output, PageInfo::default());
}

#[test]
fn an_anchor_with_a_bad_href_is_an_error() {
    let page = url("https://example.com/start");
    let mut sink = PageInfoSink::new(&page);

    let error = match sink.process_anchor(&anchor(vec![("href", "https://")])) {
        Err(AnchorError::BadHref(error)) => error,
        other => panic!("{:?}", other),
    };
    assert_eq!(error.message(), url::Url::parse("https://").unwrap_err().to_string());
    assert_eq!(sink.output, PageInfo::default());
}

#[test]
fn the_first_href_counts() {
    let page = url("https://example.com/start");
    let mut sink = PageInfoSink::new(&page);

    let tag = anchor(vec![("name", "x"), ("href", "/first"), ("href", "/second")]);
    assert_eq!(sink.process_anchor(&tag), Ok(()));
    assert_eq!(sink.output, internal_links(["https://example.com/first"]));
}

#[test]
fn only_start_tags_of_anchors_count() {
    let page = url("https://example.com/start");
    let mut end = anchor(vec![("href", "/end")]);
    end.kind = TagKind::EndTag;
    let mut link = anchor(vec![("href", "/link")]);
    link.name = "link".to_string();
    let tokens = vec![
        HtmlToken::TagToken(end),
        HtmlToken::OtherToken,
        HtmlToken::TagToken(link),
        HtmlToken::TagToken(anchor(vec![("href", "/a")])),
    ];

    assert_eq!(extract_links(&page, &tokens), internal_links(["https://example.com/a"]));
}

#[test]
fn a_page_that_was_not_read_to_its_end_is_an_error() {
    let page = url("https://example.com/start");
    let not_done = Tokenized { done: false, used_up: true, tokens: vec![] };
    let left_over = Tokenized { done: true, used_up: false, tokens: vec![] };
    let complete = Tokenized { done: true, used_up: true, tokens: vec![] };

    assert_eq!(read_tokenized(&page, &not_done), Err(IncompletePage));
    assert_eq!(read_tokenized(&page, &left_over), Err(IncompletePage));
    assert_eq!(read_tokenized(&page, &complete), Ok(PageInfo::default()));
    assert_eq!(IncompletePage.message(), "parse_page didn't process all of input buffer");
}

#[test]
fn pages_with_the_same_links_are_the_same() {
    let page = internal_links(["https://example.com/1", "https://example.com/2"]);

    assert!(page.same(&internal_links(["https://example.com/1", "https://example.com/2"])));
    assert!(!page.same(&internal_links(["https://example.com/2", "https://example.com/1"])));
    assert!(!page.same(&internal_links(["https://example.com/1"])));
    assert!(!page.same(&external_links(["https://example.com/1", "https://example.com/2"])));
}
