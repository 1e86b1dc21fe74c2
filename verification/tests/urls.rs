use mikes_crawler::urls::WebUrl;

#[test]
fn a_url_is_written_in_its_normal_form() {
    assert_eq!(WebUrl::parse("HTTPS://Example.COM:443/a/../b").unwrap().as_str(), "https://example.com/b");
    assert_eq!(WebUrl::parse("https://example.com").unwrap().as_str(), "https://example.com/");
}

#[test]
fn a_text_that_is_no_url_is_an_error() {
    let error = WebUrl::parse("garbage").unwrap_err();
    assert_eq!(error.message(), "relative URL without a base");
}

#[test]
fn a_reference_is_followed_from_its_base() {
    let base = WebUrl::parse("https://example.com/a/b?c#d").unwrap();
    assert_eq!(base.join("e").unwrap().as_str(), "https://example.com/a/e");
    assert_eq!(base.join("/e").unwrap().as_str(), "https://example.com/e");
    assert_eq!(base.join("//other.com/e").unwrap().as_str(), "https://other.com/e");
    assert_eq!(base.join("#f").unwrap().as_str(), "https://example.com/a/b?c#f");
}

#[test]
fn a_reference_that_leads_nowhere_is_an_error() {
    let base = WebUrl::parse("https://example.com/").unwrap();
    assert_eq!(base.join("https://").unwrap_err().message(), "empty host");
}

#[test]
fn only_a_host_with_a_name_has_a_domain() {
    assert_eq!(WebUrl::parse("https://Example.com:8080/").unwrap().domain(), Some("example.com".to_string()));
    assert_eq!(WebUrl::parse("https://127.0.0.1/").unwrap().domain(), None);
    assert_eq!(WebUrl::parse("https://[::1]/").unwrap().domain(), None);
    assert_eq!(WebUrl::parse("data:text/plain,x").unwrap().domain(), None);
}

#[test]
fn domains_are_compared_without_scheme_and_port() {
    let url = WebUrl::parse("https://example.com/").unwrap();
    assert!(url.same_domain(&WebUrl::parse("http://example.com:8080/x").unwrap()));
    assert!(!url.same_domain(&WebUrl::parse("https://www.example.com/").unwrap()));
    assert!(!url.same_domain(&WebUrl::parse("https://127.0.0.1/").unwrap()));
    assert!(WebUrl::parse("http://127.0.0.1/").unwrap().same_domain(&WebUrl::parse("http://10.0.0.1/").unwrap()));
}

#[test]
fn taking_the_fragment_away_keeps_the_domain() {
    for (text, rest) in [
        ("https://example.com/a?b#c", "https://example.com/a?b"),
        ("https://example.com/a?b", "https://example.com/a?b"),
        ("https://b\u{fc}cher.example/#x", "https://xn--bcher-kva.example/"),
        ("http://127.0.0.1/#x", "http://127.0.0.1/"),
        ("file:///tmp/x#y", "file:///tmp/x"),
        ("file://localhost/x#y", "file:///x"),
        ("data:text/plain,x#y", "data:text/plain,x"),
        ("other:///x#y", "other:///x"),
        ("other:/.//x#y", "other:/.//x"),
        ("other://host/x#y", "other://host/x"),
        ("data:x  #y", "data:x"),
        ("file://host//C:/x#y", "file://host/C:/x"),
        ("file://host/C:/x#y", "file:///C:/x"),
    ] {
        let url = WebUrl::parse(text).unwrap();
        let left = url.without_fragment();
        assert_eq!(left.as_str(), rest);
        assert_eq!(left.domain(), url.domain());
        assert!(left.same_domain(&url));
        assert!(left.without_fragment().same(&left));
    }
}

#[test]
fn the_domain_is_that_of_the_url_and_not_of_its_text_read_again() {
    let url = WebUrl::parse("file://host//C:/x").unwrap();
    assert_eq!(url.as_str(), "file://host/C:/x");
    assert_eq!(url.domain(), Some("host".to_string()));
    assert_eq!(WebUrl::parse(url.as_str()).unwrap().domain(), None);
    let page = WebUrl::parse("file://host/").unwrap();
    let link = page.join("file://host//C:/x").unwrap();
    assert!(link.same(&url));
    assert!(link.same_domain(&page));
    assert!(link.clone().same_domain(&page));
}

#[test]
fn a_reference_is_followed_from_the_url_and_not_from_its_text_read_again() {
    let url = WebUrl::parse("file://host//C:/x").unwrap();
    let link = url.join("y").unwrap();
    assert_eq!(
        link.as_str(),
        url::Url::parse("file://host//C:/x").unwrap().join("y").unwrap().as_str()
    );
    assert_eq!(link.as_str(), "file://host/C:/y");
    assert!(link.same_domain(&url));
    let bare = WebUrl::parse("file://host//C:/x#z").unwrap().without_fragment();
    assert_eq!(bare.as_str(), "file://host/C:/x");
    assert!(bare.clone().join("y").unwrap().same(&link));
    assert_eq!(WebUrl::parse("file://host/C:/x").unwrap().join("y").unwrap().as_str(), "file:///C:/y");
}

#[test]
fn urls_with_the_same_text_are_the_same() {
    let url = WebUrl::parse("https://example.com/a").unwrap();
    assert!(url.same(&url.clone()));
    assert_eq!(url, url.clone());
    assert!(url.same(&WebUrl::parse("https://EXAMPLE.com/a").unwrap()));
    assert!(!url.same(&WebUrl::parse("https://example.com/a#b").unwrap()));
}
