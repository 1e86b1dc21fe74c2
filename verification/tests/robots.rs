use mikes_crawler::robots::{MAX_LINE_BYTES, allowed, readable};

fn is_allowed(robots: &str, url: &str) -> bool {
    assert!(readable(robots));
    allowed(&Some(robots.to_string()), url)
}

#[test]
fn everything_is_allowed_without_robots_txt() {
    assert!(allowed(&None, "https://example.com/excluded"));
}

#[test]
fn rules_for_every_agent_hold_for_the_crawler() {
    let robots = "User-agent: *\nDisallow: /excluded\n";
    assert!(!is_allowed(robots, "https://example.com/excluded"));
    assert!(!is_allowed(robots, "https://example.com/excluded/more"));
    assert!(is_allowed(robots, "https://example.com/page"));
}

#[test]
fn rules_for_the_crawler_go_before_those_for_every_agent() {
    let robots = "User-agent: *\nDisallow: /\n\nUser-agent: MikesCrawler\nDisallow: /private\n";
    assert!(is_allowed(robots, "https://example.com/page"));
    assert!(!is_allowed(robots, "https://example.com/private"));
}

#[test]
fn rules_for_other_agents_do_not_hold_for_the_crawler() {
    let robots = "User-agent: OtherCrawler\nDisallow: /\n";
    assert!(is_allowed(robots, "https://example.com/page"));
}

fn long_line() -> String {
    "x".repeat(MAX_LINE_BYTES as usize)
}

#[test]
fn lines_of_any_length_are_readable_in_ascii() {
    let robots = format!("{0}{0}\nUser-agent: *\nDisallow: /excluded\n", long_line());
    assert!(!is_allowed(&robots, "https://example.com/excluded"));
    assert!(is_allowed(&robots, "https://example.com/page"));
}

#[test]
fn characters_of_several_bytes_are_readable_in_short_lines() {
    let robots = "# \u{e9}\u{20ac}\u{1f600}\nUser-agent: *\nDisallow: /excluded\n";
    assert!(!is_allowed(robots, "https://example.com/excluded"));
}

#[test]
fn a_mark_at_the_beginning_is_skipped() {
    let robots = "\u{ef}\u{bb}\u{bf}User-agent: *\nDisallow: /excluded\n";
    assert!(!is_allowed(robots, "https://example.com/excluded"));
    let marked = format!("\u{ef}\u{bb}\u{bf}{}\u{e9}\n\u{e9}\n", &long_line()[1..]);
    assert!(readable(&marked));
    assert!(allowed(&Some(marked), "https://example.com/"));
}

#[test]
fn lines_end_in_any_of_three_ways() {
    for end in ["\n", "\r", "\r\n"] {
        let robots = format!("\u{e9}{0}User-agent: *{0}Disallow: /excluded{0}{0}\u{e9}", end);
        assert!(!is_allowed(&robots, "https://example.com/excluded"));
    }
}

#[test]
fn what_is_skipped_at_the_end_does_no_harm() {
    let robots = format!("User-agent: *\nDisallow: /excluded\n{}\u{e9}", long_line());
    assert!(!is_allowed(&robots, "https://example.com/excluded"));
}

#[test]
fn a_line_that_is_cut_off_between_characters_is_readable() {
    let robots = format!("{}\u{e9}\nUser-agent: *\nDisallow: /excluded\n", long_line());
    assert!(is_allowed(&robots, "https://example.com/excluded"));
}

#[test]
fn a_line_that_is_cut_off_within_a_character_is_not_readable() {
    assert!(!readable(&format!("{}\u{e9}\n\u{e9}\n", long_line())));
    assert!(!readable(&format!("{}\u{e9}\n\u{e9}", long_line())));
    assert!(!readable(&format!("{}\u{20ac}\nx\u{20ac}\n", long_line())));
    assert!(readable(&format!("{}\u{e9}\nx\n", long_line())));
}
