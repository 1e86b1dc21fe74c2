use mikes_crawler::http_client::{
    FetchError, GetPlan, HttpResponse, MediaType, RobotsPlan, Status, USER_AGENT, plan_content,
    plan_get, plan_get_robots, plan_redirect,
};
use mikes_crawler::urls::WebUrl;

fn url(text: &str) -> WebUrl {
    WebUrl::parse(text).unwrap()
}

fn header(value: &str) -> Option<Vec<u8>> {
    Some(value.as_bytes().to_vec())
}

fn plan(code: u16, content_type: Option<Vec<u8>>, location: Option<Vec<u8>>) -> Result<GetPlan, FetchError> {
    plan_get(&url("https://example.com/dir/start"), Status::new(code), &content_type, &location)
}

#[test]
fn the_crawler_has_a_name() {
    assert_eq!(USER_AGENT, "MikesCrawler");
}

#[test]
fn a_page_is_read() {
    for content_type in ["text/html", "text/html; charset=utf-8", "TEXT/HTML"] {
        let plan = plan(200, header(content_type), None).unwrap();
        assert_eq!(plan, GetPlan::ReadHtml);
        assert!(plan.needs_body());
        assert_eq!(plan.carry_out("body".to_string()), HttpResponse::Html("body".to_string()));
    }
}

#[test]
fn of_other_content_the_type_is_kept() {
    let plan = plan(299, header("x-application/something; v=1"), None).unwrap();
    assert!(!plan.needs_body());
    assert_eq!(
        plan.carry_out(String::new()),
        HttpResponse::OtherContent("x-application/something; v=1".to_string())
    );
}

#[test]
fn content_without_a_type_is_an_error() {
    let error = plan(200, None, None).unwrap_err();
    assert_eq!(error, FetchError::NoContentType);
    assert_eq!(error.message(), "No content type on OK response");
}

#[test]
fn a_header_that_is_not_visible_ascii_is_an_error() {
    for bytes in [vec![0xe9u8], vec![b'a', 0x7f], vec![b'a', b'\n']] {
        let error = plan(200, Some(bytes.clone()), None).unwrap_err();
        assert_eq!(error, FetchError::BadHeader);
        assert_eq!(error.message(), "failed to convert header to a str");
        assert_eq!(plan(301, None, Some(bytes)).unwrap_err(), FetchError::BadHeader);
    }
    assert_ne!(plan(200, header("text/html;\ta=b"), None), Err(FetchError::BadHeader));
}

#[test]
fn a_content_type_that_can_not_be_read_is_an_error() {
    let message = "garbage".parse::<mime::Mime>().unwrap_err().to_string();
    let error = plan(200, header("garbage"), None).unwrap_err();
    assert_eq!(error, FetchError::BadContentType(message.clone()));
    assert_eq!(error.message(), message);
}

#[test]
fn a_redirection_is_followed_from_the_url() {
    for (location, target) in [
        ("/next", "https://example.com/next"),
        ("next", "https://example.com/dir/next"),
        ("https://other.com/", "https://other.com/"),
    ] {
        let plan = plan(301, None, header(location)).unwrap();
        assert!(!plan.needs_body());
        assert_eq!(
            plan.carry_out(String::new()),
            HttpResponse::Redirect(Status::new(301), url(target))
        );
    }
}

#[test]
fn a_redirection_without_location_is_an_error() {
    let error = plan(399, header("text/html"), None).unwrap_err();
    assert_eq!(error, FetchError::NoLocation);
    assert_eq!(error.message(), "No Location header on redirect");
}

#[test]
fn a_redirection_that_leads_nowhere_is_an_error() {
    let error = plan(302, None, header("https://")).unwrap_err();
    assert!(matches!(error, FetchError::BadLocation(_)));
    assert_eq!(error.message(), "empty host");
}

#[test]
fn a_failure_is_read() {
    for code in [100, 199, 400, 404, 500, 999] {
        let plan = plan(code, header("text/html"), header("/next")).unwrap();
        assert_eq!(plan, GetPlan::ReadFailure(Status::new(code)));
        assert!(plan.needs_body());
        assert_eq!(
            plan.carry_out("why".to_string()),
            HttpResponse::ServerFailure(Status::new(code), "why".to_string())
        );
    }
}

#[test]
fn plans_follow_from_what_the_headers_hold() {
    let html = MediaType { essence: "text/html".to_string(), full: "text/html; a=b".to_string() };
    assert_eq!(plan_content(Ok(html)), Ok(GetPlan::ReadHtml));
    let other = MediaType { essence: "text/plain".to_string(), full: "text/plain; a=b".to_string() };
    assert_eq!(
        plan_content(Ok(other)),
        Ok(GetPlan::Respond(HttpResponse::OtherContent("text/plain; a=b".to_string())))
    );
    assert_eq!(
        plan_content(Err("bad".to_string())),
        Err(FetchError::BadContentType("bad".to_string()))
    );
    assert_eq!(
        plan_redirect(Status::new(307), Ok(url("https://example.com/"))),
        Ok(GetPlan::Respond(HttpResponse::Redirect(Status::new(307), url("https://example.com/"))))
    );
}

#[test]
fn a_robots_txt_is_read_where_there_is_one() {
    assert_eq!(plan_get_robots(Status::new(200)), Ok(RobotsPlan::ReadRobots));
    assert_eq!(plan_get_robots(Status::new(204)), Ok(RobotsPlan::ReadRobots));
    assert_eq!(plan_get_robots(Status::new(404)), Ok(RobotsPlan::NoRobots));
}

#[test]
fn any_other_answer_about_robots_txt_is_an_error() {
    let error = plan_get_robots(Status::new(500)).unwrap_err();
    assert_eq!(error, FetchError::BadRobotsStatus("500 Internal Server Error".to_string()));
    assert_eq!(error.message(), "Got status 500 Internal Server Error for robots.txt");
    assert!(plan_get_robots(Status::new(301)).is_err());
    assert!(plan_get_robots(Status::new(410)).is_err());
    assert!(plan_get_robots(Status::new(199)).is_err());
    assert!(plan_get_robots(Status::new(999)).is_err());
}
