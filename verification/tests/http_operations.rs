use std::cell::RefCell;
use subruster::http_operations::{
    fetch_result, probe_webservice, search_internet, send_http_https_parse_response, send_http_req,
    send_https_req, try_search_internet, try_send_http_https_parse_response, FetchOutcome, HttpRequest,
    RequestError,
};

fn failure(is_timeout: bool, is_request: bool, is_redirect: bool, is_decode: bool) -> FetchOutcome {
    FetchOutcome::Failed(RequestError { is_timeout, is_request, is_redirect, is_decode })
}

#[test]
fn fetch_result_reads_each_outcome() {
    assert_eq!(fetch_result(FetchOutcome::Body("hello".to_string())), ("hello".to_string(), true));
    assert_eq!(fetch_result(FetchOutcome::BodyUnreadable), (String::new(), false));
    assert_eq!(fetch_result(failure(true, false, true, false)), (String::new(), false));
    assert_eq!(fetch_result(failure(false, true, false, true)), (String::new(), false));
    assert_eq!(fetch_result(failure(false, false, true, false)), (String::new(), true));
    assert_eq!(fetch_result(failure(false, false, false, true)), (String::new(), true));
    assert_eq!(fetch_result(failure(false, false, false, false)), (String::new(), false));
}

#[test]
fn send_http_req_builds_the_request() {
    let seen: RefCell<Vec<(String, String, u64, bool)>> = RefCell::new(Vec::new());
    let fetch = |q: HttpRequest| {
        seen.borrow_mut().push((q.url.clone(), q.useragent.clone(), q.timeout_secs, q.verbose));
        FetchOutcome::Body("body".to_string())
    };
    let r = send_http_req(&"example.com".to_string(), 7, &"agent".to_string(), true, &fetch);
    assert_eq!(r, ("body".to_string(), true));
    let r = send_https_req(&"example.com".to_string(), 9, &"agent".to_string(), false, &fetch);
    assert_eq!(r, ("body".to_string(), true));
    assert_eq!(
        seen.into_inner(),
        vec![
            ("http://example.com".to_string(), "agent".to_string(), 7, true),
            ("https://example.com".to_string(), "agent".to_string(), 9, false),
        ]
    );
}

#[test]
fn content_search_collects_names_from_both_answers() {
    let fetch = |q: HttpRequest| {
        if q.url.starts_with("https://") {
            FetchOutcome::Body("links: www.example.com, a-b.example.com and mail.example.com".to_string())
        } else {
            FetchOutcome::Body("see www.example.com".to_string())
        }
    };
    let (names, address) =
        send_http_https_parse_response(&"example.com".to_string(), &"ua".to_string(), 3, false, &fetch);
    assert_eq!(address, "https://example.com");
    assert_eq!(
        names,
        vec!["-b.example.com".to_string(), "b.example.com".to_string(), "mail.example.com".to_string(), "www.example.com".to_string()]
    );
    let body = "see www.example.comlinks: www.example.com, a-b.example.com and mail.example.com";
    for name in names.iter() {
        assert!(body.contains(name.as_str()));
    }
}

#[test]
fn content_search_prefers_https_address() {
    let only_http = |q: HttpRequest| {
        if q.url.starts_with("https://") {
            failure(true, false, false, false)
        } else {
            FetchOutcome::Body(String::new())
        }
    };
    let (names, address) =
        send_http_https_parse_response(&"example.org".to_string(), &"ua".to_string(), 3, false, &only_http);
    assert_eq!(address, "http://example.org");
    assert!(names.is_empty());
    let none = |_q: HttpRequest| failure(false, true, false, false);
    let (_, address) = send_http_https_parse_response(&"example.org".to_string(), &"ua".to_string(), 3, false, &none);
    assert_eq!(address, "");
}

#[test]
fn content_search_refuses_an_invalid_pattern() {
    let fetch = |_q: HttpRequest| FetchOutcome::Body("x".to_string());
    assert!(try_send_http_https_parse_response(&"bad(".to_string(), &"ua".to_string(), 3, false, &fetch).is_none());
    assert!(try_send_http_https_parse_response(&"example.com".to_string(), &"ua".to_string(), 3, false, &fetch).is_some());
}

#[test]
fn probe_webservice_reports_the_answering_address() {
    let seen: RefCell<Vec<(String, u64, bool)>> = RefCell::new(Vec::new());
    let both = |q: HttpRequest| {
        seen.borrow_mut().push((q.url.clone(), q.timeout_secs, q.verbose));
        FetchOutcome::Body(String::new())
    };
    assert_eq!(probe_webservice(&"a.example.com".to_string(), &"ua".to_string(), &both), Some("https://a.example.com".to_string()));
    assert_eq!(
        seen.into_inner(),
        vec![("http://a.example.com".to_string(), 3, false), ("https://a.example.com".to_string(), 3, false)]
    );
    let redirect_http = |q: HttpRequest| {
        if q.url.starts_with("http://") { failure(false, false, true, false) } else { FetchOutcome::BodyUnreadable }
    };
    assert_eq!(probe_webservice(&"b.example.com".to_string(), &"ua".to_string(), &redirect_http), Some("http://b.example.com".to_string()));
    let nothing = |_q: HttpRequest| failure(true, false, false, false);
    assert_eq!(probe_webservice(&"c.example.com".to_string(), &"ua".to_string(), &nothing), None);
}

#[test]
fn internet_search_queries_three_sources_and_merges() {
    let seen: RefCell<Vec<(String, u64, bool)>> = RefCell::new(Vec::new());
    let fetch = |q: HttpRequest| {
        seen.borrow_mut().push((q.url.clone(), q.timeout_secs, q.verbose));
        if q.url.contains("crt.sh") {
            FetchOutcome::Body("[{\"name\":\"dev.api.example.com\"},{\"name\":\"www.example.com\"}]".to_string())
        } else if q.url.contains("bufferover") {
            FetchOutcome::Body("1.2.3.4,mail.example.com www.example.com".to_string())
        } else {
            FetchOutcome::Body("<td>.example.com</td><td>shop.example.com</td>".to_string())
        }
    };
    let names = search_internet(&"example.com".to_string(), &"ua".to_string(), &fetch);
    assert_eq!(
        names,
        vec![
            ".example.com".to_string(),
            "dev.api.example.com".to_string(),
            "mail.example.com".to_string(),
            "shop.example.com".to_string(),
            "www.example.com".to_string(),
        ]
    );
    assert_eq!(
        seen.into_inner(),
        vec![
            ("https://dns.bufferover.run/dns?q=example.com".to_string(), 45, true),
            ("https://crt.sh/?q=example.com&output=json".to_string(), 45, true),
            ("https://dnsrepo.noc.org/?domain=example.com".to_string(), 45, true),
        ]
    );
}

#[test]
fn internet_search_refuses_an_invalid_pattern() {
    let fetch = |_q: HttpRequest| FetchOutcome::Body(String::new());
    assert!(try_search_internet(&"a[".to_string(), &"ua".to_string(), &fetch).is_none());
    assert_eq!(try_search_internet(&"example.com".to_string(), &"ua".to_string(), &fetch), Some(Vec::new()));
}
