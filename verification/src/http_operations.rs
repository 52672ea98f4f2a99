//! Web requests made during the search, and what is read from their answers.
//!
//! Sending a request is the caller's job: each function here receives a
//! `fetch` function that performs one `HttpRequest` and reports its
//! `FetchOutcome`. Everything around the request (which address, which
//! agent, how long to wait, how the answer is read) is decided here.

use vstd::prelude::*;
use crate::text::{concat, decimal, decimal_spec};
use crate::sorted_set::{views, strictly_sorted, same_elements, sort_dedup,
    lemma_same_elements_concat, lemma_concat_contains};
use crate::pattern::{regex_compiles, regex_match_texts, find_matches, compiles, occurs_in, all_occur_in,
    lemma_all_occur_concat, lemma_all_occur_same_elements};

verus! {

/// One GET request: the full address, the `User-Agent` header, the timeout
/// in seconds, and whether progress is to be reported while it runs.
pub struct HttpRequest {
    pub url: String,
    pub useragent: String,
    pub timeout_secs: u64,
    pub verbose: bool,
}

/// What kind of failure a request that could not be sent ran into, in the
/// terms of `reqwest::Error`'s `is_timeout`, `is_request`, `is_redirect` and
/// `is_decode`.
pub struct RequestError {
    pub is_timeout: bool,
    pub is_request: bool,
    pub is_redirect: bool,
    pub is_decode: bool,
}

/// How a request ended: with the body of the answer, with an answer whose
/// body could not be read, or without an answer.
pub enum FetchOutcome {
    Body(String),
    BodyUnreadable,
    Failed(RequestError),
}

/// The answer text an outcome yields: the body, or nothing.
pub open spec fn outcome_text(o: FetchOutcome) -> Seq<char> {
    match o {
        FetchOutcome::Body(t) => t@,
        _ => Seq::empty(),
    }
}

/// Whether an outcome shows a web server at the address: a body was read, or
/// sending failed on a redirect or while decoding (and not on a timeout or
/// while building the request, which are checked first).
pub open spec fn outcome_answered(o: FetchOutcome) -> bool {
    match o {
        FetchOutcome::Body(_) => true,
        FetchOutcome::BodyUnreadable => false,
        FetchOutcome::Failed(e) => !e.is_timeout && !e.is_request && (e.is_redirect || e.is_decode),
    }
}

/// What each outcome is read as: a read body is the answer text and shows a
/// server; an unreadable body shows none; a failed send shows none on a
/// timeout or a request error, and shows a server on a redirect or decode
/// error otherwise; a failure of no known kind shows none. Only a read body
/// gives any text.
pub proof fn lemma_outcome_reading(o: FetchOutcome)
    ensures
        o matches FetchOutcome::Body(t) ==> outcome_text(o) == t@ && outcome_answered(o),
        o is BodyUnreadable ==> !outcome_answered(o),
        o matches FetchOutcome::Failed(e) ==> (e.is_timeout || e.is_request ==> !outcome_answered(o)),
        o matches FetchOutcome::Failed(e) ==> (!e.is_timeout && !e.is_request && e.is_redirect ==> outcome_answered(o)),
        o matches FetchOutcome::Failed(e) ==> (!e.is_timeout && !e.is_request && e.is_decode ==> outcome_answered(o)),
        o matches FetchOutcome::Failed(e) ==> (!e.is_redirect && !e.is_decode ==> !outcome_answered(o)),
        !(o is Body) ==> outcome_text(o).len() == 0,
{
}

/// Reads an outcome as the pair (answer text, server answered).
pub fn fetch_result(outcome: FetchOutcome) -> (r: (String, bool))
    ensures
        r.0@ == outcome_text(outcome),
        r.1 == outcome_answered(outcome),
{
    match outcome {
        FetchOutcome::Body(text) => (text, true),
        FetchOutcome::BodyUnreadable => (String::new(), false),
        FetchOutcome::Failed(e) => {
            if e.is_timeout {
                (String::new(), false)
            } else if e.is_request {
                (String::new(), false)
            } else if e.is_redirect {
                (String::new(), true)
            } else if e.is_decode {
                (String::new(), true)
            } else {
                (String::new(), false)
            }
        },
    }
}

/// `q` is the request for this address, agent, timeout and verbosity.
pub open spec fn is_request(
    q: HttpRequest,
    url: Seq<char>,
    useragent: Seq<char>,
    timeout_secs: u64,
    verbose: bool,
) -> bool {
    &&& q.url@ == url
    &&& q.useragent@ == useragent
    &&& q.timeout_secs == timeout_secs
    &&& q.verbose == verbose
}

/// `fetch` may be called on any request.
pub open spec fn can_fetch<F: Fn(HttpRequest) -> FetchOutcome>(fetch: F) -> bool {
    forall|q: HttpRequest| call_requires(fetch, (q,))
}

/// `o` is an outcome that `fetch` gave for the request with these parts.
pub open spec fn fetched<F: Fn(HttpRequest) -> FetchOutcome>(
    fetch: F,
    url: Seq<char>,
    useragent: Seq<char>,
    timeout_secs: u64,
    verbose: bool,
    o: FetchOutcome,
) -> bool {
    exists|q: HttpRequest| #[trigger] call_ensures(fetch, (q,), o) && is_request(q, url, useragent, timeout_secs, verbose)
}

/// The plain-HTTP address of a host (or host and path).
pub open spec fn http_url(url: Seq<char>) -> Seq<char> {
    "http://"@ + url
}

/// The HTTPS address of a host (or host and path).
pub open spec fn https_url(url: Seq<char>) -> Seq<char> {
    "https://"@ + url
}

/// Sends one request through `fetch` and reads its outcome.
fn fetch_once<F: Fn(HttpRequest) -> FetchOutcome>(
    url: String,
    useragent: &String,
    timeout_secs: u64,
    verbose: bool,
    fetch: &F,
) -> (r: (String, bool, Ghost<FetchOutcome>))
    requires
        can_fetch(*fetch),
    ensures
        fetched(*fetch, url@, useragent@, timeout_secs, verbose, r.2@),
        r.0@ == outcome_text(r.2@),
        r.1 == outcome_answered(r.2@),
{
    let request = HttpRequest { url, useragent: useragent.clone(), timeout_secs, verbose };
    let ghost q = request;
    let outcome = fetch(request);
    let ghost o = outcome;
    assert(call_ensures(*fetch, (q,), o));
    let (text, answered) = fetch_result(outcome);
    (text, answered, Ghost(o))
}

/// Requests `http://` + `url` and returns the answer text and whether a web
/// server answered.
pub fn send_http_req<F: Fn(HttpRequest) -> FetchOutcome>(
    url: &String,
    timeout: u64,
    useragent: &String,
    verbose: bool,
    fetch: &F,
) -> (r: (String, bool))
    requires
        can_fetch(*fetch),
    ensures
        exists|o: FetchOutcome|
            #[trigger] fetched(*fetch, http_url(url@), useragent@, timeout, verbose, o)
                && r.0@ == outcome_text(o) && r.1 == outcome_answered(o),
{
    let address = concat("http://", url.as_str());
    let (text, answered, Ghost(o)) = fetch_once(address, useragent, timeout, verbose, fetch);
    assert(fetched(*fetch, http_url(url@), useragent@, timeout, verbose, o));
    (text, answered)
}

/// Requests `https://` + `url` and returns the answer text and whether a web
/// server answered.
pub fn send_https_req<F: Fn(HttpRequest) -> FetchOutcome>(
    url: &String,
    timeout: u64,
    useragent: &String,
    verbose: bool,
    fetch: &F,
) -> (r: (String, bool))
    requires
        can_fetch(*fetch),
    ensures
        exists|o: FetchOutcome|
            #[trigger] fetched(*fetch, https_url(url@), useragent@, timeout, verbose, o)
                && r.0@ == outcome_text(o) && r.1 == outcome_answered(o),
{
    let address = concat("https://", url.as_str());
    let (text, answered, Ghost(o)) = fetch_once(address, useragent, timeout, verbose, fetch);
    assert(fetched(*fetch, https_url(url@), useragent@, timeout, verbose, o));
    (text, answered)
}


/// Pattern prefix for names in links, with an optional scheme before them.
pub const LINKED_NAME_PATTERN: &'static str = r"(?:http[s]*\\:\\/\\/)*([[:alnum:]]+?)\.";

/// Pattern prefix for a single alphanumeric label before the domain.
pub const LABEL_PATTERN: &'static str = r"([[:alnum:]]+?)\.";

/// Pattern prefix for a hyphen-led label before the domain.
pub const HYPHEN_LABEL_PATTERN: &'static str = r"(-[[:alnum:]]+?)\.";

/// The three patterns that the content search applies for a domain: each
/// prefix followed by the domain text as given.
pub open spec fn content_patterns(url: Seq<char>) -> Seq<Seq<char>> {
    seq![LINKED_NAME_PATTERN@ + url, LABEL_PATTERN@ + url, HYPHEN_LABEL_PATTERN@ + url]
}

/// The patterns for a domain all compile.
pub open spec fn content_patterns_compile(url: Seq<char>) -> bool {
    &&& regex_compiles(content_patterns(url)[0])
    &&& regex_compiles(content_patterns(url)[1])
    &&& regex_compiles(content_patterns(url)[2])
}

/// Every match of the three content patterns in `body`: first all matches
/// of the first pattern, then of the second, then of the third.
pub open spec fn content_matches(url: Seq<char>, body: Seq<char>) -> Seq<Seq<char>> {
    regex_match_texts(content_patterns(url)[0], body)
        + regex_match_texts(content_patterns(url)[1], body)
        + regex_match_texts(content_patterns(url)[2], body)
}

/// The address under which a web server was found: HTTPS when it answered
/// there, else plain HTTP when it answered there, else nothing.
pub open spec fn webserver_url_spec(url: Seq<char>, is_http: bool, is_https: bool) -> Seq<char> {
    if is_https {
        https_url(url)
    } else if is_http {
        http_url(url)
    } else {
        Seq::empty()
    }
}

/// The server address prefers HTTPS: when HTTPS answered it is `https://`
/// and the host whatever plain HTTP did; when only plain HTTP answered it is
/// `http://` and the host; when neither did it is empty.
pub proof fn lemma_webserver_url_prefers_https(url: Seq<char>, is_http: bool, is_https: bool)
    ensures
        is_https ==> webserver_url_spec(url, is_http, is_https) == "https://"@ + url,
        !is_https && is_http ==> webserver_url_spec(url, is_http, is_https) == "http://"@ + url,
        !is_https && !is_http ==> webserver_url_spec(url, is_http, is_https).len() == 0,
{
}

/// What the web-service check reports for a host: the HTTPS address exactly
/// when the HTTPS request shows a server, else the plain-HTTP address exactly
/// when that request does, else nothing.
pub proof fn lemma_probe_report(url: Seq<char>, http: FetchOutcome, https: FetchOutcome, r: Option<String>)
    requires
        r is Some <==> outcome_answered(http) || outcome_answered(https),
        r matches Some(a) ==> a@ == webserver_url_spec(url, outcome_answered(http), outcome_answered(https)),
    ensures
        outcome_answered(https) ==> (r matches Some(a) && a@ == "https://"@ + url),
        !outcome_answered(https) && outcome_answered(http) ==> (r matches Some(a) && a@ == "http://"@ + url),
        !outcome_answered(https) && !outcome_answered(http) ==> r is None,
{
}

/// The address under which a web server answered, or the empty string.
pub fn webserver_url(url: &String, is_http: bool, is_https: bool) -> (r: String)
    ensures
        r@ == webserver_url_spec(url@, is_http, is_https),
        is_https ==> r@ == "https://"@ + url@,
        !is_https && is_http ==> r@ == "http://"@ + url@,
        !is_https && !is_http ==> r@.len() == 0,
{
    if is_https {
        concat("https://", url.as_str())
    } else if is_http {
        concat("http://", url.as_str())
    } else {
        String::new()
    }
}

/// What the content search reads from the plain-HTTP and HTTPS answers for a
/// domain: the names matched in the two bodies, sorted and without repeats,
/// and the address under which a server answered.
pub open spec fn content_search_result(
    url: Seq<char>,
    http: FetchOutcome,
    https: FetchOutcome,
    r: (Seq<Seq<char>>, Seq<char>),
) -> bool {
    &&& strictly_sorted(r.0)
    &&& same_elements(r.0, content_matches(url, outcome_text(http) + outcome_text(https)))
    &&& all_occur_in(r.0, outcome_text(http) + outcome_text(https))
    &&& r.1 == webserver_url_spec(url, outcome_answered(http), outcome_answered(https))
}

/// Matches of one pattern in a text; the pattern must compile.
fn matches_of(pattern: &String, text: &String) -> (r: Vec<String>)
    requires
        regex_compiles(pattern@),
    ensures
        views(r@) == regex_match_texts(pattern@, text@),
        all_occur_in(views(r@), text@),
{
    match find_matches(pattern, text.as_str()) {
        Some(v) => v,
        None => Vec::new(),
    }
}

/// Requests the domain over plain HTTP and then over HTTPS, and collects the
/// names that the three content patterns find in the two answers together,
/// sorted and without repeats, with the address under which a server
/// answered (HTTPS first).
pub fn send_http_https_parse_response<F: Fn(HttpRequest) -> FetchOutcome>(
    url: &String,
    useragent: &String,
    timeout: u64,
    verbose: bool,
    fetch: &F,
) -> (r: (Vec<String>, String))
    requires
        can_fetch(*fetch),
        content_patterns_compile(url@),
    ensures
        exists|http: FetchOutcome, https: FetchOutcome|
            #[trigger] fetched(*fetch, http_url(url@), useragent@, timeout, verbose, http)
                && #[trigger] fetched(*fetch, https_url(url@), useragent@, timeout, verbose, https)
                && content_search_result(url@, http, https, (views(r.0@), r.1@)),
{
    let http_address = concat("http://", url.as_str());
    let (response_http, is_http, Ghost(http)) =
        fetch_once(http_address, useragent, timeout, verbose, fetch);
    assert(fetched(*fetch, http_url(url@), useragent@, timeout, verbose, http));
    let https_address = concat("https://", url.as_str());
    let (response_https, is_https, Ghost(https)) =
        fetch_once(https_address, useragent, timeout, verbose, fetch);
    assert(fetched(*fetch, https_url(url@), useragent@, timeout, verbose, https));
    let address = webserver_url(url, is_http, is_https);
    let response = concat(response_http.as_str(), response_https.as_str());

    let pattern1 = concat(LINKED_NAME_PATTERN, url.as_str());
    let pattern2 = concat(LABEL_PATTERN, url.as_str());
    let pattern3 = concat(HYPHEN_LABEL_PATTERN, url.as_str());

    let mut names = matches_of(&pattern1, &response);
    let mut more = matches_of(&pattern2, &response);
    let ghost m1 = names@;
    let ghost m2 = more@;
    names.append(&mut more);
    let mut rest = matches_of(&pattern3, &response);
    let ghost m3 = rest@;
    names.append(&mut rest);
    assert(views(names@) =~= views(m1) + views(m2) + views(m3));
    proof {
        lemma_all_occur_concat(views(m1), views(m2), response@);
        lemma_all_occur_concat(views(m1) + views(m2), views(m3), response@);
    }
    let ghost unsorted = views(names@);
    let names = sort_dedup(names);
    proof {
        lemma_all_occur_same_elements(views(names@), unsorted, response@);
    }
    assert(content_search_result(url@, http, https, (views(names@), address@)));
    (names, address)
}


/// Whether the content patterns for a domain all compile.
pub fn content_patterns_valid(url: &String) -> (r: bool)
    ensures
        r == content_patterns_compile(url@),
{
    compiles(&concat(LINKED_NAME_PATTERN, url.as_str()))
        && compiles(&concat(LABEL_PATTERN, url.as_str()))
        && compiles(&concat(HYPHEN_LABEL_PATTERN, url.as_str()))
}

/// `send_http_https_parse_response` for any domain text: `None`, before any
/// request, when the domain makes one of the content patterns invalid.
pub fn try_send_http_https_parse_response<F: Fn(HttpRequest) -> FetchOutcome>(
    url: &String,
    useragent: &String,
    timeout: u64,
    verbose: bool,
    fetch: &F,
) -> (r: Option<(Vec<String>, String)>)
    requires
        can_fetch(*fetch),
    ensures
        r is None <==> !content_patterns_compile(url@),
        r matches Some(v) ==> exists|http: FetchOutcome, https: FetchOutcome|
            #[trigger] fetched(*fetch, http_url(url@), useragent@, timeout, verbose, http)
                && #[trigger] fetched(*fetch, https_url(url@), useragent@, timeout, verbose, https)
                && content_search_result(url@, http, https, (views(v.0@), v.1@)),
{
    if content_patterns_valid(url) {
        Some(send_http_https_parse_response(url, useragent, timeout, verbose, fetch))
    } else {
        None
    }
}

/// Probes a host for a web server, as the web-service check does for each
/// resolved name: plain HTTP, then HTTPS, each with a three-second timeout
/// and without progress output. Gives the address under which a server
/// answered (HTTPS first), or `None` when neither did.
pub fn probe_webservice<F: Fn(HttpRequest) -> FetchOutcome>(
    url: &String,
    useragent: &String,
    fetch: &F,
) -> (r: Option<String>)
    requires
        can_fetch(*fetch),
    ensures
        exists|http: FetchOutcome, https: FetchOutcome|
            #[trigger] fetched(*fetch, http_url(url@), useragent@, 3, false, http)
                && #[trigger] fetched(*fetch, https_url(url@), useragent@, 3, false, https)
                && (r is Some <==> outcome_answered(http) || outcome_answered(https))
                && (r matches Some(a) ==> a@ == webserver_url_spec(url@, outcome_answered(http), outcome_answered(https))),
{
    let http_address = concat("http://", url.as_str());
    let (_body_http, is_http, Ghost(http)) = fetch_once(http_address, useragent, 3, false, fetch);
    assert(fetched(*fetch, http_url(url@), useragent@, 3, false, http));
    let https_address = concat("https://", url.as_str());
    let (_body_https, is_https, Ghost(https)) = fetch_once(https_address, useragent, 3, false, fetch);
    assert(fetched(*fetch, https_url(url@), useragent@, 3, false, https));
    if is_https || is_http {
        Some(webserver_url(url, is_http, is_https))
    } else {
        None
    }
}

/// Pattern prefix for names made of letters, digits, dots and hyphens.
pub const DOTTED_NAME_PATTERN: &'static str = r"([[:alnum:].-]+?)\.";

/// Pattern prefix for a possibly empty alphanumeric label.
pub const OPTIONAL_LABEL_PATTERN: &'static str = r"([[:alnum:]]*?)\.";

/// The timeout, in seconds, of requests to the search sources.
pub const SOURCE_TIMEOUT_SECS: u64 = 45;

/// What a search source yields: the matches of `pattern` in the answer text,
/// sorted and without repeats.
pub open spec fn source_result(pattern: Seq<char>, o: FetchOutcome, r: Seq<Seq<char>>) -> bool {
    &&& strictly_sorted(r)
    &&& same_elements(r, regex_match_texts(pattern, outcome_text(o)))
    &&& all_occur_in(r, outcome_text(o))
}

/// `o` is what `fetch` gave for the HTTPS request of a search-source query.
pub open spec fn source_fetched<F: Fn(HttpRequest) -> FetchOutcome>(
    fetch: F,
    query: Seq<char>,
    useragent: Seq<char>,
    o: FetchOutcome,
) -> bool {
    fetched(fetch, https_url(query), useragent, SOURCE_TIMEOUT_SECS, true, o)
}

/// Queries one search source over HTTPS and collects the names matching the
/// pattern in its answer, sorted and without repeats.
fn search_source<F: Fn(HttpRequest) -> FetchOutcome>(
    query: String,
    pattern: &String,
    useragent: &String,
    fetch: &F,
) -> (r: (Vec<String>, Ghost<FetchOutcome>))
    requires
        can_fetch(*fetch),
        regex_compiles(pattern@),
    ensures
        source_fetched(*fetch, query@, useragent@, r.1@),
        source_result(pattern@, r.1@, views(r.0@)),
{
    let (response, _answered, Ghost(o)) =
        fetch_once(concat("https://", query.as_str()), useragent, SOURCE_TIMEOUT_SECS, true, fetch);
    let found = matches_of(pattern, &response);
    let ghost unsorted = views(found@);
    let names = sort_dedup(found);
    proof {
        lemma_all_occur_same_elements(views(names@), unsorted, response@);
    }
    (names, Ghost(o))
}

/// The crt.sh query for a domain.
pub open spec fn crtsh_query(hostname: Seq<char>) -> Seq<char> {
    "crt.sh/?q="@ + hostname + "&output=json"@
}

/// The dns.bufferover.run query for a domain.
pub open spec fn bufferoverrun_query(hostname: Seq<char>) -> Seq<char> {
    "dns.bufferover.run/dns?q="@ + hostname
}

/// The dnsrepo.noc.org query for a domain.
pub open spec fn dnsrepo_query(hostname: Seq<char>) -> Seq<char> {
    "dnsrepo.noc.org/?domain="@ + hostname
}

/// Names in certificate-transparency records at crt.sh.
pub fn search_crtsh<F: Fn(HttpRequest) -> FetchOutcome>(
    hostname: &String,
    useragent: &String,
    fetch: &F,
) -> (r: Vec<String>)
    requires
        can_fetch(*fetch),
        regex_compiles(DOTTED_NAME_PATTERN@ + hostname@),
    ensures
        exists|o: FetchOutcome|
            #[trigger] source_fetched(*fetch, crtsh_query(hostname@), useragent@, o)
                && source_result(DOTTED_NAME_PATTERN@ + hostname@, o, views(r@)),
{
    let mut query = concat("crt.sh/?q=", hostname.as_str());
    query = concat(query.as_str(), "&output=json");
    let pattern = concat(DOTTED_NAME_PATTERN, hostname.as_str());
    let (names, Ghost(o)) = search_source(query, &pattern, useragent, fetch);
    assert(source_fetched(*fetch, crtsh_query(hostname@), useragent@, o));
    names
}

/// Names in the DNS records of dns.bufferover.run.
pub fn search_bufferoverrun<F: Fn(HttpRequest) -> FetchOutcome>(
    hostname: &String,
    useragent: &String,
    fetch: &F,
) -> (r: Vec<String>)
    requires
        can_fetch(*fetch),
        regex_compiles(DOTTED_NAME_PATTERN@ + hostname@),
    ensures
        exists|o: FetchOutcome|
            #[trigger] source_fetched(*fetch, bufferoverrun_query(hostname@), useragent@, o)
                && source_result(DOTTED_NAME_PATTERN@ + hostname@, o, views(r@)),
{
    let query = concat("dns.bufferover.run/dns?q=", hostname.as_str());
    let pattern = concat(DOTTED_NAME_PATTERN, hostname.as_str());
    let (names, Ghost(o)) = search_source(query, &pattern, useragent, fetch);
    assert(source_fetched(*fetch, bufferoverrun_query(hostname@), useragent@, o));
    names
}

/// Names in the DNS records of dnsrepo.noc.org.
pub fn search_dnsrepo<F: Fn(HttpRequest) -> FetchOutcome>(
    hostname: &String,
    useragent: &String,
    fetch: &F,
) -> (r: Vec<String>)
    requires
        can_fetch(*fetch),
        regex_compiles(OPTIONAL_LABEL_PATTERN@ + hostname@),
    ensures
        exists|o: FetchOutcome|
            #[trigger] source_fetched(*fetch, dnsrepo_query(hostname@), useragent@, o)
                && source_result(OPTIONAL_LABEL_PATTERN@ + hostname@, o, views(r@)),
{
    let query = concat("dnsrepo.noc.org/?domain=", hostname.as_str());
    let pattern = concat(OPTIONAL_LABEL_PATTERN, hostname.as_str());
    let (names, Ghost(o)) = search_source(query, &pattern, useragent, fetch);
    assert(source_fetched(*fetch, dnsrepo_query(hostname@), useragent@, o));
    names
}

/// The patterns of the internet search for a domain all compile.
pub open spec fn search_patterns_compile(hostname: Seq<char>) -> bool {
    &&& regex_compiles(DOTTED_NAME_PATTERN@ + hostname)
    &&& regex_compiles(OPTIONAL_LABEL_PATTERN@ + hostname)
}

/// What the internet search yields from the answers of dns.bufferover.run,
/// crt.sh and dnsrepo.noc.org: every name matched in any of them, sorted and
/// without repeats.
pub open spec fn internet_search_result(
    hostname: Seq<char>,
    bufferoverrun: FetchOutcome,
    crtsh: FetchOutcome,
    dnsrepo: FetchOutcome,
    r: Seq<Seq<char>>,
) -> bool {
    &&& strictly_sorted(r)
    &&& same_elements(
        r,
        regex_match_texts(DOTTED_NAME_PATTERN@ + hostname, outcome_text(bufferoverrun))
            + regex_match_texts(DOTTED_NAME_PATTERN@ + hostname, outcome_text(crtsh))
            + regex_match_texts(OPTIONAL_LABEL_PATTERN@ + hostname, outcome_text(dnsrepo)),
    )
    &&& forall|i: int| 0 <= i < r.len() ==> occurs_in(#[trigger] r[i], outcome_text(bufferoverrun))
        || occurs_in(r[i], outcome_text(crtsh)) || occurs_in(r[i], outcome_text(dnsrepo))
}

/// Searches dns.bufferover.run, crt.sh and dnsrepo.noc.org, in that order,
/// and merges the names found into one sorted list without repeats.
pub fn search_internet<F: Fn(HttpRequest) -> FetchOutcome>(
    hostname: &String,
    useragent: &String,
    fetch: &F,
) -> (r: Vec<String>)
    requires
        can_fetch(*fetch),
        search_patterns_compile(hostname@),
    ensures
        exists|b: FetchOutcome, c: FetchOutcome, d: FetchOutcome|
            #[trigger] source_fetched(*fetch, bufferoverrun_query(hostname@), useragent@, b)
                && #[trigger] source_fetched(*fetch, crtsh_query(hostname@), useragent@, c)
                && #[trigger] source_fetched(*fetch, dnsrepo_query(hostname@), useragent@, d)
                && internet_search_result(hostname@, b, c, d, views(r@)),
{
    let mut names: Vec<String> = Vec::new();
    let mut from_bufferoverrun = search_bufferoverrun(hostname, useragent, fetch);
    let ghost l1 = from_bufferoverrun@;
    let ghost b = choose|b: FetchOutcome|
        #[trigger] source_fetched(*fetch, bufferoverrun_query(hostname@), useragent@, b)
            && source_result(DOTTED_NAME_PATTERN@ + hostname@, b, views(l1));
    names.append(&mut from_bufferoverrun);
    let mut from_crtsh = search_crtsh(hostname, useragent, fetch);
    let ghost l2 = from_crtsh@;
    let ghost c = choose|c: FetchOutcome|
        #[trigger] source_fetched(*fetch, crtsh_query(hostname@), useragent@, c)
            && source_result(DOTTED_NAME_PATTERN@ + hostname@, c, views(l2));
    names.append(&mut from_crtsh);
    let mut from_dnsrepo = search_dnsrepo(hostname, useragent, fetch);
    let ghost l3 = from_dnsrepo@;
    let ghost d = choose|d: FetchOutcome|
        #[trigger] source_fetched(*fetch, dnsrepo_query(hostname@), useragent@, d)
            && source_result(OPTIONAL_LABEL_PATTERN@ + hostname@, d, views(l3));
    names.append(&mut from_dnsrepo);
    proof {
        assert(views(names@) =~= views(l1) + views(l2) + views(l3));
        lemma_same_elements_concat(
            views(l1),
            regex_match_texts(DOTTED_NAME_PATTERN@ + hostname@, outcome_text(b)),
            views(l2),
            regex_match_texts(DOTTED_NAME_PATTERN@ + hostname@, outcome_text(c)),
        );
        lemma_same_elements_concat(
            views(l1) + views(l2),
            regex_match_texts(DOTTED_NAME_PATTERN@ + hostname@, outcome_text(b))
                + regex_match_texts(DOTTED_NAME_PATTERN@ + hostname@, outcome_text(c)),
            views(l3),
            regex_match_texts(OPTIONAL_LABEL_PATTERN@ + hostname@, outcome_text(d)),
        );
    }
    let ghost unsorted = views(names@);
    let names = sort_dedup(names);
    proof {
        let r = views(names@);
        assert forall|i: int| 0 <= i < r.len() implies occurs_in(#[trigger] r[i], outcome_text(b))
            || occurs_in(r[i], outcome_text(c)) || occurs_in(r[i], outcome_text(d)) by {
            assert(r.contains(r[i]));
            assert(unsorted.contains(r[i]));
            lemma_concat_contains(views(l1) + views(l2), views(l3), r[i]);
            lemma_concat_contains(views(l1), views(l2), r[i]);
            if views(l1).contains(r[i]) {
                let k = choose|k: int| 0 <= k < views(l1).len() && views(l1)[k] == r[i];
                assert(occurs_in(views(l1)[k], outcome_text(b)));
            } else if views(l2).contains(r[i]) {
                let k = choose|k: int| 0 <= k < views(l2).len() && views(l2)[k] == r[i];
                assert(occurs_in(views(l2)[k], outcome_text(c)));
            } else {
                let k = choose|k: int| 0 <= k < views(l3).len() && views(l3)[k] == r[i];
                assert(occurs_in(views(l3)[k], outcome_text(d)));
            }
        }
    }
    assert(internet_search_result(hostname@, b, c, d, views(names@)));
    names
}

/// Whether the internet-search patterns for a domain all compile.
pub fn search_patterns_valid(hostname: &String) -> (r: bool)
    ensures
        r == search_patterns_compile(hostname@),
{
    compiles(&concat(DOTTED_NAME_PATTERN, hostname.as_str()))
        && compiles(&concat(OPTIONAL_LABEL_PATTERN, hostname.as_str()))
}

/// `search_internet` for any domain text: `None`, before any request, when
/// the domain makes one of the search patterns invalid.
pub fn try_search_internet<F: Fn(HttpRequest) -> FetchOutcome>(
    hostname: &String,
    useragent: &String,
    fetch: &F,
) -> (r: Option<Vec<String>>)
    requires
        can_fetch(*fetch),
    ensures
        r is None <==> !search_patterns_compile(hostname@),
        r matches Some(v) ==> exists|b: FetchOutcome, c: FetchOutcome, d: FetchOutcome|
            #[trigger] source_fetched(*fetch, bufferoverrun_query(hostname@), useragent@, b)
                && #[trigger] source_fetched(*fetch, crtsh_query(hostname@), useragent@, c)
                && #[trigger] source_fetched(*fetch, dnsrepo_query(hostname@), useragent@, d)
                && internet_search_result(hostname@, b, c, d, views(v@)),
{
    if search_patterns_valid(hostname) {
        Some(search_internet(hostname, useragent, fetch))
    } else {
        None
    }
}


/// Every match of `pattern` in the answers of a run of result pages, page
/// by page.
pub open spec fn pages_matches(pattern: Seq<char>, pages: Seq<FetchOutcome>) -> Seq<Seq<char>>
    decreases pages.len(),
{
    if pages.len() == 0 {
        Seq::empty()
    } else {
        pages_matches(pattern, pages.drop_last()) + regex_match_texts(pattern, outcome_text(pages.last()))
    }
}

/// The Bing query for result page `page` of a domain: the first page starts
/// at result 1, page `k` after it at result `10 * k`.
pub open spec fn bing_query(hostname: Seq<char>, page: nat) -> Seq<char> {
    "www.bing.com/search?q="@ + hostname + "&first="@ + (if page > 0 {
        decimal_spec(page * 10)
    } else {
        "1"@
    })
}

/// The Yandex query for result page `page` of a domain.
pub open spec fn yandex_query(hostname: Seq<char>, page: nat) -> Seq<char> {
    "yandex.com.tr/search/?lr=1&text="@ + hostname + "&p="@ + decimal_spec(page)
}

/// Names on the first `depth` Bing result pages for a domain, sorted and
/// without repeats.
#[allow(dead_code)]
fn search_bing<F: Fn(HttpRequest) -> FetchOutcome>(
    hostname: &String,
    useragent: &String,
    depth: u32,
    fetch: &F,
) -> (r: Vec<String>)
    requires
        can_fetch(*fetch),
        regex_compiles(OPTIONAL_LABEL_PATTERN@ + hostname@),
        depth as int * 10 <= u32::MAX + 10,
    ensures
        exists|pages: Seq<FetchOutcome>|
            pages.len() == depth
                && (forall|k: int| 0 <= k < depth ==> source_fetched(*fetch, bing_query(hostname@, k as nat), useragent@, #[trigger] pages[k]))
                && strictly_sorted(views(r@))
                && same_elements(views(r@), #[trigger] pages_matches(OPTIONAL_LABEL_PATTERN@ + hostname@, pages)),
{
    let pattern = concat(OPTIONAL_LABEL_PATTERN, hostname.as_str());
    let mut names: Vec<String> = Vec::new();
    let ghost mut pages: Seq<FetchOutcome> = Seq::empty();
    let mut x: u32 = 0;
    while x < depth
        invariant
            can_fetch(*fetch),
            regex_compiles(pattern@),
            pattern@ == OPTIONAL_LABEL_PATTERN@ + hostname@,
            depth as int * 10 <= u32::MAX + 10,
            x <= depth,
            pages.len() == x,
            forall|k: int| 0 <= k < x ==> source_fetched(*fetch, bing_query(hostname@, k as nat), useragent@, #[trigger] pages[k]),
            views(names@) == pages_matches(pattern@, pages),
        decreases depth - x,
    {
        let mut query = concat("www.bing.com/search?q=", hostname.as_str());
        query = concat(query.as_str(), "&first=");
        if x > 0 {
            let page_start = decimal(x as u64 * 10);
            query = concat(query.as_str(), page_start.as_str());
        } else {
            query = concat(query.as_str(), "1");
        }
        assert(query@ == bing_query(hostname@, x as nat));
        let (response, _answered, Ghost(o)) =
            fetch_once(concat("https://", query.as_str()), useragent, SOURCE_TIMEOUT_SECS, true, fetch);
        let mut found = matches_of(&pattern, &response);
        let ghost before = names@;
        let ghost found_now = found@;
        names.append(&mut found);
        proof {
            let next = pages.push(o);
            assert(next.drop_last() =~= pages);
            assert(views(names@) =~= views(before) + views(found_now));
            assert forall|k: int| 0 <= k < x + 1 implies source_fetched(*fetch, bing_query(hostname@, k as nat), useragent@, #[trigger] next[k]) by {
                if k < x {
                    assert(next[k] == pages[k]);
                }
            }
            pages = next;
        }
        x = x + 1;
    }
    let names = sort_dedup(names);
    names
}

/// Names on the first `depth` Yandex result pages for a domain, sorted and
/// without repeats.
#[allow(dead_code)]
fn search_yandex<F: Fn(HttpRequest) -> FetchOutcome>(
    hostname: &String,
    useragent: &String,
    depth: u32,
    fetch: &F,
) -> (r: Vec<String>)
    requires
        can_fetch(*fetch),
        regex_compiles(OPTIONAL_LABEL_PATTERN@ + hostname@),
    ensures
        exists|pages: Seq<FetchOutcome>|
            pages.len() == depth
                && (forall|k: int| 0 <= k < depth ==> source_fetched(*fetch, yandex_query(hostname@, k as nat), useragent@, #[trigger] pages[k]))
                && strictly_sorted(views(r@))
                && same_elements(views(r@), #[trigger] pages_matches(OPTIONAL_LABEL_PATTERN@ + hostname@, pages)),
{
    let pattern = concat(OPTIONAL_LABEL_PATTERN, hostname.as_str());
    let mut names: Vec<String> = Vec::new();
    let ghost mut pages: Seq<FetchOutcome> = Seq::empty();
    let mut x: u32 = 0;
    while x < depth
        invariant
            can_fetch(*fetch),
            regex_compiles(pattern@),
            pattern@ == OPTIONAL_LABEL_PATTERN@ + hostname@,
            x <= depth,
            pages.len() == x,
            forall|k: int| 0 <= k < x ==> source_fetched(*fetch, yandex_query(hostname@, k as nat), useragent@, #[trigger] pages[k]),
            views(names@) == pages_matches(pattern@, pages),
        decreases depth - x,
    {
        let mut query = concat("yandex.com.tr/search/?lr=1&text=", hostname.as_str());
        query = concat(query.as_str(), "&p=");
        let page = decimal(x as u64);
        query = concat(query.as_str(), page.as_str());
        assert(query@ == yandex_query(hostname@, x as nat));
        let (response, _answered, Ghost(o)) =
            fetch_once(concat("https://", query.as_str()), useragent, SOURCE_TIMEOUT_SECS, true, fetch);
        let mut found = matches_of(&pattern, &response);
        let ghost before = names@;
        let ghost found_now = found@;
        names.append(&mut found);
        proof {
            let next = pages.push(o);
            assert(next.drop_last() =~= pages);
            assert(views(names@) =~= views(before) + views(found_now));
            assert forall|k: int| 0 <= k < x + 1 implies source_fetched(*fetch, yandex_query(hostname@, k as nat), useragent@, #[trigger] next[k]) by {
                if k < x {
                    assert(next[k] == pages[k]);
                }
            }
            pages = next;
        }
        x = x + 1;
    }
    let names = sort_dedup(names);
    names
}

} // verus!
