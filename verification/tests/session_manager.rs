use subruster::address::IpAddress;
use subruster::session_manager::{bruteforce_names, contains_name, resolving_candidates, target_given, ContentCrawl, Session};

fn strings(items: &[&str]) -> Vec<String> {
    items.iter().map(|s| s.to_string()).collect()
}

#[test]
fn init_starts_empty() {
    let s = Session::init("ua".to_string());
    assert!(s.get_subdomains_found().is_empty());
    assert!(s.get_resolved_subdomains().is_empty());
    assert!(s.get_resolved_ips().is_empty());
    assert!(s.get_unresolved_subdomains().is_empty());
    assert!(s.get_subdomains_http_https().is_empty());
    assert_eq!(s.get_useragent(), "ua");
}

#[test]
fn setters_and_adders_change_one_list() {
    let mut s = Session::init("ua".to_string());
    s.add_subdomains_found("a.example.com".to_string());
    s.add_resolved_subdomains("b.example.com".to_string());
    s.add_resolved_ips(IpAddress::V4([10, 0, 0, 1]));
    s.add_unresolved_subdomains("c.example.com".to_string());
    s.add_subdomains_http_https("https://b.example.com".to_string());
    s.set_useragent("other".to_string());
    assert_eq!(s.get_subdomains_found(), strings(&["a.example.com"]));
    assert_eq!(s.get_resolved_subdomains(), strings(&["b.example.com"]));
    assert_eq!(s.get_resolved_ips()[0].to_text(), "10.0.0.1");
    assert_eq!(s.get_unresolved_subdomains(), strings(&["c.example.com"]));
    assert_eq!(s.get_subdomains_http_https(), strings(&["https://b.example.com"]));
    assert_eq!(s.get_useragent(), "other");
    s.set_subdomains_found(strings(&["x"]));
    s.set_resolved_subdomains(Vec::new());
    s.set_resolved_ips(Vec::new());
    s.set_unresolved_subdomains(strings(&["y"]));
    s.set_subdomains_http_https(Vec::new());
    assert_eq!(s.get_subdomains_found(), strings(&["x"]));
    assert!(s.get_resolved_subdomains().is_empty());
    assert!(s.get_resolved_ips().is_empty());
    assert_eq!(s.get_unresolved_subdomains(), strings(&["y"]));
    assert!(s.get_subdomains_http_https().is_empty());
}

#[test]
fn begin_records_the_domain() {
    let s = Session::begin("example.com".to_string(), "ua".to_string());
    assert_eq!(s.get_subdomains_found(), strings(&["example.com"]));
}

#[test]
fn absorb_adds_only_new_names_in_order() {
    let mut s = Session::begin("example.com".to_string(), "ua".to_string());
    let added = s.absorb(&strings(&["b.example.com", "example.com", "a.example.com", "b.example.com"]));
    assert_eq!(added, strings(&["b.example.com", "a.example.com"]));
    assert_eq!(s.get_subdomains_found(), strings(&["example.com", "b.example.com", "a.example.com"]));
    let again = s.absorb(&strings(&["b.example.com", "a.example.com"]));
    assert!(again.is_empty());
}

#[test]
fn content_round_merges_sorts_and_reports_new_names() {
    let mut s = Session::load(strings(&["www.example.com", "example.com"]), vec![], vec![], vec![], vec![], "ua".to_string());
    let new_names = s.apply_content_round(vec![
        strings(&["mail.example.com", "www.example.com"]),
        strings(&["api.example.com", "mail.example.com"]),
    ]);
    assert_eq!(
        s.get_subdomains_found(),
        strings(&["api.example.com", "example.com", "mail.example.com", "www.example.com"])
    );
    assert_eq!(new_names, strings(&["api.example.com", "mail.example.com"]));
}

#[test]
fn crawl_follows_new_names_until_done() {
    let mut s = Session::load(strings(&["a.example.com"]), vec![], vec![], vec![], vec![], "ua".to_string());
    let mut crawl = ContentCrawl::new(strings(&["a.example.com"]));
    let mut visited = Vec::new();
    while let Some(target) = crawl.next_target() {
        let found = if target == "a.example.com" {
            strings(&["b.example.com", "a.example.com"])
        } else if target == "b.example.com" {
            strings(&["c.example.com"])
        } else {
            strings(&["a.example.com"])
        };
        visited.push(target);
        crawl.record(&mut s, &found);
    }
    assert_eq!(visited, strings(&["a.example.com", "b.example.com", "c.example.com"]));
    assert_eq!(s.get_subdomains_found(), strings(&["a.example.com", "b.example.com", "c.example.com"]));
}

#[test]
fn resolution_keeps_names_with_their_addresses() {
    let mut s = Session::init("ua".to_string());
    s.record_resolution(vec![
        ("a.example.com".to_string(), Some(IpAddress::V4([1, 2, 3, 4]))),
        ("b.example.com".to_string(), None),
        ("c.example.com".to_string(), Some(IpAddress::V4([5, 6, 7, 8]))),
    ]);
    assert_eq!(s.get_resolved_subdomains(), strings(&["a.example.com", "c.example.com"]));
    let ips: Vec<String> = s.get_resolved_ips().iter().map(|ip| ip.to_text()).collect();
    assert_eq!(ips, strings(&["1.2.3.4", "5.6.7.8"]));
    assert_eq!(s.get_unresolved_subdomains(), strings(&["b.example.com"]));
}

#[test]
fn bruteforce_names_join_label_and_domain() {
    assert_eq!(
        bruteforce_names(&strings(&["www", "mail", ""]), &"example.com".to_string()),
        strings(&["www.example.com", "mail.example.com", ".example.com"])
    );
}

#[test]
fn contains_name_finds_exact_names() {
    let list = strings(&["a", "bc"]);
    assert!(contains_name(&list, &"bc".to_string()));
    assert!(!contains_name(&list, &"b".to_string()));
}

#[test]
fn finished_crawl_searched_every_added_name() {
    let mut s = Session::load(strings(&["example.com", "a.example.com"]), vec![], vec![], vec![], vec![], "ua".to_string());
    let mut crawl = ContentCrawl::new(strings(&["a.example.com"]));
    let mut searched = Vec::new();
    let mut added_all = Vec::new();
    while let Some(target) = crawl.next_target() {
        let found = if target == "a.example.com" {
            strings(&["x.example.com", "y.example.com", "example.com"])
        } else if target == "x.example.com" {
            strings(&["z.example.com", "y.example.com"])
        } else {
            Vec::new()
        };
        searched.push(target);
        added_all.extend(crawl.record(&mut s, &found));
    }
    assert_eq!(added_all, strings(&["x.example.com", "y.example.com", "z.example.com"]));
    for name in added_all.iter() {
        assert!(searched.contains(name));
    }
    // Steps never exceed the names found.
    assert!(searched.len() <= s.get_subdomains_found().len());
    assert_eq!(
        s.get_subdomains_found(),
        strings(&["example.com", "a.example.com", "x.example.com", "y.example.com", "z.example.com"])
    );
}

#[test]
fn empty_domain_is_refused() {
    assert!(!target_given(&String::new()));
    assert!(target_given(&"example.com".to_string()));
}

#[test]
fn bruteforce_keeps_only_resolving_candidates() {
    let kept = resolving_candidates(vec![
        ("www.example.com".to_string(), true),
        ("nope.example.com".to_string(), false),
        ("mail.example.com".to_string(), true),
    ]);
    assert_eq!(kept, strings(&["www.example.com", "mail.example.com"]));
}
