use subruster::address::IpAddress;
use subruster::report::{build_report_json, report_directory, report_file_path, report_lines, resolved_line, result_head_lines, result_lines};
use subruster::session_manager::Session;

fn sample() -> Session {
    Session::load(
        vec![],
        vec!["www.example.com".to_string()],
        vec![IpAddress::V4([93, 184, 216, 34])],
        vec!["mail.example.com".to_string()],
        vec!["https://www.example.com".to_string()],
        "ua".to_string(),
    )
}

#[test]
fn builds_paired_json() {
    let session = sample();
    let report = build_report_json("example.com", &session);
    assert_eq!(report.target, "example.com");
    assert_eq!(report.resolved[0].subdomain, "www.example.com");
    assert_eq!(report.resolved[0].ip, "93.184.216.34");
    assert_eq!(report.counts.resolved, 1);
    assert_eq!(report.counts.unresolved, 1);
    assert_eq!(report.counts.http_services, 1);
}

#[test]
fn json_pairs_only_as_far_as_both_lists_go() {
    let session = Session::load(
        vec![],
        vec!["a.example.com".to_string(), "b.example.com".to_string()],
        vec![IpAddress::V4([1, 1, 1, 1])],
        vec![],
        vec![],
        "ua".to_string(),
    );
    let report = build_report_json("example.com", &session);
    assert_eq!(report.resolved.len(), 1);
    assert_eq!(report.counts.resolved, 1);
    assert_eq!(report.counts.http_services, 0);
}

#[test]
fn result_lines_list_every_section() {
    let lines = result_lines(&sample());
    assert_eq!(
        lines,
        vec![
            "".to_string(),
            "\x1b[1m\x1b[40m-----------RESULT-----------\x1b[0m".to_string(),
            "\x1b[1m\x1b[91mUNRESOLVED DOMAINS - 1\x1b[0m".to_string(),
            "mail.example.com".to_string(),
            "\x1b[1m\x1b[92mRESOLVED DOMAINS - 1\x1b[0m".to_string(),
            "www.example.com - 93.184.216.34".to_string(),
            "\x1b[1m\x1b[92mSUBDOMAINS WITH HTTP/S SERVICE - 1\x1b[0m".to_string(),
            "https://www.example.com".to_string(),
            "".to_string(),
        ]
    );
}

#[test]
fn result_lines_note_missing_web_services() {
    let lines = result_lines(&Session::init("ua".to_string()));
    assert!(lines.contains(&"No HTTP/S subdomain found, enable web service search by adding --loghttp".to_string()));
    assert!(lines.contains(&"\x1b[1m\x1b[92mSUBDOMAINS WITH HTTP/S SERVICE - 0\x1b[0m".to_string()));
}

#[test]
fn report_file_lines_and_path() {
    assert_eq!(
        report_lines(&sample()),
        vec![
            "---UNRESOLVED DOMAINS--- (1)".to_string(),
            "mail.example.com".to_string(),
            "---RESOLVED DOMAINS--- (1)".to_string(),
            "www.example.com".to_string(),
            "---SUBDOMAINS WITH HTTP/S SERVICE--- (1)".to_string(),
            "https://www.example.com".to_string(),
        ]
    );
    let dir = report_directory(&"reports".to_string(), &"example.com".to_string());
    assert_eq!(dir, "reports/example.com/");
    assert_eq!(report_file_path(&dir, &"20240101-120000".to_string()), "reports/example.com/result-20240101-120000.txt");
}

#[test]
fn result_head_lines_and_resolved_line() {
    assert_eq!(
        result_head_lines(&sample()),
        vec![
            "".to_string(),
            "\x1b[1m\x1b[40m-----------RESULT-----------\x1b[0m".to_string(),
            "\x1b[1m\x1b[91mUNRESOLVED DOMAINS - 1\x1b[0m".to_string(),
            "mail.example.com".to_string(),
            "\x1b[1m\x1b[92mRESOLVED DOMAINS - 1\x1b[0m".to_string(),
        ]
    );
    assert_eq!(resolved_line(&"a.example.com".to_string(), &IpAddress::V4([10, 1, 2, 3])), "a.example.com - 10.1.2.3");
}
