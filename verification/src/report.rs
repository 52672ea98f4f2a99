//! The results of a run as text: the summary printed at the end, the report
//! file, and the machine-readable report.

use vstd::prelude::*;
use crate::address::{IpAddress, ip_text};
use crate::text::{concat, decimal, decimal_spec};
use crate::sorted_set::views;
use crate::session_manager::Session;

verus! {

/// Start of the summary's heading line.
pub const RESULT_HEADING: &'static str = "\x1b[1m\x1b[40m-----------RESULT-----------\x1b[0m";

/// Start of the line counting the names that did not resolve.
pub const UNRESOLVED_HEADING: &'static str = "\x1b[1m\x1b[91mUNRESOLVED DOMAINS - ";

/// Start of the line counting the names that resolved.
pub const RESOLVED_HEADING: &'static str = "\x1b[1m\x1b[92mRESOLVED DOMAINS - ";

/// Start of the line counting the web services found.
pub const HTTP_HEADING: &'static str = "\x1b[1m\x1b[92mSUBDOMAINS WITH HTTP/S SERVICE - ";

/// End of each counting line of the summary.
pub const HEADING_END: &'static str = "\x1b[0m";

/// The line shown when no web service was found.
pub const NO_HTTP_NOTICE: &'static str = "No HTTP/S subdomain found, enable web service search by adding --loghttp";

/// A heading: its start, the decimal count, its end.
pub open spec fn heading(start: Seq<char>, count: nat, end: Seq<char>) -> Seq<char> {
    start + decimal_spec(count) + end
}

/// Each resolved name with its address, as `name - address`.
pub open spec fn resolved_lines(names: Seq<Seq<char>>, ips: Seq<IpAddress>) -> Seq<Seq<char>> {
    Seq::new(names.len(), |i: int| names[i] + " - "@ + ip_text(ips[i]))
}

/// The opening lines of the summary: a blank line, the heading, the
/// unresolved names under their count, and the count of resolved names.
pub open spec fn result_head_spec(unresolved: Seq<Seq<char>>, resolved_count: nat) -> Seq<Seq<char>> {
    seq![Seq::<char>::empty(), RESULT_HEADING@]
        + seq![heading(UNRESOLVED_HEADING@, unresolved.len(), HEADING_END@)] + unresolved
        + seq![heading(RESOLVED_HEADING@, resolved_count, HEADING_END@)]
}

/// The lines of the summary printed at the end of a run: a blank line, the
/// heading, the unresolved names, the resolved names with their addresses,
/// the web services (or a notice that there are none), and a blank line.
pub open spec fn result_lines_spec(
    unresolved: Seq<Seq<char>>,
    resolved: Seq<Seq<char>>,
    ips: Seq<IpAddress>,
    http: Seq<Seq<char>>,
) -> Seq<Seq<char>> {
    result_head_spec(unresolved, resolved.len()) + resolved_lines(resolved, ips)
        + seq![heading(HTTP_HEADING@, http.len(), HEADING_END@)]
        + (if http.len() == 0 { seq![NO_HTTP_NOTICE@] } else { Seq::empty() })
        + http
        + seq![Seq::<char>::empty()]
}

/// Builds a heading line.
fn heading_line(start: &str, count: usize, end: &str) -> (r: String)
    ensures
        r@ == heading(start@, count as nat, end@),
{
    let with_count = concat(start, decimal(count as u64).as_str());
    concat(with_count.as_str(), end)
}

/// Appends copies of the strings of `items` to `lines`.
fn push_all(lines: &mut Vec<String>, items: &Vec<String>)
    ensures
        views(final(lines)@) == views(old(lines)@) + views(items@),
{
    let mut i: usize = 0;
    while i < items.len()
        invariant
            i <= items.len(),
            views(lines@) == views(old(lines)@) + views(items@).take(i as int),
        decreases items.len() - i,
    {
        let ghost before = views(lines@);
        lines.push(items[i].clone());
        assert(views(lines@) =~= before.push(items@[i as int]@));
        assert(views(items@).take(i + 1) =~= views(items@).take(i as int).push(items@[i as int]@));
        assert(views(lines@) =~= views(old(lines)@) + views(items@).take(i + 1));
        i = i + 1;
    }
    assert(views(items@).take(items.len() as int) =~= views(items@));
}

/// The opening lines of the summary, up to the count of resolved names.
pub fn result_head_lines(session: &Session) -> (r: Vec<String>)
    ensures
        views(r@) == result_head_spec(session@.unresolved_subdomains, session@.resolved_subdomains.len()),
{
    let unresolved = session.get_unresolved_subdomains();
    let resolved_count = session.get_resolved_subdomains().len();
    let ghost s = session@;
    let mut lines: Vec<String> = Vec::new();
    lines.push(String::new());
    lines.push(crate::text::string_of(RESULT_HEADING));
    lines.push(heading_line(UNRESOLVED_HEADING, unresolved.len(), HEADING_END));
    assert(views(lines@) =~= seq![Seq::<char>::empty(), RESULT_HEADING@]
        + seq![heading(UNRESOLVED_HEADING@, s.unresolved_subdomains.len(), HEADING_END@)]);
    let ghost p1 = views(lines@);
    push_all(&mut lines, &unresolved);
    let ghost p2 = views(lines@);
    assert(p2 == p1 + s.unresolved_subdomains);
    lines.push(heading_line(RESOLVED_HEADING, resolved_count, HEADING_END));
    assert(views(lines@) =~= p2 + seq![heading(RESOLVED_HEADING@, s.resolved_subdomains.len(), HEADING_END@)]);
    lines
}

/// A resolved name with its address: `name - address`.
pub fn resolved_line(name: &String, ip: &IpAddress) -> (r: String)
    ensures
        r@ == name@ + " - "@ + ip_text(*ip),
{
    let named = concat(name.as_str(), " - ");
    concat(named.as_str(), ip.to_text().as_str())
}

/// The lines of the summary that is printed at the end of a run. Every
/// resolved name needs its address.
pub fn result_lines(session: &Session) -> (r: Vec<String>)
    requires
        session@.resolved_ips.len() >= session@.resolved_subdomains.len(),
    ensures
        views(r@) == result_lines_spec(
            session@.unresolved_subdomains,
            session@.resolved_subdomains,
            session@.resolved_ips,
            session@.subdomains_http_https,
        ),
{
    let resolved = session.get_resolved_subdomains();
    let ips = session.get_resolved_ips();
    let http = session.get_subdomains_http_https();
    let ghost s = session@;

    let mut lines = result_head_lines(session);
    let ghost before_resolved = views(lines@);
    let mut i: usize = 0;
    while i < resolved.len()
        invariant
            i <= resolved.len(),
            resolved.len() <= ips.len(),
            views(resolved@) == s.resolved_subdomains,
            ips@ == s.resolved_ips,
            views(lines@) == before_resolved + resolved_lines(s.resolved_subdomains, s.resolved_ips).take(i as int),
        decreases resolved.len() - i,
    {
        let line = resolved_line(&resolved[i], &ips[i]);
        let ghost before = views(lines@);
        lines.push(line);
        assert(views(lines@) =~= before.push(line@));
        assert(resolved_lines(s.resolved_subdomains, s.resolved_ips).take(i + 1)
            =~= resolved_lines(s.resolved_subdomains, s.resolved_ips).take(i as int).push(line@));
        i = i + 1;
    }
    assert(resolved_lines(s.resolved_subdomains, s.resolved_ips).take(resolved.len() as int)
        =~= resolved_lines(s.resolved_subdomains, s.resolved_ips));
    let ghost p3 = views(lines@);
    let h3 = heading_line(HTTP_HEADING, http.len(), HEADING_END);
    lines.push(h3);
    let ghost before_notice = views(lines@);
    assert(before_notice =~= p3 + seq![heading(HTTP_HEADING@, s.subdomains_http_https.len(), HEADING_END@)]);
    if http.len() == 0 {
        lines.push(crate::text::string_of(NO_HTTP_NOTICE));
    }
    assert(views(lines@) =~= before_notice + (if s.subdomains_http_https.len() == 0 { seq![NO_HTTP_NOTICE@] } else { Seq::empty() }));
    let ghost p4 = views(lines@);
    push_all(&mut lines, &http);
    let ghost before_end = views(lines@);
    assert(before_end == p4 + s.subdomains_http_https);
    lines.push(String::new());
    assert(views(lines@) =~= before_end + seq![Seq::<char>::empty()]);
    assert(views(lines@) =~= result_lines_spec(
        s.unresolved_subdomains,
        s.resolved_subdomains,
        s.resolved_ips,
        s.subdomains_http_https,
    ));
    lines
}


/// The folder of a domain's reports inside the report folder.
pub open spec fn report_directory_spec(folder: Seq<char>, hostname: Seq<char>) -> Seq<char> {
    folder + "/"@ + hostname + "/"@
}

/// The folder of a domain's reports: `folder/hostname/`.
pub fn report_directory(folder: &String, hostname: &String) -> (r: String)
    ensures
        r@ == report_directory_spec(folder@, hostname@),
{
    let mut r = concat(folder.as_str(), "/");
    r = concat(r.as_str(), hostname.as_str());
    concat(r.as_str(), "/")
}

/// The path of a report file written at `datetime` in `directory`.
pub open spec fn report_file_path_spec(directory: Seq<char>, datetime: Seq<char>) -> Seq<char> {
    directory + "result-"@ + datetime + ".txt"@
}

/// The path of a report file: `directory` + `result-` + `datetime` + `.txt`.
pub fn report_file_path(directory: &String, datetime: &String) -> (r: String)
    ensures
        r@ == report_file_path_spec(directory@, datetime@),
{
    let mut r = concat(directory.as_str(), "result-");
    r = concat(r.as_str(), datetime.as_str());
    concat(r.as_str(), ".txt")
}

/// The lines of a report file: each list under a heading that counts it.
pub open spec fn report_lines_spec(
    unresolved: Seq<Seq<char>>,
    resolved: Seq<Seq<char>>,
    http: Seq<Seq<char>>,
) -> Seq<Seq<char>> {
    seq![heading("---UNRESOLVED DOMAINS--- ("@, unresolved.len(), ")"@)] + unresolved
        + seq![heading("---RESOLVED DOMAINS--- ("@, resolved.len(), ")"@)] + resolved
        + seq![heading("---SUBDOMAINS WITH HTTP/S SERVICE--- ("@, http.len(), ")"@)] + http
}

/// The lines written to a report file.
pub fn report_lines(session: &Session) -> (r: Vec<String>)
    ensures
        views(r@) == report_lines_spec(
            session@.unresolved_subdomains,
            session@.resolved_subdomains,
            session@.subdomains_http_https,
        ),
{
    let unresolved = session.get_unresolved_subdomains();
    let resolved = session.get_resolved_subdomains();
    let http = session.get_subdomains_http_https();
    let ghost s = session@;
    let mut lines: Vec<String> = Vec::new();
    lines.push(heading_line("---UNRESOLVED DOMAINS--- (", unresolved.len(), ")"));
    let ghost p1 = views(lines@);
    push_all(&mut lines, &unresolved);
    let ghost p2 = views(lines@);
    lines.push(heading_line("---RESOLVED DOMAINS--- (", resolved.len(), ")"));
    let ghost p3 = views(lines@);
    assert(p3 =~= p2 + seq![heading("---RESOLVED DOMAINS--- ("@, s.resolved_subdomains.len(), ")"@)]);
    push_all(&mut lines, &resolved);
    let ghost p4 = views(lines@);
    lines.push(heading_line("---SUBDOMAINS WITH HTTP/S SERVICE--- (", http.len(), ")"));
    let ghost p5 = views(lines@);
    assert(p5 =~= p4 + seq![heading("---SUBDOMAINS WITH HTTP/S SERVICE--- ("@, s.subdomains_http_https.len(), ")"@)]);
    push_all(&mut lines, &http);
    assert(p1 =~= seq![heading("---UNRESOLVED DOMAINS--- ("@, s.unresolved_subdomains.len(), ")"@)]);
    assert(views(lines@) =~= report_lines_spec(s.unresolved_subdomains, s.resolved_subdomains, s.subdomains_http_https));
    lines
}

/// One resolved name and the text of its address.
pub struct ResolvedEntry {
    pub subdomain: String,
    pub ip: String,
}

/// How many names resolved, did not resolve, and serve the web.
pub struct Counts {
    pub resolved: usize,
    pub unresolved: usize,
    pub http_services: usize,
}

/// The machine-readable report of a run.
pub struct ReportJson {
    pub target: String,
    pub resolved: Vec<ResolvedEntry>,
    pub unresolved: Vec<String>,
    pub http_services: Vec<String>,
    pub counts: Counts,
}

/// The report pairs the resolved names with their addresses position by
/// position, as far as both lists go; the counts are the lengths of the
/// three lists it holds.
pub open spec fn report_json_matches(target: Seq<char>, s: crate::session_manager::SessionView, r: ReportJson) -> bool {
    let n = if s.resolved_subdomains.len() <= s.resolved_ips.len() {
        s.resolved_subdomains.len()
    } else {
        s.resolved_ips.len()
    };
    &&& r.target@ == target
    &&& r.resolved@.len() == n
    &&& forall|i: int| 0 <= i < n ==> (#[trigger] r.resolved@[i]).subdomain@ == s.resolved_subdomains[i]
        && r.resolved@[i].ip@ == ip_text(s.resolved_ips[i])
    &&& views(r.unresolved@) == s.unresolved_subdomains
    &&& views(r.http_services@) == s.subdomains_http_https
    &&& r.counts.resolved == r.resolved@.len()
    &&& r.counts.unresolved == r.unresolved@.len()
    &&& r.counts.http_services == r.http_services@.len()
}

/// Builds the machine-readable report of a run on `target`.
pub fn build_report_json(target: &str, session: &Session) -> (r: ReportJson)
    ensures
        report_json_matches(target@, session@, r),
{
    let subdomains = session.get_resolved_subdomains();
    let ips = session.get_resolved_ips();
    let n = if subdomains.len() <= ips.len() { subdomains.len() } else { ips.len() };
    let mut resolved: Vec<ResolvedEntry> = Vec::new();
    let mut i: usize = 0;
    while i < n
        invariant
            i <= n,
            n <= subdomains.len(),
            n <= ips.len(),
            views(subdomains@) == session@.resolved_subdomains,
            ips@ == session@.resolved_ips,
            resolved@.len() == i,
            forall|k: int| 0 <= k < i ==> (#[trigger] resolved@[k]).subdomain@ == session@.resolved_subdomains[k]
                && resolved@[k].ip@ == ip_text(session@.resolved_ips[k]),
        decreases n - i,
    {
        let entry = ResolvedEntry { subdomain: subdomains[i].clone(), ip: ips[i].to_text() };
        resolved.push(entry);
        i = i + 1;
    }
    let unresolved = session.get_unresolved_subdomains();
    let http_services = session.get_subdomains_http_https();
    let counts = Counts {
        resolved: resolved.len(),
        unresolved: unresolved.len(),
        http_services: http_services.len(),
    };
    ReportJson { target: crate::text::string_of(target), resolved, unresolved, http_services, counts }
}


/// The summary lists, under a heading counting them, the unresolved names;
/// then under a heading counting them the resolved names, the `i`-th shown
/// with the text of the `i`-th address; then the count of web services.
pub proof fn lemma_summary_lines(
    unresolved: Seq<Seq<char>>,
    resolved: Seq<Seq<char>>,
    ips: Seq<IpAddress>,
    http: Seq<Seq<char>>,
)
    ensures
        ({
            let lines = result_lines_spec(unresolved, resolved, ips, http);
            let u = unresolved.len() as int;
            let n = resolved.len() as int;
            &&& lines[2] == UNRESOLVED_HEADING@ + decimal_spec(unresolved.len()) + HEADING_END@
            &&& forall|k: int| 0 <= k < u ==> lines[3 + k] == #[trigger] unresolved[k]
            &&& lines[3 + u] == RESOLVED_HEADING@ + decimal_spec(resolved.len()) + HEADING_END@
            &&& forall|i: int| 0 <= i < n ==> lines[4 + u + i] == #[trigger] resolved[i] + " - "@ + ip_text(ips[i])
            &&& lines[4 + u + n] == HTTP_HEADING@ + decimal_spec(http.len()) + HEADING_END@
            &&& http.len() == 0 ==> lines[5 + u + n] == NO_HTTP_NOTICE@ && lines.len() == 7 + u + n
            &&& http.len() > 0 ==> lines.len() == 6 + u + n + http.len()
                && forall|k: int| 0 <= k < http.len() ==> lines[5 + u + n + k] == #[trigger] http[k]
            &&& lines[lines.len() - 1].len() == 0
        }),
{
    let lines = result_lines_spec(unresolved, resolved, ips, http);
    let head = result_head_spec(unresolved, resolved.len());
    let u = unresolved.len() as int;
    let n = resolved.len() as int;
    let rl = resolved_lines(resolved, ips);
    let first = head + rl;
    assert(head.len() == 4 + u);
    assert(head[2] == UNRESOLVED_HEADING@ + decimal_spec(unresolved.len()) + HEADING_END@);
    assert(head[3 + u] == RESOLVED_HEADING@ + decimal_spec(resolved.len()) + HEADING_END@);
    assert forall|k: int| 0 <= k < u implies head[3 + k] == #[trigger] unresolved[k] by {}
    let rest = seq![heading(HTTP_HEADING@, http.len(), HEADING_END@)]
        + (if http.len() == 0 { seq![NO_HTTP_NOTICE@] } else { Seq::empty() })
        + http
        + seq![Seq::<char>::empty()];
    assert(lines =~= first + rest);
    assert(first[2] == head[2]);
    assert(first[3 + u] == head[3 + u]);
    assert forall|k: int| 0 <= k < u implies lines[3 + k] == #[trigger] unresolved[k] by {
        assert(lines[3 + k] == first[3 + k]);
        assert(first[3 + k] == head[3 + k]);
    }
    assert forall|i: int| 0 <= i < n implies lines[4 + u + i] == #[trigger] resolved[i] + " - "@ + ip_text(ips[i]) by {
        assert(lines[4 + u + i] == first[4 + u + i]);
        assert(first[4 + u + i] == rl[i]);
    }
    assert(lines[4 + u + n] == rest[0]);
    assert(first.len() == 4 + u + n);
    if http.len() == 0 {
        assert(lines[5 + u + n] == rest[1]);
    } else {
        assert forall|k: int| 0 <= k < http.len() implies lines[5 + u + n + k] == #[trigger] http[k] by {
            assert(lines[5 + u + n + k] == rest[1 + k]);
        }
    }
    assert(lines[lines.len() - 1] == rest[rest.len() - 1]);
}

/// The entries of the JSON report are the resolved names zipped with the
/// texts of their addresses: entry `i` holds the `i`-th name and the text of
/// the `i`-th address, as far as both lists go.
pub proof fn lemma_report_json_is_zip(target: Seq<char>, s: crate::session_manager::SessionView, r: ReportJson)
    requires
        report_json_matches(target, s, r),
    ensures
        ({
            let n = if s.resolved_subdomains.len() <= s.resolved_ips.len() {
                s.resolved_subdomains.len()
            } else {
                s.resolved_ips.len()
            };
            r.resolved@.map_values(|e: ResolvedEntry| (e.subdomain@, e.ip@))
                == Seq::new(n, |i: int| (s.resolved_subdomains[i], ip_text(s.resolved_ips[i])))
        }),
{
    let n = if s.resolved_subdomains.len() <= s.resolved_ips.len() {
        s.resolved_subdomains.len()
    } else {
        s.resolved_ips.len()
    };
    assert(r.resolved@.map_values(|e: ResolvedEntry| (e.subdomain@, e.ip@))
        =~= Seq::new(n, |i: int| (s.resolved_subdomains[i], ip_text(s.resolved_ips[i]))));
}

/// In a report file each heading counts the names listed under it, up to
/// the next heading: first the unresolved names, then the resolved names,
/// then the web services.
pub proof fn lemma_report_headings_count_their_lists(
    unresolved: Seq<Seq<char>>,
    resolved: Seq<Seq<char>>,
    http: Seq<Seq<char>>,
)
    ensures
        ({
            let lines = report_lines_spec(unresolved, resolved, http);
            let u = unresolved.len() as int;
            let n = resolved.len() as int;
            &&& lines.len() == 3 + u + n + http.len()
            &&& lines[0] == "---UNRESOLVED DOMAINS--- ("@ + decimal_spec(unresolved.len()) + ")"@
            &&& forall|k: int| 0 <= k < u ==> lines[1 + k] == #[trigger] unresolved[k]
            &&& lines[1 + u] == "---RESOLVED DOMAINS--- ("@ + decimal_spec(resolved.len()) + ")"@
            &&& forall|k: int| 0 <= k < n ==> lines[2 + u + k] == #[trigger] resolved[k]
            &&& lines[2 + u + n] == "---SUBDOMAINS WITH HTTP/S SERVICE--- ("@ + decimal_spec(http.len()) + ")"@
            &&& forall|k: int| 0 <= k < http.len() ==> lines[3 + u + n + k] == #[trigger] http[k]
        }),
{
    let lines = report_lines_spec(unresolved, resolved, http);
    let u = unresolved.len() as int;
    let n = resolved.len() as int;
    let a = seq![heading("---UNRESOLVED DOMAINS--- ("@, unresolved.len(), ")"@)] + unresolved;
    let b = a + seq![heading("---RESOLVED DOMAINS--- ("@, resolved.len(), ")"@)] + resolved;
    let c = b + seq![heading("---SUBDOMAINS WITH HTTP/S SERVICE--- ("@, http.len(), ")"@)];
    assert(lines =~= c + http);
    assert forall|k: int| 0 <= k < u implies lines[1 + k] == #[trigger] unresolved[k] by {
        assert(lines[1 + k] == c[1 + k]);
        assert(c[1 + k] == b[1 + k]);
        assert(b[1 + k] == a[1 + k]);
    }
    assert(lines[1 + u] == c[1 + u]);
    assert(c[1 + u] == b[1 + u]);
    assert forall|k: int| 0 <= k < n implies lines[2 + u + k] == #[trigger] resolved[k] by {
        assert(lines[2 + u + k] == c[2 + u + k]);
        assert(c[2 + u + k] == b[2 + u + k]);
    }
    assert(lines[2 + u + n] == c[2 + u + n]);
    assert(lines[0] == c[0]);
    assert(c[0] == b[0]);
    assert(b[0] == a[0]);
}

} // verus!
