//! The state of one enumeration run, and the steps that grow it.

use vstd::prelude::*;
use crate::address::IpAddress;
use crate::text::concat;
use crate::sorted_set::{views, strictly_sorted, same_elements, sort_dedup};

verus! {

/// What a run has gathered: the names found, the names that resolved with
/// their addresses (at the same positions), the names that did not resolve,
/// the addresses of the web services found, and the `User-Agent` in use.
#[derive(Clone)]
pub struct Session {
    subdomains_found: Vec<String>,
    resolved_subdomains: Vec<String>,
    resolved_ips: Vec<IpAddress>,
    unresolved_subdomains: Vec<String>,
    subdomains_http_https: Vec<String>,
    useragent: String,
}

/// The content of a session.
pub struct SessionView {
    pub subdomains_found: Seq<Seq<char>>,
    pub resolved_subdomains: Seq<Seq<char>>,
    pub resolved_ips: Seq<IpAddress>,
    pub unresolved_subdomains: Seq<Seq<char>>,
    pub subdomains_http_https: Seq<Seq<char>>,
    pub useragent: Seq<char>,
}

impl View for Session {
    type V = SessionView;

    closed spec fn view(&self) -> SessionView {
        SessionView {
            subdomains_found: views(self.subdomains_found@),
            resolved_subdomains: views(self.resolved_subdomains@),
            resolved_ips: self.resolved_ips@,
            unresolved_subdomains: views(self.unresolved_subdomains@),
            subdomains_http_https: views(self.subdomains_http_https@),
            useragent: self.useragent@,
        }
    }
}

impl SessionView {
    pub open spec fn with_found(self, v: Seq<Seq<char>>) -> SessionView {
        SessionView { subdomains_found: v, ..self }
    }

    pub open spec fn with_resolved(self, v: Seq<Seq<char>>) -> SessionView {
        SessionView { resolved_subdomains: v, ..self }
    }

    pub open spec fn with_ips(self, v: Seq<IpAddress>) -> SessionView {
        SessionView { resolved_ips: v, ..self }
    }

    pub open spec fn with_unresolved(self, v: Seq<Seq<char>>) -> SessionView {
        SessionView { unresolved_subdomains: v, ..self }
    }

    pub open spec fn with_http_https(self, v: Seq<Seq<char>>) -> SessionView {
        SessionView { subdomains_http_https: v, ..self }
    }

    pub open spec fn with_useragent(self, v: Seq<char>) -> SessionView {
        SessionView { useragent: v, ..self }
    }
}

/// `found` after each of `names`, in order, was added unless already there.
pub open spec fn absorb_spec(found: Seq<Seq<char>>, names: Seq<Seq<char>>) -> Seq<Seq<char>>
    decreases names.len(),
{
    if names.len() == 0 {
        found
    } else {
        let before = absorb_spec(found, names.drop_last());
        if before.contains(names.last()) {
            before
        } else {
            before.push(names.last())
        }
    }
}

/// Whether `name` is in `list`.
pub fn contains_name(list: &Vec<String>, name: &String) -> (r: bool)
    ensures
        r == views(list@).contains(name@),
{
    let mut i: usize = 0;
    while i < list.len()
        invariant
            i <= list.len(),
            forall|k: int| 0 <= k < i ==> views(list@)[k] != name@,
        decreases list.len() - i,
    {
        if list[i] == *name {
            assert(views(list@)[i as int] == name@);
            return true;
        }
        i = i + 1;
    }
    false
}

impl Session {
    pub fn add_subdomains_found(&mut self, subdomain: String)
        ensures
            final(self)@ == old(self)@.with_found(old(self)@.subdomains_found.push(subdomain@)),
    {
        self.subdomains_found.push(subdomain);
        assert(views(self.subdomains_found@) =~= views(old(self).subdomains_found@).push(subdomain@));
    }

    pub fn get_subdomains_found(&self) -> (r: Vec<String>)
        ensures
            views(r@) == self@.subdomains_found,
    {
        let r = self.subdomains_found.clone();
        assert(r@ =~= self.subdomains_found@);
        r
    }

    pub fn set_subdomains_found(&mut self, subdomains_found: Vec<String>)
        ensures
            final(self)@ == old(self)@.with_found(views(subdomains_found@)),
    {
        self.subdomains_found = subdomains_found;
    }

    pub fn get_resolved_subdomains(&self) -> (r: Vec<String>)
        ensures
            views(r@) == self@.resolved_subdomains,
    {
        let r = self.resolved_subdomains.clone();
        assert(r@ =~= self.resolved_subdomains@);
        r
    }

    pub fn add_resolved_subdomains(&mut self, subdomain: String)
        ensures
            final(self)@ == old(self)@.with_resolved(old(self)@.resolved_subdomains.push(subdomain@)),
    {
        self.resolved_subdomains.push(subdomain);
        assert(views(self.resolved_subdomains@) =~= views(old(self).resolved_subdomains@).push(subdomain@));
    }

    pub fn set_resolved_subdomains(&mut self, resolved_subdomains: Vec<String>)
        ensures
            final(self)@ == old(self)@.with_resolved(views(resolved_subdomains@)),
    {
        self.resolved_subdomains = resolved_subdomains;
    }

    pub fn get_resolved_ips(&self) -> (r: Vec<IpAddress>)
        ensures
            r@ == self@.resolved_ips,
    {
        let r = self.resolved_ips.clone();
        assert(r@ =~= self.resolved_ips@);
        r
    }

    pub fn add_resolved_ips(&mut self, ip: IpAddress)
        ensures
            final(self)@ == old(self)@.with_ips(old(self)@.resolved_ips.push(ip)),
    {
        self.resolved_ips.push(ip);
    }

    pub fn set_resolved_ips(&mut self, resolved_ips: Vec<IpAddress>)
        ensures
            final(self)@ == old(self)@.with_ips(resolved_ips@),
    {
        self.resolved_ips = resolved_ips;
    }

    pub fn get_unresolved_subdomains(&self) -> (r: Vec<String>)
        ensures
            views(r@) == self@.unresolved_subdomains,
    {
        let r = self.unresolved_subdomains.clone();
        assert(r@ =~= self.unresolved_subdomains@);
        r
    }

    pub fn add_unresolved_subdomains(&mut self, subdomain: String)
        ensures
            final(self)@ == old(self)@.with_unresolved(old(self)@.unresolved_subdomains.push(subdomain@)),
    {
        self.unresolved_subdomains.push(subdomain);
        assert(views(self.unresolved_subdomains@) =~= views(old(self).unresolved_subdomains@).push(subdomain@));
    }

    pub fn set_unresolved_subdomains(&mut self, unresolved_subdomains: Vec<String>)
        ensures
            final(self)@ == old(self)@.with_unresolved(views(unresolved_subdomains@)),
    {
        self.unresolved_subdomains = unresolved_subdomains;
    }

    pub fn get_subdomains_http_https(&self) -> (r: Vec<String>)
        ensures
            views(r@) == self@.subdomains_http_https,
    {
        let r = self.subdomains_http_https.clone();
        assert(r@ =~= self.subdomains_http_https@);
        r
    }

    pub fn add_subdomains_http_https(&mut self, subdomain: String)
        ensures
            final(self)@ == old(self)@.with_http_https(old(self)@.subdomains_http_https.push(subdomain@)),
    {
        self.subdomains_http_https.push(subdomain);
        assert(views(self.subdomains_http_https@) =~= views(old(self).subdomains_http_https@).push(subdomain@));
    }

    pub fn set_subdomains_http_https(&mut self, subdomains_http_https: Vec<String>)
        ensures
            final(self)@ == old(self)@.with_http_https(views(subdomains_http_https@)),
    {
        self.subdomains_http_https = subdomains_http_https;
    }

    pub fn set_useragent(&mut self, useragent: String)
        ensures
            final(self)@ == old(self)@.with_useragent(useragent@),
    {
        self.useragent = useragent;
    }

    pub fn get_useragent(&self) -> (r: String)
        ensures
            r@ == self@.useragent,
    {
        self.useragent.clone()
    }

    /// A session with nothing found yet.
    pub fn init(useragent: String) -> (s: Session)
        ensures
            s@.subdomains_found == Seq::<Seq<char>>::empty(),
            s@.resolved_subdomains == Seq::<Seq<char>>::empty(),
            s@.resolved_ips == Seq::<IpAddress>::empty(),
            s@.unresolved_subdomains == Seq::<Seq<char>>::empty(),
            s@.subdomains_http_https == Seq::<Seq<char>>::empty(),
            s@.useragent == useragent@,
    {
        let s = Session {
            subdomains_found: Vec::new(),
            resolved_subdomains: Vec::new(),
            resolved_ips: Vec::new(),
            unresolved_subdomains: Vec::new(),
            subdomains_http_https: Vec::new(),
            useragent,
        };
        assert(views(s.subdomains_found@) =~= Seq::<Seq<char>>::empty());
        assert(views(s.resolved_subdomains@) =~= Seq::<Seq<char>>::empty());
        assert(views(s.unresolved_subdomains@) =~= Seq::<Seq<char>>::empty());
        assert(views(s.subdomains_http_https@) =~= Seq::<Seq<char>>::empty());
        s
    }

    /// A session holding the given lists.
    pub fn load(
        dns_subdomain_list: Vec<String>,
        resolved_subdomains: Vec<String>,
        resolved_ips: Vec<IpAddress>,
        unresolved_subdomains: Vec<String>,
        http_subdomain_list: Vec<String>,
        useragent: String,
    ) -> (s: Session)
        ensures
            s@.subdomains_found == views(dns_subdomain_list@),
            s@.resolved_subdomains == views(resolved_subdomains@),
            s@.resolved_ips == resolved_ips@,
            s@.unresolved_subdomains == views(unresolved_subdomains@),
            s@.subdomains_http_https == views(http_subdomain_list@),
            s@.useragent == useragent@,
    {
        Session {
            subdomains_found: dns_subdomain_list,
            resolved_subdomains,
            resolved_ips,
            unresolved_subdomains,
            subdomains_http_https: http_subdomain_list,
            useragent,
        }
    }
}


/// The list of found names starts as it was: absorbing only appends.
pub proof fn lemma_absorb_extends(found: Seq<Seq<char>>, names: Seq<Seq<char>>)
    ensures
        absorb_spec(found, names).len() >= found.len(),
        absorb_spec(found, names).take(found.len() as int) == found,
    decreases names.len(),
{
    if names.len() > 0 {
        lemma_absorb_extends(found, names.drop_last());
        let before = absorb_spec(found, names.drop_last());
        if !before.contains(names.last()) {
            assert(before.push(names.last()).take(found.len() as int) =~= before.take(found.len() as int));
        }
    }
}

/// After absorbing, a name is found exactly when it was found before or is
/// one of the names absorbed.
pub proof fn lemma_absorb_contains(found: Seq<Seq<char>>, names: Seq<Seq<char>>, x: Seq<char>)
    ensures
        absorb_spec(found, names).contains(x) <==> found.contains(x) || names.contains(x),
    decreases names.len(),
{
    if names.len() > 0 {
        let rest = names.drop_last();
        lemma_absorb_contains(found, rest, x);
        let before = absorb_spec(found, rest);
        if before.contains(names.last()) {
            assert(absorb_spec(found, names) == before);
        } else {
            assert(absorb_spec(found, names) == before.push(names.last()));
            if before.push(names.last()).contains(x) && x != names.last() {
                let p = choose|p: int| 0 <= p < before.push(names.last()).len() && before.push(names.last())[p] == x;
                assert(before[p] == x);
            }
            if before.contains(x) {
                let p = choose|p: int| 0 <= p < before.len() && before[p] == x;
                assert(before.push(names.last())[p] == x);
            }
            assert(before.push(names.last())[before.len() as int] == names.last());
        }
        if names.contains(x) && x != names.last() {
            let p = choose|p: int| 0 <= p < names.len() && names[p] == x;
            assert(rest[p] == x);
        }
        if rest.contains(x) {
            let p = choose|p: int| 0 <= p < rest.len() && rest[p] == x;
            assert(names[p] == x);
        }
        assert(names[names.len() - 1] == names.last());
    }
}

/// Absorbing keeps a list without repeats free of repeats.
pub proof fn lemma_absorb_no_duplicates(found: Seq<Seq<char>>, names: Seq<Seq<char>>)
    requires
        found.no_duplicates(),
    ensures
        absorb_spec(found, names).no_duplicates(),
    decreases names.len(),
{
    if names.len() > 0 {
        lemma_absorb_no_duplicates(found, names.drop_last());
        let before = absorb_spec(found, names.drop_last());
        if !before.contains(names.last()) {
            let after = before.push(names.last());
            assert forall|i: int, j: int| 0 <= i < after.len() && 0 <= j < after.len() && i != j implies after[i] != after[j] by {
                if i == before.len() {
                    assert(before[j] == after[j]);
                } else if j == before.len() {
                    assert(before[i] == after[i]);
                }
            }
        }
    }
}

/// The names that absorbing adds are new: none was found before, and none
/// is added twice.
pub proof fn lemma_absorb_added_fresh(found: Seq<Seq<char>>, names: Seq<Seq<char>>)
    ensures
        absorb_spec(found, names).skip(found.len() as int).no_duplicates(),
        forall|x: Seq<char>| #[trigger] absorb_spec(found, names).skip(found.len() as int).contains(x)
            ==> !found.contains(x),
    decreases names.len(),
{
    lemma_absorb_extends(found, names);
    if names.len() > 0 {
        let rest = names.drop_last();
        lemma_absorb_added_fresh(found, rest);
        lemma_absorb_extends(found, rest);
        let before = absorb_spec(found, rest);
        let added_before = before.skip(found.len() as int);
        if !before.contains(names.last()) {
            let after = before.push(names.last());
            let added = after.skip(found.len() as int);
            assert(added =~= added_before.push(names.last()));
            assert forall|i: int, j: int| 0 <= i < added.len() && 0 <= j < added.len() && i != j
                implies added[i] != added[j] by {
                if i == added_before.len() {
                    assert(before[found.len() + j] == added[j]);
                } else if j == added_before.len() {
                    assert(before[found.len() + i] == added[i]);
                }
            }
            assert forall|x: Seq<char>| #[trigger] added.contains(x) implies !found.contains(x) by {
                let p = choose|p: int| 0 <= p < added.len() && added[p] == x;
                if p < added_before.len() {
                    assert(added_before[p] == x);
                    assert(added_before.contains(x));
                } else {
                    assert(x == names.last());
                    if found.contains(x) {
                        let q = choose|q: int| 0 <= q < found.len() && found[q] == x;
                        assert(before.take(found.len() as int)[q] == before[q]);
                        assert(before.contains(x));
                    }
                }
            }
        }
    } else {
        assert(absorb_spec(found, names).skip(found.len() as int) =~= Seq::<Seq<char>>::empty());
    }
}

/// Absorbing the same names twice adds nothing the second time.
pub proof fn lemma_absorb_idempotent(found: Seq<Seq<char>>, names: Seq<Seq<char>>)
    ensures
        absorb_spec(absorb_spec(found, names), names) == absorb_spec(found, names),
{
    lemma_absorb_nothing_new(absorb_spec(found, names), names, found, names);
}

proof fn lemma_absorb_nothing_new(
    found: Seq<Seq<char>>,
    names: Seq<Seq<char>>,
    base: Seq<Seq<char>>,
    all: Seq<Seq<char>>,
)
    requires
        found == absorb_spec(base, all),
        forall|k: int| 0 <= k < names.len() ==> all.contains(#[trigger] names[k]),
    ensures
        absorb_spec(found, names) == found,
    decreases names.len(),
{
    if names.len() > 0 {
        lemma_absorb_nothing_new(found, names.drop_last(), base, all);
        assert(all.contains(names[names.len() - 1]));
        lemma_absorb_contains(base, all, names.last());
    }
}

/// The candidate names of the brute-force search: each label, a dot, and
/// the domain.
pub open spec fn bruteforce_names_spec(labels: Seq<Seq<char>>, hostname: Seq<char>) -> Seq<Seq<char>> {
    labels.map_values(|l: Seq<char>| l + "."@ + hostname)
}

/// Each brute-force candidate is its label, a dot, and the domain, in the
/// order of the word list.
pub proof fn lemma_bruteforce_names(labels: Seq<Seq<char>>, hostname: Seq<char>)
    ensures
        bruteforce_names_spec(labels, hostname).len() == labels.len(),
        forall|i: int| 0 <= i < labels.len() ==> #[trigger] bruteforce_names_spec(labels, hostname)[i]
            == labels[i] + seq!['.'] + hostname,
{
    assert("."@ =~= seq!['.']) by {
        reveal_strlit(".");
    }
}

/// Builds the candidate names of the brute-force search from a word list.
pub fn bruteforce_names(labels: &Vec<String>, hostname: &String) -> (r: Vec<String>)
    ensures
        views(r@) == bruteforce_names_spec(views(labels@), hostname@),
{
    let mut r: Vec<String> = Vec::new();
    let mut i: usize = 0;
    while i < labels.len()
        invariant
            i <= labels.len(),
            views(r@) == bruteforce_names_spec(views(labels@), hostname@).take(i as int),
        decreases labels.len() - i,
    {
        let with_dot = concat(labels[i].as_str(), ".");
        let name = concat(with_dot.as_str(), hostname.as_str());
        let ghost before = views(r@);
        let ghost name_view = name@;
        r.push(name);
        assert(name_view == views(labels@)[i as int] + "."@ + hostname@);
        assert(views(r@) =~= before.push(name_view));
        assert(views(r@) =~= bruteforce_names_spec(views(labels@), hostname@).take(i + 1));
        i = i + 1;
    }
    assert(bruteforce_names_spec(views(labels@), hostname@).take(i as int) =~= bruteforce_names_spec(views(labels@), hostname@));
    r
}

/// Whether a run has a domain to work on: an empty domain is refused.
pub fn target_given(hostname: &String) -> (r: bool)
    ensures
        r == (hostname@.len() > 0),
{
    !hostname.as_str().is_empty()
}

/// The brute-force candidates whose lookup gave an address, in order.
pub open spec fn resolving_candidates_spec(lookups: Seq<(String, bool)>) -> Seq<Seq<char>> {
    lookups.filter_map(|p: (String, bool)| if p.1 { Some(p.0@) } else { None })
}

/// Keeps the brute-force candidates whose lookup gave an address, in the
/// order of `lookups`.
pub fn resolving_candidates(lookups: Vec<(String, bool)>) -> (r: Vec<String>)
    ensures
        views(r@) == resolving_candidates_spec(lookups@),
{
    let mut r: Vec<String> = Vec::new();
    let mut i: usize = 0;
    while i < lookups.len()
        invariant
            i <= lookups.len(),
            views(r@) == resolving_candidates_spec(lookups@.take(i as int)),
        decreases lookups.len() - i,
    {
        proof {
            lookups@.lemma_filter_map_take_succ(|p: (String, bool)| if p.1 { Some(p.0@) } else { None }, i as int);
        }
        let ghost before = views(r@);
        if lookups[i].1 {
            r.push(lookups[i].0.clone());
            assert(views(r@) =~= before.push(lookups@[i as int].0@));
        }
        assert(views(r@) =~= resolving_candidates_spec(lookups@.take(i + 1)));
        i = i + 1;
    }
    assert(lookups@.take(lookups.len() as int) =~= lookups@);
    r
}

/// The names of every list, one list after the other.
pub open spec fn flatten(lists: Seq<Vec<String>>) -> Seq<Seq<char>>
    decreases lists.len(),
{
    if lists.len() == 0 {
        Seq::empty()
    } else {
        flatten(lists.drop_last()) + views(lists.last()@)
    }
}

/// The names resolved, in the order of `pairs`.
pub open spec fn resolved_names(pairs: Seq<(String, Option<IpAddress>)>) -> Seq<Seq<char>> {
    pairs.filter_map(|p: (String, Option<IpAddress>)| if p.1 is Some { Some(p.0@) } else { None })
}

/// The addresses of the names resolved, in the same order.
pub open spec fn resolved_addresses(pairs: Seq<(String, Option<IpAddress>)>) -> Seq<IpAddress> {
    pairs.filter_map(|p: (String, Option<IpAddress>)| p.1)
}

/// The names that did not resolve, in the order of `pairs`.
pub open spec fn unresolved_names(pairs: Seq<(String, Option<IpAddress>)>) -> Seq<Seq<char>> {
    pairs.filter_map(|p: (String, Option<IpAddress>)| if p.1 is Some { None } else { Some(p.0@) })
}

/// The (name, address) pairs of the lookups that succeeded, in order.
pub open spec fn resolved_entries(pairs: Seq<(String, Option<IpAddress>)>) -> Seq<(Seq<char>, IpAddress)> {
    pairs.filter_map(|p: (String, Option<IpAddress>)| match p.1 {
        Some(a) => Some((p.0@, a)),
        None => None,
    })
}

/// Each resolved name keeps its own address: the resolved names and their
/// addresses are the two halves of the successful lookups, position by
/// position; together with the unresolved names they account for every
/// lookup.
pub proof fn lemma_resolution_pairs(pairs: Seq<(String, Option<IpAddress>)>)
    ensures
        resolved_names(pairs) == resolved_entries(pairs).map_values(|e: (Seq<char>, IpAddress)| e.0),
        resolved_addresses(pairs) == resolved_entries(pairs).map_values(|e: (Seq<char>, IpAddress)| e.1),
        resolved_names(pairs).len() + unresolved_names(pairs).len() == pairs.len(),
    decreases pairs.len(),
{
    if pairs.len() > 0 {
        let rest = pairs.drop_last();
        lemma_resolution_pairs(rest);
        let last = pairs.last();
        let e = resolved_entries(pairs);
        let e0 = resolved_entries(rest);
        match last.1 {
            Some(a) => {
                assert(e == e0 + seq![(last.0@, a)]);
                assert(resolved_names(pairs) == resolved_names(rest) + seq![last.0@]);
                assert(resolved_addresses(pairs) == resolved_addresses(rest) + seq![a]);
                assert(unresolved_names(pairs) == unresolved_names(rest));
                assert(resolved_names(pairs) =~= e.map_values(|e: (Seq<char>, IpAddress)| e.0));
                assert(resolved_addresses(pairs) =~= e.map_values(|e: (Seq<char>, IpAddress)| e.1));
            },
            None => {
                assert(e == e0);
                assert(resolved_names(pairs) == resolved_names(rest));
                assert(resolved_addresses(pairs) == resolved_addresses(rest));
                assert(unresolved_names(pairs) == unresolved_names(rest) + seq![last.0@]);
            },
        }
    } else {
        assert(resolved_names(pairs) =~= resolved_entries(pairs).map_values(|e: (Seq<char>, IpAddress)| e.0));
        assert(resolved_addresses(pairs) =~= resolved_entries(pairs).map_values(|e: (Seq<char>, IpAddress)| e.1));
    }
}

impl Session {
    /// A session for a run on `hostname`: the domain itself is the first
    /// name found.
    pub fn begin(hostname: String, useragent: String) -> (s: Session)
        ensures
            s@.subdomains_found == seq![hostname@],
            s@.resolved_subdomains == Seq::<Seq<char>>::empty(),
            s@.resolved_ips == Seq::<IpAddress>::empty(),
            s@.unresolved_subdomains == Seq::<Seq<char>>::empty(),
            s@.subdomains_http_https == Seq::<Seq<char>>::empty(),
            s@.useragent == useragent@,
    {
        let mut s = Session::init(useragent);
        s.add_subdomains_found(hostname);
        s
    }

    /// Adds each of `names` not found yet to the found names, in order, and
    /// returns the names it added.
    pub fn absorb(&mut self, names: &Vec<String>) -> (added: Vec<String>)
        ensures
            final(self)@ == old(self)@.with_found(absorb_spec(old(self)@.subdomains_found, views(names@))),
            views(added@) == final(self)@.subdomains_found.skip(old(self)@.subdomains_found.len() as int),
            final(self)@.subdomains_found == old(self)@.subdomains_found + views(added@),
            views(added@).no_duplicates(),
            forall|x: Seq<char>| #[trigger] views(added@).contains(x) ==> !old(self)@.subdomains_found.contains(x),
    {
        let ghost start = views(self.subdomains_found@);
        let mut added: Vec<String> = Vec::new();
        let mut i: usize = 0;
        while i < names.len()
            invariant
                i <= names.len(),
                self@ == old(self)@.with_found(absorb_spec(start, views(names@).take(i as int))),
                start == old(self)@.subdomains_found,
                views(added@) == self@.subdomains_found.skip(start.len() as int),
            decreases names.len() - i,
        {
            let ghost taken = views(names@).take(i + 1);
            assert(taken.drop_last() =~= views(names@).take(i as int));
            assert(taken.last() == names@[i as int]@);
            proof {
                lemma_absorb_extends(start, views(names@).take(i as int));
            }
            let ghost found_before = self@.subdomains_found;
            let ghost added_before = views(added@);
            if !contains_name(&self.subdomains_found, &names[i]) {
                let name = names[i].clone();
                added.push(name.clone());
                self.add_subdomains_found(name);
                assert(views(added@) =~= added_before.push(names@[i as int]@));
                assert(self@.subdomains_found == found_before.push(names@[i as int]@));
                assert(found_before.push(names@[i as int]@).skip(start.len() as int) =~= found_before.skip(start.len() as int).push(names@[i as int]@));
            }
            i = i + 1;
        }
        assert(views(names@).take(names.len() as int) =~= views(names@));
        proof {
            lemma_absorb_extends(start, views(names@));
            lemma_absorb_added_fresh(start, views(names@));
            assert(self@.subdomains_found =~= start + views(added@));
        }
        added
    }

    /// Merges the names that a round of content searches found into the found
    /// names, which become sorted and free of repeats, and returns the names
    /// that are new, in that order.
    pub fn apply_content_round(&mut self, rounds: Vec<Vec<String>>) -> (new_names: Vec<String>)
        ensures
            final(self)@ == old(self)@.with_found(final(self)@.subdomains_found),
            strictly_sorted(final(self)@.subdomains_found),
            same_elements(final(self)@.subdomains_found, old(self)@.subdomains_found + flatten(rounds@)),
            strictly_sorted(views(new_names@)),
            forall|x: Seq<char>| #[trigger] views(new_names@).contains(x) <==>
                final(self)@.subdomains_found.contains(x) && !old(self)@.subdomains_found.contains(x),
    {
        let current = self.get_subdomains_found();
        let mut all = self.get_subdomains_found();
        let mut j: usize = 0;
        while j < rounds.len()
            invariant
                j <= rounds.len(),
                views(all@) == views(current@) + flatten(rounds@.take(j as int)),
            decreases rounds.len() - j,
        {
            let mut round = rounds[j].clone();
            assert(round@ =~= rounds@[j as int]@);
            assert(rounds@.take(j + 1).drop_last() =~= rounds@.take(j as int));
            let ghost before = all@;
            let ghost added = round@;
            all.append(&mut round);
            assert(views(all@) =~= views(before) + views(added));
            assert(views(all@) =~= views(current@) + flatten(rounds@.take(j + 1)));
            j = j + 1;
        }
        assert(rounds@.take(rounds.len() as int) =~= rounds@);
        let merged = sort_dedup(all);
        let mut new_names: Vec<String> = Vec::new();
        let mut k: usize = 0;
        while k < merged.len()
            invariant
                k <= merged.len(),
                strictly_sorted(views(merged@)),
                strictly_sorted(views(new_names@)),
                forall|t: int| 0 <= t < new_names.len() ==> exists|m: int| 0 <= m < k && #[trigger] views(new_names@)[t] == views(merged@)[m],
                forall|x: Seq<char>| #[trigger] views(new_names@).contains(x) <==>
                    views(merged@).take(k as int).contains(x) && !views(current@).contains(x),
            decreases merged.len() - k,
        {
            let ghost before = views(new_names@);
            let ghost prefix = views(merged@).take(k as int);
            let ghost next_prefix = views(merged@).take(k + 1);
            assert(next_prefix =~= prefix.push(views(merged@)[k as int]));
            if !contains_name(&current, &merged[k]) {
                new_names.push(merged[k].clone());
                proof {
                    let after = views(new_names@);
                    assert(after =~= before.push(views(merged@)[k as int]));
                    assert forall|a: int, b: int| 0 <= a < b < after.len() implies seq_lt_ab(after, a, b) by {
                        if b == before.len() {
                            let m = choose|m: int| 0 <= m < k && #[trigger] views(new_names@)[a] == views(merged@)[m];
                            assert(views(merged@)[m] == before[a]);
                        } else {
                            assert(after[a] == before[a] && after[b] == before[b]);
                        }
                    }
                    assert forall|t: int| 0 <= t < after.len() implies exists|m: int| 0 <= m < k + 1 && #[trigger] after[t] == views(merged@)[m] by {
                        if t < before.len() {
                            let m = choose|m: int| 0 <= m < k && #[trigger] before[t] == views(merged@)[m];
                            assert(after[t] == views(merged@)[m]);
                        } else {
                            assert(after[t] == views(merged@)[k as int]);
                        }
                    }
                    assert forall|x: Seq<char>| #[trigger] after.contains(x) <==> next_prefix.contains(x) && !views(current@).contains(x) by {
                        lemma_push_contains(before, views(merged@)[k as int], x);
                        lemma_push_contains(prefix, views(merged@)[k as int], x);
                    }
                }
            } else {
                proof {
                    assert forall|x: Seq<char>| #[trigger] before.contains(x) <==> next_prefix.contains(x) && !views(current@).contains(x) by {
                        lemma_push_contains(prefix, views(merged@)[k as int], x);
                    }
                }
            }
            k = k + 1;
        }
        assert(views(merged@).take(merged.len() as int) =~= views(merged@));
        self.set_subdomains_found(merged);
        new_names
    }

    /// Stores the outcome of resolving every found name: the names that
    /// resolved with their addresses, in the order of `pairs`, and the names
    /// that did not.
    pub fn record_resolution(&mut self, pairs: Vec<(String, Option<IpAddress>)>)
        ensures
            final(self)@ == old(self)@
                .with_resolved(resolved_names(pairs@))
                .with_ips(resolved_addresses(pairs@))
                .with_unresolved(unresolved_names(pairs@)),
    {
        let mut resolved: Vec<String> = Vec::new();
        let mut ips: Vec<IpAddress> = Vec::new();
        let mut unresolved: Vec<String> = Vec::new();
        let mut i: usize = 0;
        while i < pairs.len()
            invariant
                i <= pairs.len(),
                views(resolved@) == resolved_names(pairs@.take(i as int)),
                ips@ == resolved_addresses(pairs@.take(i as int)),
                views(unresolved@) == unresolved_names(pairs@.take(i as int)),
            decreases pairs.len() - i,
        {
            proof {
                pairs@.lemma_filter_map_take_succ(|p: (String, Option<IpAddress>)| if p.1 is Some { Some(p.0@) } else { None }, i as int);
                pairs@.lemma_filter_map_take_succ(|p: (String, Option<IpAddress>)| p.1, i as int);
                pairs@.lemma_filter_map_take_succ(|p: (String, Option<IpAddress>)| if p.1 is Some { None } else { Some(p.0@) }, i as int);
            }
            let name = pairs[i].0.clone();
            match pairs[i].1 {
                Some(ip) => {
                    resolved.push(name);
                    ips.push(ip);
                    assert(views(resolved@) =~= resolved_names(pairs@.take(i + 1)));
                    assert(ips@ =~= resolved_addresses(pairs@.take(i + 1)));
                    assert(views(unresolved@) =~= unresolved_names(pairs@.take(i + 1)));
                },
                None => {
                    unresolved.push(name);
                    assert(views(resolved@) =~= resolved_names(pairs@.take(i + 1)));
                    assert(ips@ =~= resolved_addresses(pairs@.take(i + 1)));
                    assert(views(unresolved@) =~= unresolved_names(pairs@.take(i + 1)));
                },
            }
            i = i + 1;
        }
        assert(pairs@.take(pairs.len() as int) =~= pairs@);
        self.set_resolved_subdomains(resolved);
        self.set_resolved_ips(ips);
        self.set_unresolved_subdomains(unresolved);
    }
}

/// The recursive stage of the content search: names still to be searched,
/// in the order they were found, and how many have been searched so far.
/// The caller runs the loop: it asks for the next name, searches its web
/// content, and reports the names found back with `record`.
pub struct ContentCrawl {
    pending: Vec<String>,
    position: usize,
    initial: Ghost<Seq<Seq<char>>>,
    absorbed: Ghost<Seq<Seq<char>>>,
}

/// The content of a crawl: the pending names, how many were searched, the
/// names it started with, and the names it added to the session since.
pub struct ContentCrawlView {
    pub pending: Seq<Seq<char>>,
    pub position: nat,
    pub initial: Seq<Seq<char>>,
    pub absorbed: Seq<Seq<char>>,
}

impl ContentCrawlView {
    /// The pending names are the names the crawl started with followed by
    /// every name it added, and no more were searched than are pending.
    pub open spec fn wf(self) -> bool {
        &&& self.pending == self.initial + self.absorbed
        &&& self.position <= self.pending.len()
    }
}

impl View for ContentCrawl {
    type V = ContentCrawlView;

    closed spec fn view(&self) -> ContentCrawlView {
        ContentCrawlView {
            pending: views(self.pending@),
            position: self.position as nat,
            initial: self.initial@,
            absorbed: self.absorbed@,
        }
    }
}

impl ContentCrawl {
    /// A crawl over the given names, none searched yet.
    pub fn new(pending: Vec<String>) -> (c: ContentCrawl)
        ensures
            c@.pending == views(pending@),
            c@.position == 0,
            c@.initial == views(pending@),
            c@.absorbed == Seq::<Seq<char>>::empty(),
            c@.wf(),
    {
        let ghost start = views(pending@);
        assert(start + Seq::<Seq<char>>::empty() =~= start);
        ContentCrawl { pending, position: 0, initial: Ghost(start), absorbed: Ghost(Seq::empty()) }
    }

    /// The next name to search, or `None` when every pending name was
    /// searched.
    pub fn next_target(&self) -> (r: Option<String>)
        ensures
            r is Some <==> self@.position < self@.pending.len(),
            r matches Some(t) ==> t@ == self@.pending[self@.position as int],
    {
        if self.position < self.pending.len() {
            assert(views(self.pending@)[self.position as int] == self.pending@[self.position as int]@);
            Some(self.pending[self.position].clone())
        } else {
            None
        }
    }

    /// Records the names that the search of the current name found: those
    /// not found before join the session's found names and the end of the
    /// pending names, in order, and the crawl moves to the next name.
    /// Returns the names added.
    pub fn record(&mut self, session: &mut Session, found: &Vec<String>) -> (added: Vec<String>)
        requires
            old(self)@.wf(),
            old(self)@.position < old(self)@.pending.len(),
        ensures
            final(session)@ == old(session)@.with_found(absorb_spec(old(session)@.subdomains_found, views(found@))),
            final(session)@.subdomains_found == old(session)@.subdomains_found + views(added@),
            final(self)@.pending == old(self)@.pending + views(added@),
            final(self)@.position == old(self)@.position + 1,
            final(self)@.initial == old(self)@.initial,
            final(self)@.absorbed == old(self)@.absorbed + views(added@),
            final(self)@.wf(),
            views(added@).no_duplicates(),
            forall|x: Seq<char>| #[trigger] views(added@).contains(x) ==> !old(session)@.subdomains_found.contains(x),
            crawl_consistent(old(self)@, old(session)@.subdomains_found)
                ==> crawl_consistent(final(self)@, final(session)@.subdomains_found),
    {
        assert(views(self.pending@).len() == self.pending@.len());
        assert(self@.position < self@.pending.len());
        assert(self.position < self.pending.len());
        let next = self.position + 1;
        let added = session.absorb(found);
        let mut copy = added.clone();
        assert(copy@ =~= added@);
        let ghost before = views(self.pending@);
        self.pending.append(&mut copy);
        assert(views(self.pending@) =~= before + views(added@));
        self.position = next;
        proof {
            self.absorbed = Ghost(self.absorbed@ + views(added@));
            assert(self@.pending =~= self@.initial + self@.absorbed);
            let old_found = old(session)@.subdomains_found;
            let new_found = session@.subdomains_found;
            let a = views(added@);
            if crawl_consistent(old(self)@, old_found) {
                let p = self@.pending;
                assert(p == before + a);
                assert forall|i: int, j: int| 0 <= i < p.len() && 0 <= j < p.len() && i != j implies p[i] != p[j] by {
                    if i < before.len() && j >= before.len() {
                        assert(old_found.contains(before[i]));
                        assert(a.contains(a[j - before.len()]));
                    } else if j < before.len() && i >= before.len() {
                        assert(old_found.contains(before[j]));
                        assert(a.contains(a[i - before.len()]));
                    } else if i < before.len() {
                        assert(p[i] == before[i] && p[j] == before[j]);
                    } else {
                        assert(p[i] == a[i - before.len()] && p[j] == a[j - before.len()]);
                    }
                }
                assert forall|k: int| 0 <= k < p.len() implies new_found.contains(#[trigger] p[k]) by {
                    crate::sorted_set::lemma_concat_contains(old_found, a, p[k]);
                    if k < before.len() {
                        assert(old_found.contains(before[k]));
                    } else {
                        assert(a[k - before.len()] == p[k]);
                    }
                }
            }
        }
        added
    }
}

/// The crawl is well formed, its pending names have no repeats, and each of
/// them is among the session's found names.
pub open spec fn crawl_consistent(c: ContentCrawlView, found: Seq<Seq<char>>) -> bool {
    &&& c.wf()
    &&& c.pending.no_duplicates()
    &&& forall|k: int| 0 <= k < c.pending.len() ==> found.contains(#[trigger] c.pending[k])
}

/// A consistent crawl whose session's found names all belong to a finite set
/// of names has no more pending names than that set holds. Since `record`
/// keeps the crawl consistent and moves one name further each time, a crawl
/// whose found names stay within such a set reaches `next_target() == None`
/// after at most as many `record` steps as the set has names.
pub proof fn lemma_crawl_steps_bounded(c: ContentCrawlView, found: Seq<Seq<char>>, universe: Set<Seq<char>>)
    requires
        crawl_consistent(c, found),
        universe.finite(),
        forall|k: int| 0 <= k < found.len() ==> universe.contains(#[trigger] found[k]),
    ensures
        c.position <= c.pending.len() <= universe.len(),
{
    assert(c.pending.to_set().subset_of(universe)) by {
        assert forall|x: Seq<char>| c.pending.to_set().contains(x) implies universe.contains(x) by {
            let k = choose|k: int| 0 <= k < c.pending.len() && c.pending[k] == x;
            assert(found.contains(c.pending[k]));
            let q = choose|q: int| 0 <= q < found.len() && found[q] == x;
            assert(universe.contains(found[q]));
        }
    }
    vstd::set_lib::lemma_len_subset(c.pending.to_set(), universe);
    c.pending.unique_seq_to_set();
}

/// Names in strictly increasing order have no repeats, so a crawl may start
/// from the new names of a content round.
pub proof fn lemma_strictly_sorted_no_duplicates(s: Seq<Seq<char>>)
    requires
        strictly_sorted(s),
    ensures
        s.no_duplicates(),
{
    assert forall|i: int, j: int| 0 <= i < s.len() && 0 <= j < s.len() && i != j implies s[i] != s[j] by {
        if i < j {
            assert(crate::text::seq_lt(s[i], s[j]));
            crate::text::lemma_seq_lt_irreflexive(s[i]);
        } else {
            assert(crate::text::seq_lt(s[j], s[i]));
            crate::text::lemma_seq_lt_irreflexive(s[j]);
        }
    }
}

/// A crawl that has no name left to search (`next_target` gives `None`)
/// has searched every name it started with and every name it added to the
/// session: all of them stand among the names searched so far.
pub proof fn lemma_finished_crawl_searched_all(c: ContentCrawlView)
    requires
        c.wf(),
        !(c.position < c.pending.len()),
    ensures
        c.pending.take(c.position as int) == c.initial + c.absorbed,
        forall|x: Seq<char>| c.initial.contains(x) || c.absorbed.contains(x)
            ==> #[trigger] c.pending.take(c.position as int).contains(x),
{
    assert(c.pending.take(c.position as int) =~= c.pending);
    assert forall|x: Seq<char>| c.initial.contains(x) || c.absorbed.contains(x)
        implies #[trigger] c.pending.take(c.position as int).contains(x) by {
        crate::sorted_set::lemma_concat_contains(c.initial, c.absorbed, x);
    }
}

/// Recording keeps every pending name among the session's found names: the
/// names a crawl still has to search have all been found.
pub proof fn lemma_record_keeps_pending_found(
    found: Seq<Seq<char>>,
    pending: Seq<Seq<char>>,
    names: Seq<Seq<char>>,
)
    requires
        forall|k: int| 0 <= k < pending.len() ==> found.contains(#[trigger] pending[k]),
    ensures
        ({
            let after = absorb_spec(found, names);
            let next = pending + after.skip(found.len() as int);
            forall|k: int| 0 <= k < next.len() ==> after.contains(#[trigger] next[k])
        }),
{
    let after = absorb_spec(found, names);
    let next = pending + after.skip(found.len() as int);
    lemma_absorb_extends(found, names);
    assert forall|k: int| 0 <= k < next.len() implies after.contains(#[trigger] next[k]) by {
        if k < pending.len() {
            assert(found.contains(pending[k]));
            let p = choose|p: int| 0 <= p < found.len() && found[p] == pending[k];
            assert(after.take(found.len() as int)[p] == after[p]);
            assert(after[p] == next[k]);
        } else {
            assert(next[k] == after[found.len() + k - pending.len()]);
        }
    }
}

spec fn seq_lt_ab(s: Seq<Seq<char>>, a: int, b: int) -> bool {
    crate::text::seq_lt(s[a], s[b])
}

proof fn lemma_push_contains(s: Seq<Seq<char>>, y: Seq<char>, x: Seq<char>)
    ensures
        s.push(y).contains(x) <==> s.contains(x) || x == y,
{
    if s.push(y).contains(x) && x != y {
        let p = choose|p: int| 0 <= p < s.push(y).len() && s.push(y)[p] == x;
        assert(s[p] == x);
    }
    if s.contains(x) {
        let p = choose|p: int| 0 <= p < s.len() && s[p] == x;
        assert(s.push(y)[p] == x);
    }
    assert(s.push(y)[s.len() as int] == y);
}

} // verus!
