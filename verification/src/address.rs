//! IP addresses that names resolve to, and their usual text form.

use vstd::prelude::*;
use crate::text::{concat, decimal, decimal_spec, hex, hex_spec, digits_value, lemma_digits_read_back,
    lemma_decimal_digits};

verus! {

/// An IPv4 address by its four octets, or an IPv6 address by its eight
/// 16-bit segments.
#[derive(Clone, Copy, Debug)]
pub enum IpAddress {
    V4([u8; 4]),
    V6([u16; 8]),
}

/// Dotted-decimal text of four octets.
pub open spec fn ipv4_text(o: Seq<u8>) -> Seq<char> {
    decimal_spec(o[0] as nat) + "."@ + decimal_spec(o[1] as nat) + "."@
        + decimal_spec(o[2] as nat) + "."@ + decimal_spec(o[3] as nat)
}

/// The text of an IPv4 address is four fields of decimal digits, each read
/// back giving its octet in order, separated by dots.
pub proof fn lemma_ipv4_text_fields(o: Seq<u8>)
    requires
        o.len() == 4,
    ensures
        exists|f0: Seq<char>, f1: Seq<char>, f2: Seq<char>, f3: Seq<char>| {
            &&& ipv4_text(o) == f0 + seq!['.'] + f1 + seq!['.'] + f2 + seq!['.'] + f3
            &&& digits_value(f0, 10) == o[0] && digits_value(f1, 10) == o[1]
            &&& digits_value(f2, 10) == o[2] && digits_value(f3, 10) == o[3]
            &&& forall|i: int| 0 <= i < f0.len() ==> '0' <= #[trigger] f0[i] <= '9'
            &&& forall|i: int| 0 <= i < f1.len() ==> '0' <= #[trigger] f1[i] <= '9'
            &&& forall|i: int| 0 <= i < f2.len() ==> '0' <= #[trigger] f2[i] <= '9'
            &&& forall|i: int| 0 <= i < f3.len() ==> '0' <= #[trigger] f3[i] <= '9'
        },
{
    assert("."@ =~= seq!['.']) by {
        reveal_strlit(".");
    }
    let f0 = decimal_spec(o[0] as nat);
    let f1 = decimal_spec(o[1] as nat);
    let f2 = decimal_spec(o[2] as nat);
    let f3 = decimal_spec(o[3] as nat);
    lemma_digits_read_back(o[0] as nat, 10);
    lemma_digits_read_back(o[1] as nat, 10);
    lemma_digits_read_back(o[2] as nat, 10);
    lemma_digits_read_back(o[3] as nat, 10);
    lemma_decimal_digits(o[0] as nat);
    lemma_decimal_digits(o[1] as nat);
    lemma_decimal_digits(o[2] as nat);
    lemma_decimal_digits(o[3] as nat);
    assert(ipv4_text(o) == f0 + seq!['.'] + f1 + seq!['.'] + f2 + seq!['.'] + f3);
}

/// Segments in lower-case hexadecimal, separated by colons.
pub open spec fn hex_join(s: Seq<u16>) -> Seq<char>
    decreases s.len(),
{
    if s.len() == 0 {
        Seq::empty()
    } else if s.len() == 1 {
        hex_spec(s[0] as nat)
    } else {
        hex_join(s.drop_last()) + ":"@ + hex_spec(s.last() as nat)
    }
}

/// The number of zero segments in a row from position `i` on.
pub open spec fn zero_run(s: Seq<u16>, i: int) -> nat
    decreases s.len() - i,
{
    if 0 <= i < s.len() && s[i] == 0 {
        1 + zero_run(s, i + 1)
    } else {
        0
    }
}

/// `i` starts the first of the longest runs of zero segments.
pub open spec fn is_longest_zero_run(s: Seq<u16>, i: int) -> bool {
    &&& 0 <= i < s.len()
    &&& forall|j: int| 0 <= j < s.len() ==> zero_run(s, j) <= zero_run(s, i)
    &&& forall|j: int| 0 <= j < i ==> zero_run(s, j) < zero_run(s, i)
}

/// Where the first longest run of zero segments starts.
pub open spec fn longest_zero_run(s: Seq<u16>) -> int {
    choose|i: int| is_longest_zero_run(s, i)
}

/// The segments hold an IPv4-mapped address (`::ffff:a.b.c.d`).
pub open spec fn is_ipv4_mapped(s: Seq<u16>) -> bool {
    s[0] == 0 && s[1] == 0 && s[2] == 0 && s[3] == 0 && s[4] == 0 && s[5] == 0xffff
}

/// The text of an IPv6 address, written as `std` writes it: an IPv4-mapped
/// address as `::ffff:` and the dotted IPv4 form; otherwise the segments in
/// hexadecimal, with the first longest run of two or more zero segments
/// replaced by `::`.
pub open spec fn ipv6_text(s: Seq<u16>) -> Seq<char> {
    if is_ipv4_mapped(s) {
        "::ffff:"@ + ipv4_text(seq![(s[6] / 256) as u8, (s[6] % 256) as u8, (s[7] / 256) as u8, (s[7] % 256) as u8])
    } else {
        let start = longest_zero_run(s);
        let len = zero_run(s, start);
        if len > 1 {
            hex_join(s.take(start)) + "::"@ + hex_join(s.skip(start + len))
        } else {
            hex_join(s)
        }
    }
}

/// The segments from `a` up to `b` are all zero.
pub open spec fn all_zero(s: Seq<u16>, a: int, b: int) -> bool {
    forall|t: int| a <= t < b ==> s[t] == 0
}

/// Texts joined with a colon between each two.
pub open spec fn join_with_colons(fs: Seq<Seq<char>>) -> Seq<char>
    decreases fs.len(),
{
    if fs.len() == 0 {
        Seq::empty()
    } else if fs.len() == 1 {
        fs[0]
    } else {
        join_with_colons(fs.drop_last()) + seq![':'] + fs.last()
    }
}

proof fn lemma_zero_run_all_zero(s: Seq<u16>, i: int, m: int)
    requires
        0 <= i <= s.len(),
        0 <= m,
    ensures
        (i + m <= s.len() && all_zero(s, i, i + m)) <==> zero_run(s, i) >= m,
    decreases m,
{
    if m > 0 {
        if i + m <= s.len() && all_zero(s, i, i + m) {
            assert(s[i] == 0);
            assert(all_zero(s, i + 1, i + 1 + (m - 1)));
            lemma_zero_run_all_zero(s, i + 1, m - 1);
            assert(zero_run(s, i) == 1 + zero_run(s, i + 1));
        }
        if zero_run(s, i) >= m {
            assert(0 <= i < s.len() && s[i] == 0);
            assert(zero_run(s, i) == 1 + zero_run(s, i + 1));
            lemma_zero_run_all_zero(s, i + 1, m - 1);
            assert(all_zero(s, i + 1, i + 1 + (m - 1)));
            assert forall|t: int| i <= t < i + m implies s[t] == 0 by {
                if t > i {
                    assert(all_zero(s, i + 1, i + 1 + (m - 1)));
                }
            }
        }
    }
}

proof fn lemma_longest_exists_upto(s: Seq<u16>, k: int) -> (b: int)
    requires
        1 <= k <= s.len(),
    ensures
        0 <= b < k,
        forall|j: int| 0 <= j < k ==> zero_run(s, j) <= zero_run(s, b),
        forall|j: int| 0 <= j < b ==> zero_run(s, j) < zero_run(s, b),
    decreases k,
{
    if k == 1 {
        0
    } else {
        let b0 = lemma_longest_exists_upto(s, k - 1);
        if zero_run(s, k - 1) > zero_run(s, b0) {
            k - 1
        } else {
            b0
        }
    }
}

/// The text of an IPv6 address that is not IPv4-mapped is its segments in
/// hexadecimal, each field reading back as its segment, joined by colons;
/// when the address has a run of two or more zero segments, the first of
/// the longest such runs is left out and its place marked by `::`. No run
/// of zeros is longer than the one left out, and none before it is as long.
pub proof fn lemma_ipv6_text_shape(s: Seq<u16>)
    requires
        s.len() == 8,
        !(s[0] == 0 && s[1] == 0 && s[2] == 0 && s[3] == 0 && s[4] == 0 && s[5] == 0xffff),
    ensures
        exists|start: int, end: int| {
            &&& 0 <= start <= end <= 8
            &&& #[trigger] all_zero(s, start, end)
            &&& forall|j: int, e: int| 0 <= j <= e <= 8 && #[trigger] all_zero(s, j, e) ==> e - j <= end - start
            &&& forall|j: int, e: int| 0 <= j < start && e - j == end - start && e <= 8 && end > start
                ==> !#[trigger] all_zero(s, j, e)
            &&& end - start >= 2 ==> ipv6_text(s) == hex_join(s.take(start)) + seq![':', ':'] + hex_join(s.skip(end))
            &&& end - start < 2 ==> ipv6_text(s) == hex_join(s)
        },
{
    assert("::"@ =~= seq![':', ':']) by {
        reveal_strlit("::");
    }
    let b = lemma_longest_exists_upto(s, 8);
    assert(is_longest_zero_run(s, b));
    let start = longest_zero_run(s);
    lemma_longest_unique(s, start, b);
    let len = zero_run(s, start) as int;
    lemma_zero_run_all_zero(s, start, len);
    lemma_zero_run_bound(s, start);
    assert forall|j: int, e: int| 0 <= j <= e <= 8 && #[trigger] all_zero(s, j, e) implies e - j <= len by {
        lemma_zero_run_all_zero(s, j, e - j);
        if j >= 8 {
            lemma_zero_run_bound(s, j);
        }
    }
    assert forall|j: int, e: int| 0 <= j < start && e - j == len && e <= 8 && len > 0
        implies !#[trigger] all_zero(s, j, e) by {
        lemma_zero_run_all_zero(s, j, len);
    }
    assert(all_zero(s, start, start + len));
}

/// An IPv4-mapped IPv6 address is written `::ffff:` and the dotted text of
/// the IPv4 address held in its last two segments, high byte first.
pub proof fn lemma_ipv6_mapped_text(s: Seq<u16>)
    requires
        s.len() == 8,
        s[0] == 0 && s[1] == 0 && s[2] == 0 && s[3] == 0 && s[4] == 0 && s[5] == 0xffff,
    ensures
        exists|o: Seq<u8>| {
            &&& o.len() == 4
            &&& o[0] * 256 + o[1] == s[6]
            &&& o[2] * 256 + o[3] == s[7]
            &&& ipv6_text(s) == seq![':', ':', 'f', 'f', 'f', 'f', ':'] + #[trigger] ipv4_text(o)
        },
{
    assert("::ffff:"@ =~= seq![':', ':', 'f', 'f', 'f', 'f', ':']) by {
        reveal_strlit("::ffff:");
    }
    let o = seq![(s[6] / 256) as u8, (s[6] % 256) as u8, (s[7] / 256) as u8, (s[7] % 256) as u8];
    assert(o[0] * 256 + o[1] == s[6]);
    assert(o[2] * 256 + o[3] == s[7]);
    assert(ipv6_text(s) == seq![':', ':', 'f', 'f', 'f', 'f', ':'] + ipv4_text(o));
}

/// Segments in hexadecimal joined by colons: each field is the
/// hexadecimal text of its segment, in order, and reads back as it.
pub proof fn lemma_hex_join_fields(x: Seq<u16>)
    ensures
        hex_join(x) == join_with_colons(Seq::new(x.len(), |i: int| hex_spec(x[i] as nat))),
        forall|i: int| 0 <= i < x.len() ==> digits_value(#[trigger] hex_spec(x[i] as nat), 16) == x[i],
    decreases x.len(),
{
    assert(":"@ =~= seq![':']) by {
        reveal_strlit(":");
    }
    let fs = Seq::new(x.len(), |i: int| hex_spec(x[i] as nat));
    if x.len() > 1 {
        lemma_hex_join_fields(x.drop_last());
        assert(fs.drop_last() =~= Seq::new(x.drop_last().len(), |i: int| hex_spec(x.drop_last()[i] as nat)));
    } else if x.len() == 1 {
        assert(fs[0] == hex_spec(x[0] as nat));
    }
    assert forall|i: int| 0 <= i < x.len() implies digits_value(#[trigger] hex_spec(x[i] as nat), 16) == x[i] by {
        lemma_digits_read_back(x[i] as nat, 16);
    }
}

/// The usual text of an address.
pub open spec fn ip_text(ip: IpAddress) -> Seq<char> {
    match ip {
        IpAddress::V4(o) => ipv4_text(o@),
        IpAddress::V6(s) => ipv6_text(s@),
    }
}

fn ipv4_to_text(o: [u8; 4]) -> (r: String)
    ensures
        r@ == ipv4_text(o@),
{
    let mut r = decimal(o[0] as u64);
    r = concat(r.as_str(), ".");
    r = concat(r.as_str(), decimal(o[1] as u64).as_str());
    r = concat(r.as_str(), ".");
    r = concat(r.as_str(), decimal(o[2] as u64).as_str());
    r = concat(r.as_str(), ".");
    r = concat(r.as_str(), decimal(o[3] as u64).as_str());
    r
}

fn hex_join_range(s: &[u16; 8], from: usize, to: usize) -> (r: String)
    requires
        from <= to <= 8,
    ensures
        r@ == hex_join(s@.subrange(from as int, to as int)),
{
    let mut r = String::new();
    let mut k = from;
    while k < to
        invariant
            from <= k <= to <= 8,
            r@ == hex_join(s@.subrange(from as int, k as int)),
        decreases to - k,
    {
        let ghost before = s@.subrange(from as int, k as int);
        let ghost after = s@.subrange(from as int, k + 1);
        assert(after.drop_last() =~= before);
        if k > from {
            r = concat(r.as_str(), ":");
        } else {
            assert(before.len() == 0);
        }
        r = concat(r.as_str(), hex(s[k] as u64).as_str());
        k = k + 1;
    }
    r
}

proof fn lemma_zero_run_bound(s: Seq<u16>, i: int)
    requires
        0 <= i,
    ensures
        i <= s.len() ==> i + zero_run(s, i) <= s.len(),
        i >= s.len() ==> zero_run(s, i) == 0,
    decreases s.len() - i,
{
    if 0 <= i < s.len() && s[i] == 0 {
        lemma_zero_run_bound(s, i + 1);
    }
}

proof fn lemma_longest_unique(s: Seq<u16>, a: int, b: int)
    requires
        is_longest_zero_run(s, a),
        is_longest_zero_run(s, b),
    ensures
        a == b,
{
    if a < b {
        assert(zero_run(s, a) < zero_run(s, b));
    } else if b < a {
        assert(zero_run(s, b) < zero_run(s, a));
    }
}

/// Finds the first longest run of zero segments: its start and length.
fn find_longest_zero_run(s: &[u16; 8]) -> (r: (usize, usize))
    ensures
        is_longest_zero_run(s@, r.0 as int),
        r.1 == zero_run(s@, r.0 as int),
        r.0 + r.1 <= 8,
{
    // Lengths of the zero runs starting at each position, computed from the end.
    let mut runs: Vec<usize> = Vec::new();
    let mut i: usize = 0;
    while i < 8
        invariant
            i <= 8,
            runs.len() == i,
        decreases 8 - i,
    {
        runs.push(0);
        i = i + 1;
    }
    let mut k: usize = 8;
    while k > 0
        invariant
            k <= 8,
            runs.len() == 8,
            forall|j: int| k <= j < 8 ==> runs@[j] == zero_run(s@, j),
        decreases k,
    {
        k = k - 1;
        proof {
            lemma_zero_run_bound(s@, k + 1);
        }
        if s[k] == 0 {
            let next = if k + 1 < 8 { runs[k + 1] } else { 0 };
            runs.set(k, next + 1);
        } else {
            runs.set(k, 0);
        }
        assert(zero_run(s@, k + 1) == if k + 1 < 8 { zero_run(s@, k + 1) } else { 0 });
    }
    let mut best: usize = 0;
    let mut j: usize = 1;
    while j < 8
        invariant
            1 <= j <= 8,
            best < j,
            runs.len() == 8,
            forall|t: int| 0 <= t < 8 ==> runs@[t] == zero_run(s@, t),
            forall|t: int| 0 <= t < j ==> zero_run(s@, t) <= zero_run(s@, best as int),
            forall|t: int| 0 <= t < best ==> zero_run(s@, t) < zero_run(s@, best as int),
        decreases 8 - j,
    {
        if runs[j] > runs[best] {
            best = j;
        }
        j = j + 1;
    }
    proof {
        lemma_zero_run_bound(s@, best as int);
    }
    (best, runs[best])
}

fn ipv6_to_text(s: [u16; 8]) -> (r: String)
    ensures
        r@ == ipv6_text(s@),
{
    if s[0] == 0 && s[1] == 0 && s[2] == 0 && s[3] == 0 && s[4] == 0 && s[5] == 0xffff {
        let octets: [u8; 4] = [(s[6] / 256) as u8, (s[6] % 256) as u8, (s[7] / 256) as u8, (s[7] % 256) as u8];
        let r = concat("::ffff:", ipv4_to_text(octets).as_str());
        assert(octets@ =~= seq![(s@[6] / 256) as u8, (s@[6] % 256) as u8, (s@[7] / 256) as u8, (s@[7] % 256) as u8]);
        r
    } else {
        let (start, len) = find_longest_zero_run(&s);
        proof {
            lemma_longest_unique(s@, start as int, longest_zero_run(s@));
        }
        if len > 1 {
            let head = hex_join_range(&s, 0, start);
            let tail = hex_join_range(&s, start + len, 8);
            assert(s@.subrange(0, start as int) =~= s@.take(start as int));
            assert(s@.subrange((start + len) as int, 8) =~= s@.skip(start + len));
            let r = concat(head.as_str(), "::");
            concat(r.as_str(), tail.as_str())
        } else {
            let r = hex_join_range(&s, 0, 8);
            assert(s@.subrange(0, 8) =~= s@);
            r
        }
    }
}

impl IpAddress {
    /// The usual text of the address, as `to_string` gives it for
    /// `std::net::IpAddr`.
    pub fn to_text(&self) -> (r: String)
        ensures
            r@ == ip_text(*self),
    {
        match self {
            IpAddress::V4(o) => ipv4_to_text(*o),
            IpAddress::V6(s) => ipv6_to_text(*s),
        }
    }
}

} // verus!
