//! Character sequences: the lexicographic order that `String`'s `Ord` uses,
//! and helpers that move between `String` values and their views.

use vstd::prelude::*;
use vstd::string::StringExecFns;

verus! {

/// Lexicographic "strictly less" on character sequences, comparing scalar
/// values: the order of `str`'s `Ord` (UTF-8 byte order equals scalar order).
pub open spec fn seq_lt(a: Seq<char>, b: Seq<char>) -> bool
    decreases a.len(),
{
    if a.len() == 0 {
        b.len() > 0
    } else if b.len() == 0 {
        false
    } else if a[0] != b[0] {
        (a[0] as int) < (b[0] as int)
    } else {
        seq_lt(a.drop_first(), b.drop_first())
    }
}

/// The order is irreflexive.
pub proof fn lemma_seq_lt_irreflexive(a: Seq<char>)
    ensures
        !seq_lt(a, a),
    decreases a.len(),
{
    if a.len() > 0 {
        lemma_seq_lt_irreflexive(a.drop_first());
    }
}

/// The order is transitive.
pub proof fn lemma_seq_lt_transitive(a: Seq<char>, b: Seq<char>, c: Seq<char>)
    requires
        seq_lt(a, b),
        seq_lt(b, c),
    ensures
        seq_lt(a, c),
    decreases a.len(),
{
    if a.len() > 0 && b.len() > 0 && c.len() > 0 {
        if a[0] == b[0] && b[0] == c[0] {
            lemma_seq_lt_transitive(a.drop_first(), b.drop_first(), c.drop_first());
        }
    }
}

/// Any two distinct sequences are ordered one way or the other.
pub proof fn lemma_seq_lt_total(a: Seq<char>, b: Seq<char>)
    requires
        a != b,
    ensures
        seq_lt(a, b) || seq_lt(b, a),
    decreases a.len(),
{
    if a.len() > 0 && b.len() > 0 {
        if a[0] == b[0] {
            if a.drop_first() == b.drop_first() {
                assert(a =~= seq![a[0]] + a.drop_first());
                assert(b =~= seq![b[0]] + b.drop_first());
            }
            lemma_seq_lt_total(a.drop_first(), b.drop_first());
        } else {
            assert((a[0] as int) != (b[0] as int));
        }
    } else if a.len() == 0 && b.len() == 0 {
        assert(a =~= b);
    }
}

/// The order is the one of `str`: a proper prefix comes first, and between
/// sequences that first differ at some place, the one with the smaller
/// character there comes first.
pub proof fn lemma_seq_lt_is_lexicographic(p: Seq<char>, a: Seq<char>, b: Seq<char>, x: char, y: char)
    ensures
        b.len() > 0 ==> seq_lt(p, p + b),
        seq_lt(p + seq![x] + a, p + seq![y] + b) <== (x as int) < (y as int),
        !seq_lt(p + seq![x] + a, p + seq![y] + b) <== (y as int) < (x as int),
    decreases p.len(),
{
    if p.len() == 0 {
        assert(p + b =~= b);
        assert(p + seq![x] + a =~= seq![x] + a);
        assert(p + seq![y] + b =~= seq![y] + b);
        assert((seq![x] + a)[0] == x);
        assert((seq![y] + b)[0] == y);
    } else {
        lemma_seq_lt_is_lexicographic(p.drop_first(), a, b, x, y);
        assert((p + b).drop_first() =~= p.drop_first() + b);
        assert((p + seq![x] + a).drop_first() =~= p.drop_first() + seq![x] + a);
        assert((p + seq![y] + b).drop_first() =~= p.drop_first() + seq![y] + b);
        assert((p + b)[0] == p[0]);
        assert((p + seq![x] + a)[0] == p[0]);
        assert((p + seq![y] + b)[0] == p[0]);
    }
}

/// The order is asymmetric.
pub proof fn lemma_seq_lt_asymmetric(a: Seq<char>, b: Seq<char>)
    requires
        seq_lt(a, b),
    ensures
        !seq_lt(b, a),
{
    if seq_lt(b, a) {
        lemma_seq_lt_transitive(a, b, a);
        lemma_seq_lt_irreflexive(a);
    }
}

proof fn lemma_seq_lt_skip(a: Seq<char>, b: Seq<char>, i: int)
    requires
        0 <= i <= a.len(),
        i <= b.len(),
        a.take(i) =~= b.take(i),
    ensures
        seq_lt(a, b) == seq_lt(a.skip(i), b.skip(i)),
    decreases i,
{
    if i > 0 {
        assert(a[0] == a.take(i)[0]);
        assert(b[0] == b.take(i)[0]);
        assert(a.drop_first().take(i - 1) =~= b.drop_first().take(i - 1)) by {
            assert forall|k: int| 0 <= k < i - 1 implies a.drop_first()[k] == b.drop_first()[k] by {
                assert(a.take(i)[k + 1] == b.take(i)[k + 1]);
            }
        }
        lemma_seq_lt_skip(a.drop_first(), b.drop_first(), i - 1);
        assert(a.drop_first().skip(i - 1) =~= a.skip(i));
        assert(b.drop_first().skip(i - 1) =~= b.skip(i));
    } else {
        assert(a.skip(0) =~= a);
        assert(b.skip(0) =~= b);
    }
}

/// Compares two character vectors lexicographically.
pub fn chars_lt(a: &Vec<char>, b: &Vec<char>) -> (r: bool)
    ensures
        r == seq_lt(a@, b@),
{
    let mut i: usize = 0;
    while i < a.len() && i < b.len()
        invariant
            i <= a.len(),
            i <= b.len(),
            a@.take(i as int) =~= b@.take(i as int),
        decreases a.len() - i,
    {
        if a[i] != b[i] {
            proof {
                lemma_seq_lt_skip(a@, b@, i as int);
            }
            return a[i] < b[i];
        }
        i = i + 1;
    }
    proof {
        lemma_seq_lt_skip(a@, b@, i as int);
    }
    i < b.len()
}


/// The characters of a string, in order.
pub fn chars_of(s: &str) -> (r: Vec<char>)
    ensures
        r@ == s@,
{
    broadcast use vstd::string::group_string_axioms;
    let mut out: Vec<char> = Vec::new();
    let mut it = s.chars();
    let ghost all = s@;
    loop
        invariant
            vstd::std_specs::iter::IteratorSpec::obeys_prophetic_iter_laws(&it),
            all == s@,
            out@ + vstd::std_specs::iter::IteratorSpec::remaining(&it) == all,
            vstd::std_specs::iter::IteratorSpec::decrease(&it) is Some,
        decreases vstd::std_specs::iter::IteratorSpec::decrease(&it)->0,
    {
        match it.next() {
            Some(c) => {
                out.push(c);
            },
            None => {
                assert(out@ =~= all);
                return out;
            },
        }
    }
}


/// Appends one character (`String::push`).
#[verifier::external_body]
fn push_char(s: &mut String, c: char)
    ensures
        final(s)@ == old(s)@.push(c),
{
    s.push(c);
}

/// A string holding the given text.
pub fn string_of(t: &str) -> (r: String)
    ensures
        r@ == t@,
{
    String::from_str(t)
}

/// `a` followed by `b`.
pub fn concat(a: &str, b: &str) -> (r: String)
    ensures
        r@ == a@ + b@,
{
    let mut r = String::from_str(a);
    r.append(b);
    r
}

/// The digit character of a value below sixteen, lower-case for ten and up.
pub open spec fn digit_char(d: nat) -> char {
    if d == 0 { '0' } else if d == 1 { '1' } else if d == 2 { '2' } else if d == 3 { '3' }
    else if d == 4 { '4' } else if d == 5 { '5' } else if d == 6 { '6' } else if d == 7 { '7' }
    else if d == 8 { '8' } else if d == 9 { '9' } else if d == 10 { 'a' } else if d == 11 { 'b' }
    else if d == 12 { 'c' } else if d == 13 { 'd' } else if d == 14 { 'e' } else { 'f' }
}

fn digit(d: u64) -> (c: char)
    requires
        d < 16,
    ensures
        c == digit_char(d as nat),
{
    if d == 0 { '0' } else if d == 1 { '1' } else if d == 2 { '2' } else if d == 3 { '3' }
    else if d == 4 { '4' } else if d == 5 { '5' } else if d == 6 { '6' } else if d == 7 { '7' }
    else if d == 8 { '8' } else if d == 9 { '9' } else if d == 10 { 'a' } else if d == 11 { 'b' }
    else if d == 12 { 'c' } else if d == 13 { 'd' } else if d == 14 { 'e' } else { 'f' }
}

/// The digits of `n` in base `radix`, most significant first, without
/// leading zeros (zero is written `0`): what `{}` and `{:x}` print.
pub open spec fn digits_spec(n: nat, radix: nat) -> Seq<char>
    recommends
        2 <= radix <= 16,
    decreases n,
{
    if n < radix || radix < 2 {
        seq![digit_char(n)]
    } else {
        proof {
            assert(n / radix < n) by (nonlinear_arith)
                requires
                    n >= radix,
                    radix >= 2,
            ;
        }
        digits_spec(n / radix, radix).push(digit_char(n % radix))
    }
}

/// The decimal text of a number, as `to_string` writes it.
pub open spec fn decimal_spec(n: nat) -> Seq<char> {
    digits_spec(n, 10)
}

/// The lower-case hexadecimal text of a number, as `{:x}` writes it.
pub open spec fn hex_spec(n: nat) -> Seq<char> {
    digits_spec(n, 16)
}

/// The value of a digit character: `0`-`9` stand for zero to nine, and the
/// lower-case letters from `a` on for ten and up.
pub open spec fn digit_value(c: char) -> int {
    if '0' <= c && c <= '9' {
        (c as int) - ('0' as int)
    } else {
        (c as int) - ('a' as int) + 10
    }
}

/// The number that a run of digits in base `radix` stands for, most
/// significant first.
pub open spec fn digits_value(s: Seq<char>, radix: nat) -> int
    decreases s.len(),
{
    if s.len() == 0 {
        0
    } else {
        digits_value(s.drop_last(), radix) * radix + digit_value(s.last())
    }
}

/// The digit written for a value below sixteen is the standard one: `0` to
/// `9` for zero to nine, `a` to `f` for ten to fifteen.
pub proof fn lemma_digit_char_standard(d: nat)
    requires
        d < 16,
    ensures
        d < 10 ==> digit_char(d) as int == '0' as int + d,
        10 <= d ==> digit_char(d) as int == 'a' as int + (d - 10),
        digit_value(digit_char(d)) == d,
{
}

/// Writing a number in base `radix` and reading the digits back gives the
/// number again, and every digit is below the radix: the text names exactly
/// that number.
pub proof fn lemma_digits_read_back(n: nat, radix: nat)
    requires
        2 <= radix <= 16,
    ensures
        digits_value(digits_spec(n, radix), radix) == n,
        forall|i: int| 0 <= i < digits_spec(n, radix).len()
            ==> 0 <= #[trigger] digit_value(digits_spec(n, radix)[i]) < radix,
    decreases n,
{
    if n < radix {
        lemma_digit_char_standard(n);
        let s = digits_spec(n, radix);
        assert(s.drop_last() =~= Seq::<char>::empty());
        assert(digits_value(s.drop_last(), radix) == 0);
        assert(s.last() == digit_char(n));
        assert(digits_value(s, radix) == 0 * radix + digit_value(digit_char(n)));
    } else {
        assert(n / radix < n) by (nonlinear_arith)
            requires
                n >= radix,
                radix >= 2,
        ;
        lemma_digits_read_back(n / radix, radix);
        let q = n / radix;
        let m = n % radix;
        assert(m < radix) by (nonlinear_arith)
            requires
                radix >= 2,
                m == n % radix,
        ;
        lemma_digit_char_standard(m);
        let s = digits_spec(n, radix);
        assert(s == digits_spec(q, radix).push(digit_char(m)));
        assert(s.drop_last() =~= digits_spec(q, radix));
        assert(s.last() == digit_char(m));
        assert(digits_value(s, radix) == digits_value(digits_spec(q, radix), radix) * radix + digit_value(digit_char(m)));
        assert(q * radix + m == n) by (nonlinear_arith)
            requires
                q == n / radix,
                m == n % radix,
                radix >= 2,
        ;
        assert forall|i: int| 0 <= i < s.len() implies 0 <= #[trigger] digit_value(s[i]) < radix by {
            if i < s.len() - 1 {
                assert(s[i] == digits_spec(q, radix)[i]);
            }
        }
    }
}

/// Decimal text is made of the characters `0` to `9` only, and is never
/// empty.
pub proof fn lemma_decimal_digits(n: nat)
    ensures
        decimal_spec(n).len() > 0,
        forall|i: int| 0 <= i < decimal_spec(n).len() ==> '0' <= #[trigger] decimal_spec(n)[i] <= '9',
    decreases n,
{
    if n >= 10 {
        lemma_decimal_digits(n / 10);
        let m = n % 10;
        lemma_digit_char_standard(m);
        let s = decimal_spec(n);
        assert(s == decimal_spec(n / 10).push(digit_char(m)));
        assert forall|i: int| 0 <= i < s.len() implies '0' <= #[trigger] s[i] <= '9' by {
            if i < s.len() - 1 {
                assert(s[i] == decimal_spec(n / 10)[i]);
            }
        }
    } else {
        lemma_digit_char_standard(n);
    }
}

/// Writes `n` in base `radix`.
pub fn digits(n: u64, radix: u64) -> (r: String)
    requires
        2 <= radix <= 16,
    ensures
        r@ == digits_spec(n as nat, radix as nat),
{
    // Collect the digits least significant first, then emit them reversed.
    let mut rev: Vec<char> = Vec::new();
    let mut m: u64 = n;
    while m >= radix
        invariant
            2 <= radix <= 16,
            digits_spec(n as nat, radix as nat) == digits_spec(m as nat, radix as nat) + rev@.reverse(),
        decreases m,
    {
        let d = m % radix;
        rev.push(digit(d));
        assert(rev@.reverse() =~= seq![digit_char(d as nat)] + rev@.drop_last().reverse());
        assert(digits_spec(m as nat, radix as nat) == digits_spec((m / radix) as nat, radix as nat).push(digit_char(d as nat)));
        m = m / radix;
        assert(digits_spec(n as nat, radix as nat) =~= digits_spec(m as nat, radix as nat) + rev@.reverse());
    }
    rev.push(digit(m));
    assert(rev@.reverse() =~= seq![digit_char(m as nat)] + rev@.drop_last().reverse());
    assert(digits_spec(n as nat, radix as nat) =~= rev@.reverse());
    let mut r = String::new();
    let mut k: usize = rev.len();
    while k > 0
        invariant
            k <= rev.len(),
            r@ == rev@.reverse().take(rev.len() - k),
        decreases k,
    {
        k = k - 1;
        let c = rev[k];
        push_char(&mut r, c);
        assert(r@ =~= rev@.reverse().take(rev.len() - k));
    }
    assert(rev@.reverse().take(rev.len() as int) =~= rev@.reverse());
    r
}

/// The decimal text of a number.
pub fn decimal(n: u64) -> (r: String)
    ensures
        r@ == decimal_spec(n as nat),
{
    digits(n, 10)
}

/// The lower-case hexadecimal text of a number.
pub fn hex(n: u64) -> (r: String)
    ensures
        r@ == hex_spec(n as nat),
{
    digits(n, 16)
}

} // verus!
