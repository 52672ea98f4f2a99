//! Sorting a list of names and dropping repeats: the `sort` then `dedup`
//! that every search step applies to the names it collects.

use vstd::prelude::*;
use crate::text::{seq_lt, chars_lt, chars_of, lemma_seq_lt_irreflexive,
    lemma_seq_lt_transitive, lemma_seq_lt_total, lemma_seq_lt_asymmetric};

verus! {

/// The character sequences of a list of strings.
pub open spec fn views(v: Seq<String>) -> Seq<Seq<char>> {
    v.map_values(|s: String| s@)
}

/// Every element is strictly below every later one: sorted, with no repeats.
pub open spec fn strictly_sorted(s: Seq<Seq<char>>) -> bool {
    forall|i: int, j: int| 0 <= i < j < s.len() ==> seq_lt(#[trigger] s[i], #[trigger] s[j])
}

/// The two lists hold the same names, regardless of order and repeats.
pub open spec fn same_elements(a: Seq<Seq<char>>, b: Seq<Seq<char>>) -> bool {
    forall|x: Seq<char>| a.contains(x) <==> b.contains(x)
}

/// A sorted list without repeats is determined by the names it holds: two
/// such lists with the same names are equal.
pub proof fn lemma_sorted_unique_canonical(a: Seq<Seq<char>>, b: Seq<Seq<char>>)
    requires
        strictly_sorted(a),
        strictly_sorted(b),
        same_elements(a, b),
    ensures
        a == b,
    decreases a.len(),
{
    if a.len() == 0 {
        if b.len() > 0 {
            assert(b.contains(b[0]));
        }
        assert(a =~= b);
    } else {
        assert(a.contains(a[0]));
        assert(b.len() > 0);
        assert(b.contains(b[0]));
        let k = choose|k: int| 0 <= k < b.len() && b[k] == a[0];
        let m = choose|m: int| 0 <= m < a.len() && a[m] == b[0];
        if k > 0 {
            assert(seq_lt(b[0], b[k]));
            if m > 0 {
                assert(seq_lt(a[0], a[m]));
                lemma_seq_lt_asymmetric(a[0], b[0]);
            } else {
                lemma_seq_lt_irreflexive(a[0]);
            }
        }
        assert(a[0] == b[0]);
        let a1 = a.drop_first();
        let b1 = b.drop_first();
        assert forall|x: Seq<char>| a1.contains(x) implies b1.contains(x) by {
            let p = choose|p: int| 0 <= p < a1.len() && a1[p] == x;
            assert(a[p + 1] == x);
            assert(seq_lt(a[0], a[p + 1]));
            assert(a.contains(x));
            let q = choose|q: int| 0 <= q < b.len() && b[q] == x;
            if q == 0 {
                lemma_seq_lt_irreflexive(x);
            }
            assert(b1[q - 1] == x);
        }
        assert forall|x: Seq<char>| b1.contains(x) implies a1.contains(x) by {
            let p = choose|p: int| 0 <= p < b1.len() && b1[p] == x;
            assert(b[p + 1] == x);
            assert(seq_lt(b[0], b[p + 1]));
            assert(b.contains(x));
            let q = choose|q: int| 0 <= q < a.len() && a[q] == x;
            if q == 0 {
                lemma_seq_lt_irreflexive(x);
            }
            assert(a1[q - 1] == x);
        }
        lemma_sorted_unique_canonical(a1, b1);
        assert(a =~= seq![a[0]] + a1);
        assert(b =~= seq![b[0]] + b1);
    }
}

/// The names of two lists side by side are those of either list.
pub proof fn lemma_concat_contains(a: Seq<Seq<char>>, b: Seq<Seq<char>>, x: Seq<char>)
    ensures
        (a + b).contains(x) <==> a.contains(x) || b.contains(x),
{
    if (a + b).contains(x) {
        let p = choose|p: int| 0 <= p < (a + b).len() && (a + b)[p] == x;
        if p < a.len() {
            assert(a[p] == x);
        } else {
            assert(b[p - a.len()] == x);
        }
    }
    if a.contains(x) {
        let p = choose|p: int| 0 <= p < a.len() && a[p] == x;
        assert((a + b)[p] == x);
    }
    if b.contains(x) {
        let p = choose|p: int| 0 <= p < b.len() && b[p] == x;
        assert((a + b)[a.len() + p] == x);
    }
}

/// Lists with the same names, put side by side, hold the same names.
pub proof fn lemma_same_elements_concat(
    a1: Seq<Seq<char>>,
    b1: Seq<Seq<char>>,
    a2: Seq<Seq<char>>,
    b2: Seq<Seq<char>>,
)
    requires
        same_elements(a1, b1),
        same_elements(a2, b2),
    ensures
        same_elements(a1 + a2, b1 + b2),
{
    assert forall|x: Seq<char>| (a1 + a2).contains(x) <==> (b1 + b2).contains(x) by {
        lemma_concat_contains(a1, a2, x);
        lemma_concat_contains(b1, b2, x);
    }
}

/// Sorts the names and drops repeats. The result holds exactly the names of
/// `list`, each once, in ascending lexicographic order; by
/// `lemma_sorted_unique_canonical` that fixes it completely.
pub fn sort_dedup(list: Vec<String>) -> (r: Vec<String>)
    ensures
        strictly_sorted(views(r@)),
        same_elements(views(r@), views(list@)),
        strictly_sorted(views(list@)) ==> views(r@) == views(list@),
{
    let mut out: Vec<String> = Vec::new();
    let mut keys: Vec<Vec<char>> = Vec::new();
    let n = list.len();
    let mut i: usize = 0;
    while i < n
        invariant
            n == list.len(),
            i <= n,
            keys.len() == out.len(),
            forall|t: int| 0 <= t < keys.len() ==> (#[trigger] keys@[t])@ == out@[t]@,
            strictly_sorted(views(out@)),
            same_elements(views(out@), views(list@).take(i as int)),
        decreases n - i,
    {
        let key = chars_of(list[i].as_str());
        let mut j: usize = 0;
        while j < keys.len() && chars_lt(&keys[j], &key)
            invariant
                j <= keys.len(),
                keys.len() == out.len(),
                forall|t: int| 0 <= t < keys.len() ==> (#[trigger] keys@[t])@ == out@[t]@,
                forall|t: int| 0 <= t < j ==> seq_lt(#[trigger] keys@[t]@, key@),
            decreases keys.len() - j,
        {
            j = j + 1;
        }
        let ghost before = views(out@);
        let ghost prefix = views(list@).take(i as int);
        let ghost next_prefix = views(list@).take(i + 1);
        assert(next_prefix =~= prefix.push(key@));
        if j < keys.len() && !chars_lt(&key, &keys[j]) {
            proof {
                assert(!seq_lt(keys@[j as int]@, key@));
                if keys@[j as int]@ != key@ {
                    lemma_seq_lt_total(keys@[j as int]@, key@);
                }
                assert(before[j as int] == key@);
                assert forall|x: Seq<char>| before.contains(x) <==> next_prefix.contains(x) by {
                    if next_prefix.contains(x) && !prefix.contains(x) {
                        let p = choose|p: int| 0 <= p < next_prefix.len() && next_prefix[p] == x;
                        assert(p == i);
                        assert(before.contains(before[j as int]));
                    }
                    if prefix.contains(x) {
                        let p = choose|p: int| 0 <= p < prefix.len() && prefix[p] == x;
                        assert(next_prefix[p] == x);
                    }
                }
            }
        } else {
            let s = list[i].clone();
            proof {
                if j < keys.len() {
                    assert(!seq_lt(keys@[j as int]@, key@));
                    if keys@[j as int]@ == key@ {
                        lemma_seq_lt_irreflexive(key@);
                    }
                }
            }
            out.insert(j, s);
            keys.insert(j, key);
            proof {
                let after = views(out@);
                assert(after =~= before.insert(j as int, key@));
                assert forall|a: int, b: int| 0 <= a < b < after.len() implies seq_lt(
                    #[trigger] after[a],
                    #[trigger] after[b],
                ) by {
                    if b == j {
                        assert(after[a] == before[a]);
                        assert(seq_lt(keys@[a]@, key@));
                    } else if a == j {
                        assert(after[b] == before[b - 1]);
                        if b - 1 > j {
                            assert(seq_lt(before[j as int], before[b - 1]));
                            lemma_seq_lt_transitive(key@, before[j as int], before[b - 1]);
                        }
                    } else if a < j && b > j {
                        assert(seq_lt(keys@[a]@, key@));
                        assert(after[b] == before[b - 1]);
                        assert(seq_lt(before[a], before[b - 1]));
                    } else if a > j {
                        assert(after[a] == before[a - 1]);
                        assert(after[b] == before[b - 1]);
                    }
                }
                assert forall|x: Seq<char>| after.contains(x) <==> next_prefix.contains(x) by {
                    if after.contains(x) {
                        let p = choose|p: int| 0 <= p < after.len() && after[p] == x;
                        if p == j {
                            assert(next_prefix[i as int] == x);
                        } else if p < j {
                            assert(before[p] == x);
                            assert(before.contains(x));
                            let q = choose|q: int| 0 <= q < prefix.len() && prefix[q] == x;
                            assert(next_prefix[q] == x);
                        } else {
                            assert(before[p - 1] == x);
                            assert(before.contains(x));
                            let q = choose|q: int| 0 <= q < prefix.len() && prefix[q] == x;
                            assert(next_prefix[q] == x);
                        }
                    }
                    if next_prefix.contains(x) {
                        let p = choose|p: int| 0 <= p < next_prefix.len() && next_prefix[p] == x;
                        if p == i {
                            assert(after[j as int] == x);
                        } else {
                            assert(prefix[p] == x);
                            assert(prefix.contains(x));
                            let q = choose|q: int| 0 <= q < before.len() && before[q] == x;
                            if q < j {
                                assert(after[q] == x);
                            } else {
                                assert(after[q + 1] == x);
                            }
                        }
                    }
                }
            }
        }
        i = i + 1;
    }
    proof {
        assert(views(list@).take(n as int) =~= views(list@));
        if strictly_sorted(views(list@)) {
            lemma_sorted_unique_canonical(views(out@), views(list@));
        }
    }
    out
}

} // verus!
