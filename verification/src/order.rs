//! Ordering of rows by text keys: the lexicographic order of `str` and of
//! pairs of strings, and a sort that returns the order of the rows.
use vstd::prelude::*;
use crate::text::{seq_lt, seq_le, str_eq, str_lt};

verus! {

pub proof fn lemma_seq_lt_irreflexive(a: Seq<char>)
    ensures
        !seq_lt(a, a),
    decreases a.len(),
{
    if a.len() > 0 {
        lemma_seq_lt_irreflexive(a.drop_first());
    }
}

pub proof fn lemma_seq_lt_transitive(a: Seq<char>, b: Seq<char>, c: Seq<char>)
    requires
        seq_lt(a, b),
        seq_lt(b, c),
    ensures
        seq_lt(a, c),
    decreases a.len(),
{
    if a.len() > 0 && b.len() > 0 && c.len() > 0 {
        if a[0] == b[0] && b[0] == c[0] {
            lemma_seq_lt_transitive(a.drop_first(), b.drop_first(), c.drop_first());
        }
    }
}

pub proof fn lemma_seq_lt_total(a: Seq<char>, b: Seq<char>)
    ensures
        seq_lt(a, b) || seq_lt(b, a) || a == b,
    decreases a.len(),
{
    if a.len() > 0 && b.len() > 0 {
        if a[0] == b[0] {
            lemma_seq_lt_total(a.drop_first(), b.drop_first());
            if a.drop_first() == b.drop_first() {
                assert(a =~= seq![a[0]] + a.drop_first());
                assert(b =~= seq![b[0]] + b.drop_first());
            }
        } else {
            let x = a[0];
            let y = b[0];
            vstd::utf8::char_u32_cast(x, x as u32);
            vstd::utf8::char_u32_cast(y, y as u32);
            assert((x as u32) != (y as u32));
        }
    } else if a.len() == 0 && b.len() == 0 {
        assert(a =~= b);
    }
}

pub proof fn lemma_seq_lt_asymmetric(a: Seq<char>, b: Seq<char>)
    requires
        seq_lt(a, b),
    ensures
        !seq_lt(b, a),
{
    if seq_lt(b, a) {
        lemma_seq_lt_transitive(a, b, a);
        lemma_seq_lt_irreflexive(a);
    }
}

/// Lexicographic order of pairs of strings.
pub open spec fn pair_lt(a: (Seq<char>, Seq<char>), b: (Seq<char>, Seq<char>)) -> bool {
    seq_lt(a.0, b.0) || (a.0 == b.0 && seq_lt(a.1, b.1))
}

pub proof fn lemma_pair_lt_transitive(a: (Seq<char>, Seq<char>), b: (Seq<char>, Seq<char>), c: (Seq<char>, Seq<char>))
    requires
        pair_lt(a, b),
        pair_lt(b, c),
    ensures
        pair_lt(a, c),
{
    if seq_lt(a.0, b.0) && seq_lt(b.0, c.0) {
        lemma_seq_lt_transitive(a.0, b.0, c.0);
    } else if seq_lt(a.0, b.0) {
    } else if seq_lt(b.0, c.0) {
    } else {
        lemma_seq_lt_transitive(a.1, b.1, c.1);
    }
}

pub proof fn lemma_pair_lt_total(a: (Seq<char>, Seq<char>), b: (Seq<char>, Seq<char>))
    ensures
        pair_lt(a, b) || pair_lt(b, a) || a == b,
{
    lemma_seq_lt_total(a.0, b.0);
    lemma_seq_lt_total(a.1, b.1);
}

pub proof fn lemma_pair_lt_asymmetric(a: (Seq<char>, Seq<char>), b: (Seq<char>, Seq<char>))
    requires
        pair_lt(a, b),
    ensures
        !pair_lt(b, a),
{
    if seq_lt(a.0, b.0) {
        lemma_seq_lt_asymmetric(a.0, b.0);
        if b.0 == a.0 {
            lemma_seq_lt_irreflexive(a.0);
        }
    } else {
        lemma_seq_lt_asymmetric(a.1, b.1);
        lemma_seq_lt_irreflexive(a.0);
    }
}

pub fn pair_lt_exec(a: (&str, &str), b: (&str, &str)) -> (r: bool)
    ensures
        r == pair_lt((a.0@, a.1@), (b.0@, b.1@)),
{
    str_lt(a.0, b.0) || (str_eq(a.0, b.0) && str_lt(a.1, b.1))
}

pub open spec fn pairs_view(keys: Seq<(String, String)>) -> Seq<(Seq<char>, Seq<char>)> {
    keys.map_values(|p: (String, String)| (p.0@, p.1@))
}

/// `r` lists each index below `n` exactly once.
pub open spec fn is_index_permutation(r: Seq<usize>, n: nat) -> bool {
    &&& r.len() == n
    &&& forall|i: int| 0 <= i < r.len() ==> (#[trigger] r[i]) < n
    &&& forall|i: int, j: int| 0 <= i < j < r.len() ==> r[i] != r[j]
}

/// The keys, read in the order `r`, never increase (`descending`) or never
/// decrease, and rows with equal keys keep the order they came in.
pub open spec fn ordered_by(keys: Seq<(Seq<char>, Seq<char>)>, r: Seq<usize>, descending: bool) -> bool {
    &&& forall|i: int, j: int|
        0 <= i < j < r.len() ==> if descending {
            !pair_lt(keys[r[i] as int], keys[r[j] as int])
        } else {
            !pair_lt(keys[r[j] as int], keys[r[i] as int])
        }
    &&& forall|i: int, j: int|
        0 <= i < j < r.len() && keys[r[i] as int] == keys[r[j] as int] ==> r[i] < r[j]
}

/// The row at `earlier` must come after the row at `later`.
fn out_of_place(keys: &Vec<(String, String)>, earlier: usize, later: usize, descending: bool) -> (r: bool)
    requires
        earlier < keys@.len(),
        later < keys@.len(),
    ensures
        r == (if descending {
            pair_lt(pairs_view(keys@)[earlier as int], pairs_view(keys@)[later as int])
        } else {
            pair_lt(pairs_view(keys@)[later as int], pairs_view(keys@)[earlier as int])
        }),
{
    let a = (keys[earlier].0.as_str(), keys[earlier].1.as_str());
    let b = (keys[later].0.as_str(), keys[later].1.as_str());
    if descending {
        pair_lt_exec(a, b)
    } else {
        pair_lt_exec(b, a)
    }
}

/// The order in which to read rows so that their keys are sorted,
/// descending or ascending.
pub fn order_by_pairs(keys: &Vec<(String, String)>, descending: bool) -> (r: Vec<usize>)
    ensures
        is_index_permutation(r@, keys@.len()),
        ordered_by(pairs_view(keys@), r@, descending),
{
    let ghost kv = pairs_view(keys@);
    let mut s: Vec<usize> = Vec::new();
    let mut n: usize = 0;
    while n < keys.len()
        invariant
            kv == pairs_view(keys@),
            n <= keys@.len(),
            is_index_permutation(s@, n as nat),
            ordered_by(kv, s@, descending),
        decreases keys@.len() - n,
    {
        let mut p: usize = s.len();
        while p > 0 && out_of_place(keys, s[p - 1], n, descending)
            invariant
                kv == pairs_view(keys@),
                n < keys@.len(),
                is_index_permutation(s@, n as nat),
                ordered_by(kv, s@, descending),
                p <= s@.len(),
                forall|j: int| p <= j < s@.len() ==> if descending {
                    pair_lt(kv[s@[j] as int], kv[n as int])
                } else {
                    pair_lt(kv[n as int], kv[s@[j] as int])
                },
            decreases p,
        {
            p -= 1;
        }
        let ghost old_s = s@;
        proof {
            if p > 0 {
                if descending {
                    assert(!pair_lt(kv[old_s[p - 1] as int], kv[n as int]));
                } else {
                    assert(!pair_lt(kv[n as int], kv[old_s[p - 1] as int]));
                }
            }
        }
        s.insert(p, n);
        proof {
            assert(s@ =~= old_s.take(p as int) + seq![n] + old_s.skip(p as int));
            assert forall|i: int| 0 <= i < s@.len() implies (#[trigger] s@[i]) < n + 1 by {
                if i < p {
                    assert(s@[i] == old_s[i]);
                } else if i > p {
                    assert(s@[i] == old_s[i - 1]);
                }
            }
            assert forall|i: int, j: int| 0 <= i < j < s@.len() implies s@[i] != s@[j] by {
                if i < p && j < p {
                    assert(s@[i] == old_s[i] && s@[j] == old_s[j]);
                } else if i < p && j == p {
                    assert(s@[i] == old_s[i]);
                } else if i < p {
                    assert(s@[i] == old_s[i] && s@[j] == old_s[j - 1]);
                } else if i == p {
                    assert(s@[j] == old_s[j - 1]);
                } else {
                    assert(s@[i] == old_s[i - 1] && s@[j] == old_s[j - 1]);
                }
            }
            assert forall|i: int, j: int| 0 <= i < j < s@.len() implies (if descending {
                !pair_lt(kv[s@[i] as int], kv[s@[j] as int])
            } else {
                !pair_lt(kv[s@[j] as int], kv[s@[i] as int])
            }) by {
                let a = |x: int| if x < p { old_s[x] } else if x == p { n } else { old_s[x - 1] };
                assert(s@[i] == a(i));
                assert(s@[j] == a(j));
                if i < p && j < p {
                } else if i < p && j == p {
                    // old_s[i] >= old_s[p-1] >= new
                    if descending {
                        if pair_lt(kv[old_s[i] as int], kv[n as int]) {
                            if i < p - 1 {
                                lemma_pair_lt_total(kv[old_s[i] as int], kv[old_s[p - 1] as int]);
                                if pair_lt(kv[old_s[i] as int], kv[old_s[p - 1] as int]) {
                                } else if kv[old_s[i] as int] == kv[old_s[p - 1] as int] {
                                } else {
                                    lemma_pair_lt_transitive(kv[old_s[p - 1] as int], kv[old_s[i] as int], kv[n as int]);
                                }
                            }
                        }
                    } else {
                        if pair_lt(kv[n as int], kv[old_s[i] as int]) {
                            if i < p - 1 {
                                lemma_pair_lt_total(kv[old_s[i] as int], kv[old_s[p - 1] as int]);
                                if pair_lt(kv[old_s[p - 1] as int], kv[old_s[i] as int]) {
                                } else if kv[old_s[i] as int] == kv[old_s[p - 1] as int] {
                                } else {
                                    lemma_pair_lt_transitive(kv[n as int], kv[old_s[i] as int], kv[old_s[p - 1] as int]);
                                }
                            }
                        }
                    }
                } else if i < p && j > p {
                } else if i == p {
                    if descending {
                        lemma_pair_lt_asymmetric(kv[old_s[j - 1] as int], kv[n as int]);
                    } else {
                        lemma_pair_lt_asymmetric(kv[n as int], kv[old_s[j - 1] as int]);
                    }
                } else {
                }
            }
            assert forall|i: int, j: int|
                0 <= i < j < s@.len() && kv[s@[i] as int] == kv[s@[j] as int] implies s@[i] < s@[j] by {
                if i < p && j < p {
                    assert(s@[i] == old_s[i] && s@[j] == old_s[j]);
                } else if i < p && j == p {
                    assert(s@[i] == old_s[i]);
                } else if i < p {
                    assert(s@[i] == old_s[i] && s@[j] == old_s[j - 1]);
                } else if i == p {
                    assert(s@[j] == old_s[j - 1]);
                    if descending {
                        lemma_pair_lt_asymmetric(kv[old_s[j - 1] as int], kv[n as int]);
                    } else {
                        lemma_pair_lt_asymmetric(kv[n as int], kv[old_s[j - 1] as int]);
                    }
                } else {
                    assert(s@[i] == old_s[i - 1] && s@[j] == old_s[j - 1]);
                }
            }
        }
        n += 1;
    }
    s
}

/// The rows of `v` read in the order `order`, moved rather than copied.
pub fn permute<T>(v: Vec<T>, order: &Vec<usize>) -> (r: Vec<T>)
    requires
        is_index_permutation(order@, v@.len()),
    ensures
        r@ == order@.map_values(|i: usize| v@[i as int]),
{
    let ghost orig = v@;
    let n = v.len();
    let mut v = v;
    let mut slots: Vec<Option<T>> = Vec::new();
    while v.len() > 0
        invariant
            v@.len() + slots@.len() == n,
            n == orig.len(),
            v@ == orig.take(v@.len() as int),
            forall|k: int| 0 <= k < slots@.len() ==> #[trigger] slots@[k] == Some(orig[n - 1 - k]),
        decreases v@.len(),
    {
        let x = v.pop().unwrap();
        slots.push(Some(x));
        proof {
            assert(v@ =~= orig.take(v@.len() as int));
        }
    }
    let mut out: Vec<T> = Vec::new();
    let mut t: usize = 0;
    while t < order.len()
        invariant
            is_index_permutation(order@, n as nat),
            n == orig.len(),
            slots@.len() == n,
            t <= order@.len(),
            out@.len() == t,
            forall|j: int| 0 <= j < t ==> #[trigger] out@[j] == orig[order@[j] as int],
            forall|k: int|
                0 <= k < n && (forall|j: int| 0 <= j < t ==> order@[j] != n - 1 - k) ==> #[trigger] slots@[k] == Some(
                    orig[n - 1 - k],
                ),
        decreases order@.len() - t,
    {
        let i = order[t];
        let k = n - 1 - i;
        proof {
            assert(forall|j: int| 0 <= j < t ==> order@[j] != order@[t as int]);
        }
        let slot = vec_take(&mut slots, k);
        let x = slot.unwrap();
        out.push(x);
        t += 1;
    }
    proof {
        assert(out@ =~= order@.map_values(|i: usize| orig[i as int]));
    }
    out
}

/// Take the value out of slot `k`, leaving none.
fn vec_take<T>(slots: &mut Vec<Option<T>>, k: usize) -> (r: Option<T>)
    requires
        k < old(slots)@.len(),
    ensures
        r == old(slots)@[k as int],
        final(slots)@ == old(slots)@.update(k as int, None),
{
    let mut out: Option<T> = None;
    std::mem::swap(&mut out, &mut slots[k]);
    out
}

} // verus!
