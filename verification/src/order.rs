//! Orderings of index lists: which position comes first when items are
//! ranked by a key.
use vstd::prelude::*;
use vstd::set_lib::{lemma_int_range, lemma_len_subset, lemma_subset_equality, set_int_range};

verus! {

/// `order` lists each of `0..n` exactly once.
pub open spec fn is_permutation(order: Seq<usize>, n: nat) -> bool {
    &&& order.len() == n
    &&& forall|i: int| 0 <= i < order.len() ==> (#[trigger] order[i]) < n
    &&& forall|i: int, j: int| 0 <= i < j < order.len() ==> #[trigger] order[i] != #[trigger] order[j]
}

/// Some position of `order` holds `j`.
pub open spec fn reaches(order: Seq<usize>, j: int) -> bool {
    exists|k: int| 0 <= k < order.len() && order[k] == j
}

/// A permutation of `0..n` reaches every position of `0..n`.
pub proof fn lemma_permutation_onto(order: Seq<usize>, n: nat)
    requires
        is_permutation(order, n),
    ensures
        forall|j: int| 0 <= j < n ==> #[trigger] reaches(order, j),
{
    let s = order.map_values(|x: usize| x as int);
    assert(s.no_duplicates()) by {
        assert forall|i: int, j: int| 0 <= i < s.len() && 0 <= j < s.len() && i != j implies s[i] != s[j] by {
            if i < j {
                assert(order[i] != order[j]);
            } else {
                assert(order[j] != order[i]);
            }
        }
    }
    s.unique_seq_to_set();
    lemma_int_range(0, n as int);
    assert(s.to_set().subset_of(set_int_range(0, n as int))) by {
        assert forall|x: int| s.to_set().contains(x) implies set_int_range(0, n as int).contains(x) by {
            let k = choose|k: int| 0 <= k < s.len() && s[k] == x;
            assert(order[k] < n);
        }
    }
    lemma_len_subset(s.to_set(), set_int_range(0, n as int));
    lemma_subset_equality(s.to_set(), set_int_range(0, n as int));
    assert forall|j: int| 0 <= j < n implies #[trigger] reaches(order, j) by {
        assert(set_int_range(0, n as int).contains(j));
        assert(s.to_set().contains(j));
        let k = choose|k: int| 0 <= k < s.len() && s[k] == j;
        assert(order[k] == j);
    }
}

/// Under descending keys, item `a` is ranked strictly before item `b`: its key
/// is larger, or the keys tie and the tie goes to the later item
/// (`later_first`) or to the earlier one.
pub open spec fn ranks_before(keys: Seq<u64>, later_first: bool, a: usize, b: usize) -> bool {
    keys[a as int] > keys[b as int] || (keys[a as int] == keys[b as int] && (if later_first {
        a > b
    } else {
        a < b
    }))
}

/// Every earlier position of `order` is ranked strictly before every later one.
pub open spec fn ranked_desc(keys: Seq<u64>, later_first: bool, order: Seq<usize>) -> bool {
    forall|i: int, j: int|
        0 <= i < j < order.len() ==> ranks_before(keys, later_first, #[trigger] order[i], #[trigger] order[j])
}

fn before(keys: &Vec<u64>, later_first: bool, a: usize, b: usize) -> (r: bool)
    requires
        a < keys@.len(),
        b < keys@.len(),
    ensures
        r == ranks_before(keys@, later_first, a, b),
{
    keys[a] > keys[b] || (keys[a] == keys[b] && (if later_first {
        a > b
    } else {
        a < b
    }))
}

/// The positions `0..keys.len()` ordered by descending key; ties put the later
/// position first when `later_first`, else the earlier one. The order is
/// strict, so this is the one ordering with that property.
pub fn order_by_key_desc(keys: &Vec<u64>, later_first: bool) -> (r: Vec<usize>)
    ensures
        is_permutation(r@, keys@.len()),
        ranked_desc(keys@, later_first, r@),
{
    let n = keys.len();
    let mut order: Vec<usize> = Vec::new();
    let mut k: usize = 0;
    while k < n
        invariant
            n == keys@.len(),
            k <= n,
            order@.len() == k,
            forall|m: int| 0 <= m < k ==> order@[m] == m,
        decreases n - k,
    {
        order.push(k);
        k = k + 1;
    }
    let mut i: usize = 1;
    while i < n
        invariant
            n == keys@.len(),
            order@.len() == n,
            1 <= i || n == 0,
            i <= n || n == 0,
            is_permutation(order@, n as nat),
            forall|a: int, b: int|
                0 <= a < b < i && b < n ==> ranks_before(keys@, later_first, #[trigger] order@[a], #[trigger] order@[b]),
            forall|m: int| i <= m < n ==> order@[m] == m,
        decreases n - i,
    {
        let mut j: usize = i;
        while j > 0 && before(keys, later_first, order[j], order[j - 1])
            invariant
                n == keys@.len(),
                order@.len() == n,
                0 <= j <= i < n,
                is_permutation(order@, n as nat),
                forall|a: int, b: int|
                    0 <= a < b < j ==> ranks_before(keys@, later_first, #[trigger] order@[a], #[trigger] order@[b]),
                forall|a: int, b: int|
                    j < a < b <= i ==> ranks_before(keys@, later_first, #[trigger] order@[a], #[trigger] order@[b]),
                forall|a: int, b: int|
                    0 <= a < j && j < b <= i ==> ranks_before(keys@, later_first, #[trigger] order@[a], #[trigger] order@[b]),
                forall|b: int| j < b <= i ==> ranks_before(keys@, later_first, order@[j as int], #[trigger] order@[b]),
                forall|m: int| i < m < n ==> order@[m] == m,
            decreases j,
        {
            let x = order[j];
            let y = order[j - 1];
            order.set(j, y);
            order.set(j - 1, x);
            j = j - 1;
        }
        proof {
            if j > 0 {
                assert(!ranks_before(keys@, later_first, order@[j as int], order@[j - 1]));
                assert(order@[j as int] != order@[j - 1]);
                assert(ranks_before(keys@, later_first, order@[j - 1], order@[j as int]));
            }
            assert forall|a: int, b: int|
                0 <= a < b < i + 1 && b < n implies ranks_before(keys@, later_first, #[trigger] order@[a], #[trigger] order@[b]) by {
                if b == j && a < j {
                    assert(ranks_before(keys@, later_first, order@[a], order@[j - 1]) || a == j - 1);
                }
                if a == j && b > j {
                }
            }
        }
        i = i + 1;
    }
    order
}

/// `a` sorts strictly before `b` in lexicographic order of code points, which
/// is also the byte order of their UTF-8 encodings.
pub open spec fn chars_lt(a: Seq<char>, b: Seq<char>) -> bool
    decreases a.len(),
{
    if a.len() == 0 {
        b.len() > 0
    } else if b.len() == 0 {
        false
    } else if a[0] != b[0] {
        (a[0] as int) < (b[0] as int)
    } else {
        chars_lt(a.drop_first(), b.drop_first())
    }
}

/// `chars_lt` is transitive.
pub proof fn lemma_chars_lt_transitive(a: Seq<char>, b: Seq<char>, c: Seq<char>)
    requires
        chars_lt(a, b),
        chars_lt(b, c),
    ensures
        chars_lt(a, c),
    decreases a.len(),
{
    if a.len() > 0 && b.len() > 0 && c.len() > 0 && a[0] == b[0] && b[0] == c[0] {
        lemma_chars_lt_transitive(a.drop_first(), b.drop_first(), c.drop_first());
    }
}

/// Two different sequences are ordered one way or the other.
pub proof fn lemma_chars_lt_total(a: Seq<char>, b: Seq<char>)
    ensures
        a == b || chars_lt(a, b) || chars_lt(b, a),
    decreases a.len(),
{
    if a.len() > 0 && b.len() > 0 && a[0] == b[0] {
        lemma_chars_lt_total(a.drop_first(), b.drop_first());
        if a.drop_first() == b.drop_first() {
            assert(a =~= seq![a[0]] + a.drop_first());
            assert(b =~= seq![b[0]] + b.drop_first());
        }
    } else if a.len() == 0 && b.len() == 0 {
        assert(a =~= b);
    }
}

/// `chars_lt` is irreflexive.
pub proof fn lemma_chars_lt_irreflexive(a: Seq<char>)
    ensures
        !chars_lt(a, a),
    decreases a.len(),
{
    if a.len() > 0 {
        lemma_chars_lt_irreflexive(a.drop_first());
    }
}

/// Whether `a` sorts strictly before `b` (see `chars_lt`).
pub fn text_lt(a: &str, b: &str) -> (r: bool)
    ensures
        r == chars_lt(a@, b@),
{
    let x = crate::text::chars_of(a);
    let y = crate::text::chars_of(b);
    let mut i: usize = 0;
    proof {
        assert(a@.skip(0) =~= a@);
        assert(b@.skip(0) =~= b@);
    }
    while i < x.len() && i < y.len() && x[i] == y[i]
        invariant
            x@ == a@,
            y@ == b@,
            i <= x@.len(),
            i <= y@.len(),
            chars_lt(a@, b@) == chars_lt(a@.skip(i as int), b@.skip(i as int)),
        decreases x@.len() - i,
    {
        proof {
            assert(a@.skip(i as int).drop_first() =~= a@.skip(i + 1));
            assert(b@.skip(i as int).drop_first() =~= b@.skip(i + 1));
        }
        i = i + 1;
    }
    if i == x.len() {
        i < y.len()
    } else if i == y.len() {
        false
    } else {
        x[i] < y[i]
    }
}

/// Entry `a` sorts strictly before entry `b`: a smaller parsed index, or the
/// same index and a smaller key text.
pub open spec fn entry_lt(ints: Seq<i64>, keys: Seq<Seq<char>>, a: usize, b: usize) -> bool {
    ints[a as int] < ints[b as int] || (ints[a as int] == ints[b as int] && chars_lt(keys[a as int], keys[b as int]))
}

/// Every earlier position of `order` sorts strictly before every later one.
pub open spec fn entries_sorted(ints: Seq<i64>, keys: Seq<Seq<char>>, order: Seq<usize>) -> bool {
    forall|i: int, j: int|
        0 <= i < j < order.len() ==> entry_lt(ints, keys, #[trigger] order[i], #[trigger] order[j])
}

fn entry_before(ints: &Vec<i64>, keys: &Vec<String>, a: usize, b: usize) -> (r: bool)
    requires
        a < ints@.len(),
        b < ints@.len(),
        ints@.len() == keys@.len(),
    ensures
        r == entry_lt(ints@, keys.deep_view(), a, b),
{
    ints[a] < ints[b] || (ints[a] == ints[b] && text_lt(keys[a].as_str(), keys[b].as_str()))
}

/// The positions `0..keys.len()` ordered by parsed index, then by key text.
/// With distinct keys the order is strict, so this is the one ordering with
/// that property.
pub fn order_entries(ints: &Vec<i64>, keys: &Vec<String>) -> (r: Vec<usize>)
    requires
        ints@.len() == keys@.len(),
        forall|a: int, b: int| 0 <= a < b < keys@.len() ==> (#[trigger] keys@[a])@ != (#[trigger] keys@[b])@,
    ensures
        is_permutation(r@, keys@.len()),
        entries_sorted(ints@, keys.deep_view(), r@),
{
    let n = keys.len();
    let ghost kv = keys.deep_view();
    let mut order: Vec<usize> = Vec::new();
    let mut k: usize = 0;
    while k < n
        invariant
            n == keys@.len(),
            k <= n,
            order@.len() == k,
            forall|m: int| 0 <= m < k ==> order@[m] == m,
        decreases n - k,
    {
        order.push(k);
        k = k + 1;
    }
    let mut i: usize = 1;
    while i < n
        invariant
            n == keys@.len(),
            n == ints@.len(),
            kv == keys.deep_view(),
            forall|a: int, b: int| 0 <= a < b < n ==> (#[trigger] kv[a]) != (#[trigger] kv[b]),
            order@.len() == n,
            1 <= i || n == 0,
            is_permutation(order@, n as nat),
            forall|a: int, b: int|
                0 <= a < b < i && b < n ==> entry_lt(ints@, kv, #[trigger] order@[a], #[trigger] order@[b]),
            forall|m: int| i <= m < n ==> order@[m] == m,
        decreases n - i,
    {
        let mut j: usize = i;
        while j > 0 && entry_before(ints, keys, order[j], order[j - 1])
            invariant
                n == keys@.len(),
                n == ints@.len(),
                kv == keys.deep_view(),
                order@.len() == n,
                0 <= j <= i < n,
                is_permutation(order@, n as nat),
                forall|a: int, b: int|
                    0 <= a < b < j ==> entry_lt(ints@, kv, #[trigger] order@[a], #[trigger] order@[b]),
                forall|a: int, b: int|
                    j < a < b <= i ==> entry_lt(ints@, kv, #[trigger] order@[a], #[trigger] order@[b]),
                forall|a: int, b: int|
                    0 <= a < j && j < b <= i ==> entry_lt(ints@, kv, #[trigger] order@[a], #[trigger] order@[b]),
                forall|b: int| j < b <= i ==> entry_lt(ints@, kv, order@[j as int], #[trigger] order@[b]),
                forall|m: int| i < m < n ==> order@[m] == m,
            decreases j,
        {
            let x = order[j];
            let y = order[j - 1];
            order.set(j, y);
            order.set(j - 1, x);
            j = j - 1;
        }
        proof {
            if j > 0 {
                let x = order@[j as int];
                let y = order@[j - 1];
                assert(!entry_lt(ints@, kv, x, y));
                assert(x != y);
                assert(kv[x as int] != kv[y as int]);
                lemma_chars_lt_total(kv[x as int], kv[y as int]);
                assert(entry_lt(ints@, kv, y, x));
                assert forall|a: int| 0 <= a < j implies entry_lt(ints@, kv, #[trigger] order@[a], x) by {
                    if a < j - 1 {
                        let z = order@[a];
                        assert(entry_lt(ints@, kv, z, y));
                        if ints@[z as int] == ints@[y as int] && ints@[y as int] == ints@[x as int] {
                            lemma_chars_lt_transitive(kv[z as int], kv[y as int], kv[x as int]);
                        }
                    }
                }
            }
            assert forall|a: int, b: int|
                0 <= a < b < i + 1 && b < n implies entry_lt(ints@, kv, #[trigger] order@[a], #[trigger] order@[b]) by {
                if b == j && a < j {
                    assert(entry_lt(ints@, kv, order@[a], order@[j as int]));
                }
            }
        }
        i = i + 1;
    }
    order
}

/// `s` is strictly increasing under `lt`.
pub open spec fn strictly_sorted(s: Seq<usize>, lt: spec_fn(usize, usize) -> bool) -> bool {
    forall|i: int, j: int| 0 <= i < j < s.len() ==> lt(#[trigger] s[i], #[trigger] s[j])
}

proof fn lemma_sorted_unique(a: Seq<usize>, b: Seq<usize>, lt: spec_fn(usize, usize) -> bool)
    requires
        a.no_duplicates(),
        b.no_duplicates(),
        a.to_set() == b.to_set(),
        strictly_sorted(a, lt),
        strictly_sorted(b, lt),
        forall|x: usize, y: usize| #[trigger] lt(x, y) ==> !lt(y, x),
    ensures
        a == b,
    decreases a.len(),
{
    a.unique_seq_to_set();
    b.unique_seq_to_set();
    if a.len() == 0 {
        assert(b.len() == 0);
        assert(a =~= b);
    } else {
        assert(b.len() == a.len());
        assert(a.to_set().contains(a[0]));
        assert(b.to_set().contains(a[0]));
        let k = choose|k: int| 0 <= k < b.len() && b[k] == a[0];
        assert(a.to_set().contains(b[0]));
        let j = choose|j: int| 0 <= j < a.len() && a[j] == b[0];
        if k > 0 && j > 0 {
            assert(lt(b[0], b[k]));
            assert(lt(a[0], a[j]));
            assert(false);
        }
        assert(a[0] == b[0]);
        let a1 = a.drop_first();
        let b1 = b.drop_first();
        assert(a1.no_duplicates());
        assert(b1.no_duplicates());
        assert(a1.to_set() =~= b1.to_set()) by {
            assert forall|x: usize| a1.to_set().contains(x) implies b1.to_set().contains(x) by {
                let p = choose|p: int| 0 <= p < a1.len() && a1[p] == x;
                assert(a[p + 1] == x);
                assert(b.to_set().contains(x));
                let q = choose|q: int| 0 <= q < b.len() && b[q] == x;
                if q == 0 {
                    assert(a[0] == a[p + 1]);
                }
                assert(b1[q - 1] == x);
            }
            assert forall|x: usize| b1.to_set().contains(x) implies a1.to_set().contains(x) by {
                let p = choose|p: int| 0 <= p < b1.len() && b1[p] == x;
                assert(b[p + 1] == x);
                assert(a.to_set().contains(x));
                let q = choose|q: int| 0 <= q < a.len() && a[q] == x;
                if q == 0 {
                    assert(b[0] == b[p + 1]);
                }
                assert(a1[q - 1] == x);
            }
        }
        assert(strictly_sorted(a1, lt)) by {
            assert forall|i: int, j2: int| 0 <= i < j2 < a1.len() implies lt(#[trigger] a1[i], #[trigger] a1[j2]) by {
                assert(a1[i] == a[i + 1]);
                assert(a1[j2] == a[j2 + 1]);
            }
        }
        assert(strictly_sorted(b1, lt)) by {
            assert forall|i: int, j2: int| 0 <= i < j2 < b1.len() implies lt(#[trigger] b1[i], #[trigger] b1[j2]) by {
                assert(b1[i] == b[i + 1]);
                assert(b1[j2] == b[j2 + 1]);
            }
        }
        lemma_sorted_unique(a1, b1, lt);
        assert(a =~= b) by {
            assert forall|i: int| 0 <= i < a.len() implies a[i] == b[i] by {
                if i > 0 {
                    assert(a[i] == a1[i - 1]);
                    assert(b[i] == b1[i - 1]);
                }
            }
        }
    }
}

proof fn lemma_permutation_set(order: Seq<usize>, n: nat)
    requires
        is_permutation(order, n),
    ensures
        order.no_duplicates(),
        order.to_set() == Set::new(|x: usize| x < n),
{
    lemma_permutation_onto(order, n);
    assert(order.to_set() =~= Set::new(|x: usize| x < n)) by {
        assert forall|x: usize| x < n implies order.to_set().contains(x) by {
            assert(reaches(order, x as int));
        }
    }
}

/// There is only one order of `0..keys.len()` by descending key with the
/// given tie rule: any two permutations ranked that way are the same.
pub proof fn law_key_order_unique(keys: Seq<u64>, later_first: bool, a: Seq<usize>, b: Seq<usize>)
    requires
        is_permutation(a, keys.len()),
        is_permutation(b, keys.len()),
        ranked_desc(keys, later_first, a),
        ranked_desc(keys, later_first, b),
    ensures
        a == b,
{
    lemma_permutation_set(a, keys.len());
    lemma_permutation_set(b, keys.len());
    let lt = |x: usize, y: usize| ranks_before(keys, later_first, x, y);
    assert(strictly_sorted(a, lt));
    assert(strictly_sorted(b, lt));
    lemma_sorted_unique(a, b, lt);
}

/// `chars_lt` never holds both ways.
pub proof fn lemma_chars_lt_asymmetric(a: Seq<char>, b: Seq<char>)
    ensures
        chars_lt(a, b) ==> !chars_lt(b, a),
{
    if chars_lt(a, b) && chars_lt(b, a) {
        lemma_chars_lt_transitive(a, b, a);
        lemma_chars_lt_irreflexive(a);
    }
}

/// With distinct key texts there is only one order of the entries by parsed
/// index, then key text: any two permutations sorted that way are the same.
pub proof fn law_entry_order_unique(ints: Seq<i64>, keys: Seq<Seq<char>>, a: Seq<usize>, b: Seq<usize>)
    requires
        ints.len() == keys.len(),
        is_permutation(a, keys.len()),
        is_permutation(b, keys.len()),
        entries_sorted(ints, keys, a),
        entries_sorted(ints, keys, b),
    ensures
        a == b,
{
    lemma_permutation_set(a, keys.len());
    lemma_permutation_set(b, keys.len());
    let lt = |x: usize, y: usize| entry_lt(ints, keys, x, y);
    assert forall|x: usize, y: usize| #[trigger] lt(x, y) implies !lt(y, x) by {
        lemma_chars_lt_asymmetric(keys[x as int], keys[y as int]);
    }
    assert(strictly_sorted(a, lt));
    assert(strictly_sorted(b, lt));
    lemma_sorted_unique(a, b, lt);
}

} // verus!
