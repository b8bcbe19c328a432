use vstd::prelude::*;
use crate::order::{seq_lt, int_seq, lex_less, lemma_seq_lt_irreflexive, lemma_seq_lt_transitive};

verus! {

/// `a` comes strictly before `b` when keys are ordered in the given direction.
pub open spec fn key_before(ascending: bool, a: Seq<int>, b: Seq<int>) -> bool {
    if ascending {
        seq_lt(a, b)
    } else {
        seq_lt(b, a)
    }
}

/// `p` is a permutation of `0..n`.
pub open spec fn is_permutation(p: Seq<int>, n: int) -> bool {
    &&& p.len() == n
    &&& forall|i: int| 0 <= i < n ==> 0 <= #[trigger] p[i] < n
    &&& forall|i: int, j: int| 0 <= i < n && 0 <= j < n && i != j ==> p[i] != p[j]
}

/// The key stored at position `i`, as a sequence of integers.
pub open spec fn key_at(keys: Seq<Vec<i64>>, i: int) -> Seq<int> {
    int_seq(keys[i]@)
}

proof fn lemma_key_before_transitive(asc: bool, a: Seq<int>, b: Seq<int>, c: Seq<int>)
    requires
        key_before(asc, a, b),
        key_before(asc, b, c),
    ensures
        key_before(asc, a, c),
{
    if asc {
        lemma_seq_lt_transitive(a, b, c);
    } else {
        lemma_seq_lt_transitive(c, b, a);
    }
}

proof fn lemma_key_before_irreflexive(asc: bool, a: Seq<int>)
    ensures
        !key_before(asc, a, a),
{
    lemma_seq_lt_irreflexive(a);
}

fn key_before_exec(ascending: bool, a: &Vec<i64>, b: &Vec<i64>) -> (r: bool)
    ensures
        r == key_before(ascending, int_seq(a@), int_seq(b@)),
{
    if ascending {
        lex_less(a, b)
    } else {
        lex_less(b, a)
    }
}

/// Stable insertion sort of `items` by the parallel `keys`.
///
/// The returned permutation `p` says where each output position came from:
/// output position `i` holds the input at `p[i]`. The output is sorted, and
/// items with equal keys keep their input order.
pub fn sort_by_keys<T>(keys: &mut Vec<Vec<i64>>, items: &mut Vec<T>, ascending: bool) -> (perm: Ghost<Seq<int>>)
    requires
        old(keys).len() == old(items).len(),
    ensures
        final(keys).len() == old(keys).len(),
        final(items).len() == old(items).len(),
        is_permutation(perm@, old(items).len() as int),
        forall|i: int| 0 <= i < old(items).len() ==> #[trigger] final(items)@[i] == old(items)@[perm@[i]]
            && final(keys)@[i] == old(keys)@[perm@[i]],
        forall|i: int, j: int| 0 <= i < j < old(items).len() ==>
            !key_before(ascending, #[trigger] key_at(final(keys)@, j), #[trigger] key_at(final(keys)@, i)),
        forall|i: int, j: int| 0 <= i < j < old(items).len()
            && #[trigger] key_at(final(keys)@, i) == #[trigger] key_at(final(keys)@, j) ==> perm@[i] < perm@[j],
{
    let ghost keys0 = keys@;
    let ghost items0 = items@;
    let n = items.len();
    let ghost mut p: Seq<int> = Seq::new(n as nat, |i: int| i);
    let mut i: usize = 0;
    while i < n
        invariant
            n == items0.len(),
            keys0.len() == n,
            items.len() == n,
            keys.len() == n,
            i <= n,
            is_permutation(p, n as int),
            forall|k: int| 0 <= k < n ==> #[trigger] items@[k] == items0[p[k]] && keys@[k] == keys0[p[k]],
            forall|k: int| i <= k < n ==> #[trigger] p[k] == k,
            forall|k: int| 0 <= k < i ==> #[trigger] p[k] < i,
            forall|a: int, b: int| 0 <= a < b < i ==>
                !key_before(ascending, #[trigger] key_at(keys@, b), #[trigger] key_at(keys@, a)),
            forall|a: int, b: int| 0 <= a < b < i
                && #[trigger] key_at(keys@, a) == #[trigger] key_at(keys@, b) ==> p[a] < p[b],
        decreases n - i,
    {
        let ghost pre_keys = keys@;
        let ghost pre_items = items@;
        let x = items.remove(i);
        let kx = keys.remove(i);
        let ghost kxs = int_seq(kx@);
        assert(kx == pre_keys[i as int]);
        let mut j: usize = 0;
        while j < i && !key_before_exec(ascending, &kx, &keys[j])
            invariant
                j <= i,
                i < n,
                keys.len() == n - 1,
                keys@ == pre_keys.remove(i as int),
                kxs == int_seq(kx@),
                forall|k: int| 0 <= k < j ==> !key_before(ascending, kxs, #[trigger] key_at(keys@, k)),
            decreases i - j,
        {
            j = j + 1;
        }
        let ghost mid_keys = keys@;
        items.insert(j, x);
        keys.insert(j, kx);
        let ghost old_p = p;
        proof {
            p = old_p.remove(i as int).insert(j as int, i as int);
            assert(keys@ == pre_keys.remove(i as int).insert(j as int, kx));
            assert(items@ == pre_items.remove(i as int).insert(j as int, x));
            // positions of the new arrangement, in terms of the previous one
            assert forall|k: int| 0 <= k < n implies #[trigger] items@[k] == items0[p[k]] && keys@[k] == keys0[p[k]] by {
                if k < j {
                    assert(p[k] == old_p[k]);
                    assert(items@[k] == pre_items[k] && keys@[k] == pre_keys[k]);
                } else if k == j {
                    assert(p[k] == i);
                    assert(old_p[i as int] == i);
                    assert(items@[k] == pre_items[i as int] && keys@[k] == pre_keys[i as int]);
                } else if k <= i {
                    assert(p[k] == old_p[k - 1]);
                    assert(items@[k] == pre_items[k - 1] && keys@[k] == pre_keys[k - 1]);
                } else {
                    assert(p[k] == old_p[k]);
                    assert(items@[k] == pre_items[k] && keys@[k] == pre_keys[k]);
                }
            }
            assert forall|a: int, b: int| 0 <= a < n && 0 <= b < n && a != b implies p[a] != p[b] by {
                let pa = if a < j { a } else if a == j { i as int } else if a <= i { a - 1 } else { a };
                let pb = if b < j { b } else if b == j { i as int } else if b <= i { b - 1 } else { b };
                assert(p[a] == old_p[pa]);
                assert(p[b] == old_p[pb]);
            }
            assert forall|a: int, b: int| 0 <= a < b < i + 1 implies
                !key_before(ascending, #[trigger] key_at(keys@, b), #[trigger] key_at(keys@, a)) by {
                if b < j {
                    assert(key_at(keys@, a) == key_at(pre_keys, a));
                    assert(key_at(keys@, b) == key_at(pre_keys, b));
                } else if b == j {
                    assert(key_at(mid_keys, a) == key_at(pre_keys, a));
                    assert(key_at(keys@, a) == key_at(pre_keys, a));
                } else if a == j {
                    // b - 1 >= j, and the scan stopped at j because kx comes before keys[j]
                    assert(key_at(keys@, b) == key_at(pre_keys, b - 1));
                    assert(key_at(mid_keys, j as int) == key_at(pre_keys, j as int));
                    assert(key_before(ascending, kxs, key_at(pre_keys, j as int)));
                    if key_before(ascending, key_at(pre_keys, b - 1), kxs) {
                        lemma_key_before_transitive(ascending, key_at(pre_keys, b - 1), kxs, key_at(pre_keys, j as int));
                        if b - 1 == j {
                            lemma_key_before_irreflexive(ascending, key_at(pre_keys, j as int));
                        }
                    }
                } else if a < j {
                    assert(key_at(keys@, a) == key_at(pre_keys, a));
                    assert(key_at(keys@, b) == key_at(pre_keys, b - 1));
                } else {
                    assert(key_at(keys@, a) == key_at(pre_keys, a - 1));
                    assert(key_at(keys@, b) == key_at(pre_keys, b - 1));
                }
            }
            assert forall|a: int, b: int| 0 <= a < b < i + 1
                && #[trigger] key_at(keys@, a) == #[trigger] key_at(keys@, b) implies p[a] < p[b] by {
                if b < j {
                    assert(key_at(keys@, a) == key_at(pre_keys, a));
                    assert(key_at(keys@, b) == key_at(pre_keys, b));
                } else if b == j {
                    assert(p[b] == i);
                    assert(p[a] == old_p[a]);
                } else if a == j {
                    assert(key_at(keys@, b) == key_at(pre_keys, b - 1));
                    assert(key_at(mid_keys, j as int) == key_at(pre_keys, j as int));
                    assert(key_before(ascending, kxs, key_at(pre_keys, j as int)));
                    if b - 1 == j {
                        lemma_key_before_irreflexive(ascending, key_at(pre_keys, j as int));
                    } else {
                        assert(!key_before(ascending, key_at(pre_keys, b - 1), key_at(pre_keys, j as int)));
                    }
                } else if a < j {
                    assert(key_at(keys@, a) == key_at(pre_keys, a));
                    assert(key_at(keys@, b) == key_at(pre_keys, b - 1));
                    assert(p[a] == old_p[a]);
                    assert(p[b] == old_p[b - 1]);
                } else {
                    assert(key_at(keys@, a) == key_at(pre_keys, a - 1));
                    assert(key_at(keys@, b) == key_at(pre_keys, b - 1));
                    assert(p[a] == old_p[a - 1]);
                    assert(p[b] == old_p[b - 1]);
                }
            }
        }
        i = i + 1;
    }
    Ghost(p)
}

} // verus!
