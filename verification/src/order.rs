use vstd::prelude::*;

verus! {

/// Strict lexicographic order on integer sequences: a proper prefix comes
/// first; otherwise the first position where the two differ decides.
pub open spec fn seq_lt(a: Seq<int>, b: Seq<int>) -> bool
    decreases a.len(),
{
    if b.len() == 0 {
        false
    } else if a.len() == 0 {
        true
    } else if a[0] < b[0] {
        true
    } else if a[0] > b[0] {
        false
    } else {
        seq_lt(a.drop_first(), b.drop_first())
    }
}

/// The code points of a character sequence. Comparing these with `seq_lt`
/// is the order of Rust's `str`/`String` comparison (UTF-8 preserves
/// code point order).
pub open spec fn char_codes(s: Seq<char>) -> Seq<int> {
    s.map_values(|c: char| c as int)
}

/// A sequence of machine integers read as mathematical integers.
pub open spec fn int_seq(s: Seq<i64>) -> Seq<int> {
    s.map_values(|x: i64| x as int)
}

/// `seq_lt` is irreflexive.
pub proof fn lemma_seq_lt_irreflexive(a: Seq<int>)
    ensures
        !seq_lt(a, a),
    decreases a.len(),
{
    if a.len() > 0 {
        lemma_seq_lt_irreflexive(a.drop_first());
    }
}

/// `seq_lt` is transitive.
pub proof fn lemma_seq_lt_transitive(a: Seq<int>, b: Seq<int>, c: Seq<int>)
    requires
        seq_lt(a, b),
        seq_lt(b, c),
    ensures
        seq_lt(a, c),
    decreases a.len(),
{
    if a.len() > 0 && b.len() > 0 && c.len() > 0 && a[0] == b[0] && b[0] == c[0] {
        lemma_seq_lt_transitive(a.drop_first(), b.drop_first(), c.drop_first());
    }
}

/// `seq_lt` is total: two different sequences are ordered one way or the other.
pub proof fn lemma_seq_lt_total(a: Seq<int>, b: Seq<int>)
    requires
        a != b,
    ensures
        seq_lt(a, b) || seq_lt(b, a),
    decreases a.len(),
{
    if a.len() > 0 && b.len() > 0 && a[0] == b[0] {
        if a.drop_first() == b.drop_first() {
            assert(a =~= seq![a[0]] + a.drop_first());
            assert(b =~= seq![b[0]] + b.drop_first());
        }
        lemma_seq_lt_total(a.drop_first(), b.drop_first());
    } else if a.len() == 0 && b.len() == 0 {
        assert(a =~= b);
    }
}

/// Lexicographic comparison of two integer vectors.
pub fn lex_less(a: &Vec<i64>, b: &Vec<i64>) -> (r: bool)
    ensures
        r == seq_lt(int_seq(a@), int_seq(b@)),
{
    let ghost sa = int_seq(a@);
    let ghost sb = int_seq(b@);
    let mut i: usize = 0;
    assert(sa.skip(0) =~= sa);
    assert(sb.skip(0) =~= sb);
    while i < a.len() && i < b.len()
        invariant
            i <= a.len(),
            i <= b.len(),
            sa == int_seq(a@),
            sb == int_seq(b@),
            seq_lt(sa, sb) == seq_lt(sa.skip(i as int), sb.skip(i as int)),
        decreases a.len() - i,
    {
        if a[i] < b[i] {
            return true;
        }
        if a[i] > b[i] {
            return false;
        }
        assert(sa.skip(i as int).drop_first() =~= sa.skip(i as int + 1));
        assert(sb.skip(i as int).drop_first() =~= sb.skip(i as int + 1));
        i = i + 1;
    }
    i < b.len()
}

} // verus!

verus! {

/// Two sequences that agree before position `j` and differ there are ordered
/// by their elements at `j`.
pub proof fn lemma_seq_lt_at(a: Seq<int>, b: Seq<int>, j: int)
    requires
        0 <= j < a.len(),
        j < b.len(),
        forall|k: int| 0 <= k < j ==> a[k] == b[k],
        a[j] < b[j],
    ensures
        seq_lt(a, b),
    decreases j,
{
    if j > 0 {
        assert(a[0] == b[0]);
        lemma_seq_lt_at(a.drop_first(), b.drop_first(), j - 1);
    }
}

/// The character-sequence form of `lemma_seq_lt_at`.
pub proof fn lemma_chars_lt_at(a: Seq<char>, b: Seq<char>, j: int)
    requires
        0 <= j < a.len(),
        j < b.len(),
        forall|k: int| 0 <= k < j ==> a[k] == b[k],
        a[j] < b[j],
    ensures
        seq_lt(char_codes(a), char_codes(b)),
{
    assert forall|k: int| 0 <= k < j implies char_codes(a)[k] == char_codes(b)[k] by {
        assert(a[k] == b[k]);
    }
    lemma_seq_lt_at(char_codes(a), char_codes(b), j);
}

/// A sequence that comes before `b` also comes before any extension of `b`.
pub proof fn lemma_seq_lt_extend(a: Seq<int>, b: Seq<int>, c: Seq<int>)
    requires
        seq_lt(a, b),
        b.len() <= c.len(),
        forall|k: int| 0 <= k < b.len() ==> c[k] == b[k],
    ensures
        seq_lt(a, c),
    decreases a.len(),
{
    if a.len() > 0 && a[0] == b[0] {
        assert(c[0] == b[0]);
        assert forall|k: int| 0 <= k < b.drop_first().len() implies c.drop_first()[k] == b.drop_first()[k] by {
            assert(c[k + 1] == b[k + 1]);
        }
        lemma_seq_lt_extend(a.drop_first(), b.drop_first(), c.drop_first());
    } else if a.len() > 0 {
        assert(c[0] == b[0]);
    }
}

/// The character-sequence form of `lemma_seq_lt_extend`.
pub proof fn lemma_chars_lt_extend(a: Seq<char>, b: Seq<char>, c: Seq<char>)
    requires
        seq_lt(char_codes(a), char_codes(b)),
        b.len() <= c.len(),
        forall|k: int| 0 <= k < b.len() ==> c[k] == b[k],
    ensures
        seq_lt(char_codes(a), char_codes(c)),
{
    assert forall|k: int| 0 <= k < char_codes(b).len() implies char_codes(c)[k] == char_codes(b)[k] by {
        assert(c[k] == b[k]);
    }
    lemma_seq_lt_extend(char_codes(a), char_codes(b), char_codes(c));
}

} // verus!
